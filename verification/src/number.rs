//! JSON number literals and the integers they denote.
//!
//! A literal is a sign, a run of digits, an optional fraction and an optional
//! exponent. It denotes an integer when no digit other than `0` is left
//! behind the decimal point once the exponent has moved the point.

use crate::text::chars_of;
use vstd::prelude::*;
use vstd::string::StringExecFns;

verus! {

/// The largest magnitude of a 64-bit signed integer: 2^63.
pub const MAGNITUDE_LIMIT: u64 = 0x8000_0000_0000_0000;

/// From this value on an exponent is only known to be large: 2^100.
const EXPONENT_CAP: u128 = 0x10_0000_0000_0000_0000_0000_0000;

/// One of the decimal digits.
pub open spec fn is_digit(c: char) -> bool {
    '0' <= c && c <= '9'
}

/// The value of a decimal digit.
pub open spec fn digit_value(c: char) -> nat {
    if c == '1' {
        1
    } else if c == '2' {
        2
    } else if c == '3' {
        3
    } else if c == '4' {
        4
    } else if c == '5' {
        5
    } else if c == '6' {
        6
    } else if c == '7' {
        7
    } else if c == '8' {
        8
    } else if c == '9' {
        9
    } else {
        0
    }
}

/// The decimal digit of a value below ten.
pub open spec fn digit_char(d: nat) -> char {
    if d == 1 {
        '1'
    } else if d == 2 {
        '2'
    } else if d == 3 {
        '3'
    } else if d == 4 {
        '4'
    } else if d == 5 {
        '5'
    } else if d == 6 {
        '6'
    } else if d == 7 {
        '7'
    } else if d == 8 {
        '8'
    } else if d == 9 {
        '9'
    } else {
        '0'
    }
}

/// The number that a run of decimal digits denotes, most significant first.
pub open spec fn digits_value(s: Seq<char>) -> nat
    decreases s.len(),
{
    if s.len() == 0 {
        0
    } else {
        digits_value(s.drop_last()) * 10 + digit_value(s.last())
    }
}

/// The decimal digits of a natural number, without leading zeros.
pub open spec fn digits_text(n: nat) -> Seq<char>
    decreases n,
{
    if n < 10 {
        seq![digit_char(n)]
    } else {
        digits_text(n / 10).push(digit_char(n % 10))
    }
}

/// The decimal literal of an integer.
pub open spec fn decimal_text(i: int) -> Seq<char> {
    if i < 0 {
        seq!['-'] + digits_text((-i) as nat)
    } else {
        digits_text(i as nat)
    }
}

/// The end of the run of digits that starts at `from`.
pub open spec fn digit_run(s: Seq<char>, from: int) -> int
    decreases s.len() - from,
{
    if 0 <= from < s.len() && is_digit(s[from]) {
        digit_run(s, from + 1)
    } else {
        from
    }
}

/// `n` times the digit `0`.
pub open spec fn zeros(n: nat) -> Seq<char> {
    Seq::new(n, |i: int| '0')
}

/// Every character is the digit `0`.
pub open spec fn all_zeros(s: Seq<char>) -> bool {
    forall|i: int| 0 <= i < s.len() ==> s[i] == '0'
}

/// The parts of a number literal.
pub struct NumberParts {
    pub negative: bool,
    /// The digits before the point.
    pub whole: Seq<char>,
    /// The digits behind the point; empty where there is no point.
    pub fraction: Seq<char>,
    /// The exponent; 0 where none is written.
    pub exponent: int,
}

/// Splits a literal by the JSON grammar of numbers: an optional `-`, digits
/// without a needless leading zero, an optional `.` with digits, an optional
/// `e` or `E` with an optional sign and digits. `None` for any other text.
pub open spec fn number_parts(s: Seq<char>) -> Option<NumberParts> {
    let a = if s.len() > 0 && s[0] == '-' {
        1int
    } else {
        0int
    };
    let b = digit_run(s, a);
    let has_fraction = b < s.len() && s[b] == '.';
    let c = if has_fraction {
        digit_run(s, b + 1)
    } else {
        b
    };
    let fraction = if has_fraction {
        s.subrange(b + 1, c)
    } else {
        Seq::empty()
    };
    if b == a || (b - a > 1 && s[a] == '0') || (has_fraction && c == b + 1) {
        None
    } else if c == s.len() {
        Some(NumberParts { negative: a == 1, whole: s.subrange(a, b), fraction, exponent: 0 })
    } else if s[c] == 'e' || s[c] == 'E' {
        let signed = c + 1 < s.len() && (s[c + 1] == '-' || s[c + 1] == '+');
        let d = if signed {
            c + 2
        } else {
            c + 1
        };
        let e = digit_run(s, d);
        if e == d || e != s.len() {
            None
        } else {
            let size = digits_value(s.subrange(d, e)) as int;
            Some(
                NumberParts {
                    negative: a == 1,
                    whole: s.subrange(a, b),
                    fraction,
                    exponent: if signed && s[c + 1] == '-' {
                        -size
                    } else {
                        size
                    },
                },
            )
        }
    } else {
        None
    }
}

/// The magnitude of the number written with the digits `all` and the decimal
/// point behind the first `point` of them, where it is an integer: the
/// digits before the point, filled up with zeros where the point lies
/// behind the last digit. It is no integer where a digit other than `0`
/// stands behind the point.
pub open spec fn magnitude_at(all: Seq<char>, point: int) -> Option<nat> {
    if point >= all.len() {
        Some(digits_value(all + zeros((point - all.len()) as nat)))
    } else {
        let cut = if point < 0 {
            0
        } else {
            point
        };
        if all_zeros(all.skip(cut)) {
            Some(digits_value(all.take(cut)))
        } else {
            None
        }
    }
}

/// The integer that a JSON number literal denotes, where it denotes one
/// that fits 64 bits with a sign.
pub open spec fn integer_of_literal(s: Seq<char>) -> Option<i64> {
    match number_parts(s) {
        None => None,
        Some(p) => match magnitude_at(p.whole + p.fraction, p.whole.len() + p.exponent) {
            None => None,
            Some(m) => {
                let v = if p.negative {
                    -(m as int)
                } else {
                    m as int
                };
                if i64::MIN <= v <= i64::MAX {
                    Some(v as i64)
                } else {
                    None
                }
            },
        },
    }
}

/// One more digit: ten times the number so far, plus the digit.
pub proof fn lemma_digits_step(s: Seq<char>, i: int)
    requires
        0 <= i < s.len(),
    ensures
        digits_value(s.take(i + 1)) == digits_value(s.take(i)) * 10 + digit_value(s[i]),
{
    assert(s.take(i + 1).drop_last() =~= s.take(i));
    assert(s.take(i + 1).last() == s[i]);
}

/// Digits that follow never make the number smaller.
pub proof fn lemma_digits_prefix(x: Seq<char>, y: Seq<char>)
    ensures
        digits_value(x) <= digits_value(x + y),
    decreases y.len(),
{
    if y.len() == 0 {
        assert(x + y =~= x);
    } else {
        assert((x + y).drop_last() =~= x + y.drop_last());
        lemma_digits_prefix(x, y.drop_last());
    }
}

/// One more zero at the end makes the number ten times as large.
pub proof fn lemma_zeros_step(x: Seq<char>, j: nat)
    ensures
        digits_value(x + zeros(j + 1)) == digits_value(x + zeros(j)) * 10,
{
    assert((x + zeros(j + 1)).drop_last() =~= x + zeros(j));
    assert((x + zeros(j + 1)).last() == '0');
}

/// Zeros behind digits that denote 0 denote 0.
pub proof fn lemma_zero_stays(x: Seq<char>, z: nat)
    requires
        digits_value(x) == 0,
    ensures
        digits_value(x + zeros(z)) == 0,
    decreases z,
{
    if z == 0 {
        assert(x + zeros(0) =~= x);
    } else {
        lemma_zero_stays(x, (z - 1) as nat);
        lemma_zeros_step(x, (z - 1) as nat);
    }
}

/// More zeros at the end never make the number smaller.
pub proof fn lemma_zeros_grow(x: Seq<char>, j: nat, z: nat)
    requires
        j <= z,
    ensures
        digits_value(x + zeros(j)) <= digits_value(x + zeros(z)),
{
    assert(x + zeros(z) =~= (x + zeros(j)) + zeros((z - j) as nat));
    lemma_digits_prefix(x + zeros(j), zeros((z - j) as nat));
}

/// A run of digits up to the end of the text ends at the end.
pub proof fn lemma_digit_run_all(s: Seq<char>, from: int)
    requires
        0 <= from <= s.len(),
        forall|i: int| from <= i < s.len() ==> is_digit(s[i]),
    ensures
        digit_run(s, from) == s.len(),
    decreases s.len() - from,
{
    if from < s.len() {
        lemma_digit_run_all(s, from + 1);
    }
}

/// The digits of a number are digits, begin with `0` only for a number
/// below ten, and denote that number.
pub proof fn lemma_digits_text(n: nat)
    ensures
        digits_text(n).len() >= 1,
        forall|i: int| 0 <= i < digits_text(n).len() ==> is_digit(#[trigger] digits_text(n)[i]),
        digits_text(n).len() > 1 ==> digits_text(n)[0] != '0',
        digits_value(digits_text(n)) == n,
    decreases n,
{
    let s = digits_text(n);
    if n < 10 {
        assert(s.drop_last() =~= Seq::<char>::empty());
        assert(digits_value(s.drop_last()) == 0);
        assert(s.last() == digit_char(n));
    } else {
        let head = digits_text(n / 10);
        lemma_digits_text(n / 10);
        assert(s.drop_last() =~= head);
        assert(s.last() == digit_char(n % 10));
        assert(s[0] == head[0]);
        if head.len() == 1 {
            assert(head.drop_last() =~= Seq::<char>::empty());
            assert(digits_value(head.drop_last()) == 0);
            assert(head.last() == head[0]);
            assert(digits_value(head) == digit_value(head[0]));
        }
        assert forall|i: int| 0 <= i < s.len() implies is_digit(#[trigger] s[i]) by {
            if i < head.len() {
                assert(s[i] == head[i]);
            }
        }
    }
}

/// Reading the decimal literal of an integer gives the integer back.
pub proof fn lemma_decimal_round_trip(i: i64)
    ensures
        integer_of_literal(decimal_text(i as int)) == Some(i),
{
    let s = decimal_text(i as int);
    let m: nat = if i < 0 {
        (-i) as nat
    } else {
        i as nat
    };
    let digits = digits_text(m);
    lemma_digits_text(m);
    let a: int = if i < 0 {
        1
    } else {
        0
    };
    assert(is_digit(digits[0]));
    assert(s.len() == a + digits.len());
    assert forall|k: int| a <= k < s.len() implies is_digit(s[k]) by {
        assert(s[k] == digits[k - a]);
    }
    assert(s[0] == '-' <==> i < 0);
    lemma_digit_run_all(s, a);
    assert(s.subrange(a, s.len() as int) =~= digits);
    let p = number_parts(s)->0;
    assert(number_parts(s) is Some);
    assert(p.whole == digits);
    assert(p.fraction =~= Seq::<char>::empty());
    assert(p.whole + p.fraction =~= digits);
    assert(digits + zeros(0) =~= digits);
}

/// The value of the digit `c`.
pub(crate) fn digit_of(c: char) -> (r: u64)
    requires
        is_digit(c),
    ensures
        r == digit_value(c),
        r <= 9,
{
    if c == '1' {
        1
    } else if c == '2' {
        2
    } else if c == '3' {
        3
    } else if c == '4' {
        4
    } else if c == '5' {
        5
    } else if c == '6' {
        6
    } else if c == '7' {
        7
    } else if c == '8' {
        8
    } else if c == '9' {
        9
    } else {
        0
    }
}

fn digit_str(d: u64) -> (r: &'static str)
    requires
        d <= 9,
    ensures
        r@ == seq![digit_char(d as nat)],
{
    proof {
        reveal_strlit("0");
        reveal_strlit("1");
        reveal_strlit("2");
        reveal_strlit("3");
        reveal_strlit("4");
        reveal_strlit("5");
        reveal_strlit("6");
        reveal_strlit("7");
        reveal_strlit("8");
        reveal_strlit("9");
    }
    let r = if d == 1 {
        "1"
    } else if d == 2 {
        "2"
    } else if d == 3 {
        "3"
    } else if d == 4 {
        "4"
    } else if d == 5 {
        "5"
    } else if d == 6 {
        "6"
    } else if d == 7 {
        "7"
    } else if d == 8 {
        "8"
    } else if d == 9 {
        "9"
    } else {
        "0"
    };
    assert(r@ =~= seq![digit_char(d as nat)]);
    r
}

fn append_digits(out: &mut String, n: u64)
    ensures
        final(out)@ == old(out)@ + digits_text(n as nat),
    decreases n,
{
    if n >= 10 {
        append_digits(out, n / 10);
    }
    out.append(digit_str(n % 10));
    assert(out@ =~= old(out)@ + digits_text(n as nat));
}

/// The decimal literal of `i`.
pub fn decimal_of(i: i64) -> (r: String)
    ensures
        r@ == decimal_text(i as int),
{
    let mut out = String::new();
    if i < 0 {
        proof {
            reveal_strlit("-");
        }
        out.append("-");
        assert(out@ =~= seq!['-']);
        let m: u64 = ((-(i + 1)) as u64) + 1;
        append_digits(&mut out, m);
    } else {
        append_digits(&mut out, i as u64);
        assert(out@ =~= digits_text(i as nat));
    }
    out
}

/// The end of the run of digits of `s` that starts at `from`.
pub(crate) fn scan_digits(s: &Vec<char>, from: usize) -> (end: usize)
    requires
        from <= s@.len(),
    ensures
        end == digit_run(s@, from as int),
        from <= end <= s@.len(),
        forall|i: int| from <= i < end ==> is_digit(s@[i]),
{
    let n: usize = s.len();
    let mut i: usize = from;
    while i < n && '0' <= s[i] && s[i] <= '9'
        invariant
            n == s@.len(),
            from <= i <= n,
            digit_run(s@, from as int) == digit_run(s@, i as int),
            forall|j: int| from <= j < i ==> is_digit(s@[j]),
        decreases n - i,
    {
        i += 1;
    }
    i
}

/// The value of the digits `s[from..to]`, exact below the cap.
fn capped_value(s: &Vec<char>, from: usize, to: usize) -> (r: u128)
    requires
        from <= to <= s@.len(),
        forall|i: int| from <= i < to ==> is_digit(s@[i]),
    ensures
        r <= digits_value(s@.subrange(from as int, to as int)),
        r < EXPONENT_CAP ==> r == digits_value(s@.subrange(from as int, to as int)),
        r <= EXPONENT_CAP * 10 + 9,
{
    let ghost run = s@.subrange(from as int, to as int);
    let mut acc: u128 = 0;
    let mut i: usize = from;
    assert(run.take(0) =~= Seq::<char>::empty());
    while i < to
        invariant
            from <= i <= to <= s@.len(),
            run == s@.subrange(from as int, to as int),
            forall|j: int| from <= j < to ==> is_digit(s@[j]),
            acc <= digits_value(run.take(i - from)),
            acc < EXPONENT_CAP ==> acc == digits_value(run.take(i - from)),
            acc <= EXPONENT_CAP * 10 + 9,
        decreases to - i,
    {
        proof {
            lemma_digits_step(run, i - from);
        }
        if acc < EXPONENT_CAP {
            acc = acc * 10 + digit_of(s[i]) as u128;
        }
        i += 1;
    }
    assert(run.take(to - from) =~= run);
    acc
}

fn copy_range(out: &mut Vec<char>, s: &Vec<char>, from: usize, to: usize)
    requires
        from <= to <= s@.len(),
    ensures
        final(out)@ == old(out)@ + s@.subrange(from as int, to as int),
{
    let mut i: usize = from;
    while i < to
        invariant
            from <= i <= to <= s@.len(),
            out@ == old(out)@ + s@.subrange(from as int, i as int),
        decreases to - i,
    {
        out.push(s[i]);
        assert(s@.subrange(from as int, i + 1) =~= s@.subrange(from as int, i as int).push(
            s@[i as int],
        ));
        i += 1;
    }
}

/// The magnitude of the number with the digits `all`, of which `whole` stand
/// before the point, and the given exponent, where it is an integer of at
/// most 2^63.
fn magnitude_of(
    all: &Vec<char>,
    whole: usize,
    exponent_negative: bool,
    exponent_size: u128,
    Ghost(exponent): Ghost<int>,
) -> (r: Option<u64>)
    requires
        whole <= all@.len(),
        forall|i: int| 0 <= i < all@.len() ==> is_digit(all@[i]),
        exponent_negative ==> exponent <= 0,
        !exponent_negative ==> exponent >= 0,
        exponent_size <= if exponent_negative {
            -exponent
        } else {
            exponent
        },
        exponent_size < EXPONENT_CAP ==> exponent_size == if exponent_negative {
            -exponent
        } else {
            exponent
        },
        exponent_size <= EXPONENT_CAP * 10 + 9,
    ensures
        match magnitude_at(all@, whole + exponent) {
            None => r is None,
            Some(m) => if m <= MAGNITUDE_LIMIT {
                r == Some(m as u64)
            } else {
                r is None
            },
        },
        r matches Some(m) ==> m <= MAGNITUDE_LIMIT,
{
    let n: usize = all.len();
    let ghost point: int = whole + exponent;
    let cut: usize;
    let fill: u128;
    if exponent_negative {
        fill = 0;
        if exponent_size >= whole as u128 {
            cut = 0;
        } else {
            cut = whole - exponent_size as usize;
        }
    } else {
        let place: u128 = whole as u128 + exponent_size;
        if place >= n as u128 {
            cut = n;
            fill = place - n as u128;
        } else {
            cut = place as usize;
            fill = 0;
        }
    }
    assert(n < EXPONENT_CAP);
    assert(point >= n ==> cut == n && fill <= point - n);
    assert(point < n ==> fill == 0 && cut == if point < 0 {
        0
    } else {
        point
    });
    assert(fill == 0 ==> point <= n);
    let mut i: usize = cut;
    while i < n
        invariant
            n == all@.len(),
            cut <= i <= n,
            forall|j: int| cut <= j < i ==> all@[j] == '0',
            point == whole + exponent,
            point >= n ==> cut == n,
            point < n ==> cut == if point < 0 {
                0
            } else {
                point
            },
        decreases n - i,
    {
        if all[i] != '0' {
            proof {
                assert(all@.skip(cut as int)[i - cut] == all@[i as int]);
                assert(!all_zeros(all@.skip(cut as int)));
            }
            return None;
        }
        i += 1;
    }
    assert(all_zeros(all@.skip(cut as int)));
    let mut acc: u64 = 0;
    let mut k: usize = 0;
    assert(all@.take(0) =~= Seq::<char>::empty());
    while k < cut
        invariant
            n == all@.len(),
            k <= cut <= n,
            forall|j: int| 0 <= j < all@.len() ==> is_digit(all@[j]),
            acc == digits_value(all@.take(k as int)),
            acc <= MAGNITUDE_LIMIT,
            point == whole + exponent,
            point >= n ==> cut == n,
            point < n ==> cut == if point < 0 {
                0
            } else {
                point
            },
            fill == 0 ==> point <= n,
            all_zeros(all@.skip(cut as int)),
        decreases cut - k,
    {
        let d = digit_of(all[k]);
        proof {
            lemma_digits_step(all@, k as int);
        }
        let next: u128 = acc as u128 * 10 + d as u128;
        if next > MAGNITUDE_LIMIT as u128 {
            proof {
                let rest = all@.subrange(k + 1, cut as int);
                assert(all@.take(cut as int) =~= all@.take(k + 1) + rest);
                lemma_digits_prefix(all@.take(k + 1), rest);
                if point >= n {
                    assert(all@.take(cut as int) =~= all@);
                    lemma_digits_prefix(all@, zeros((point - n) as nat));
                }
            }
            return None;
        }
        acc = next as u64;
        k += 1;
    }
    if fill == 0 {
        proof {
            if point >= n {
                assert(all@.take(cut as int) =~= all@);
                assert(all@ + zeros(0) =~= all@);
            }
        }
        return Some(acc);
    }
    assert(point >= n);
    assert(all@.take(cut as int) =~= all@);
    if acc == 0 {
        proof {
            lemma_zero_stays(all@, (point - n) as nat);
        }
        return Some(0);
    }
    let mut j: u128 = 0;
    assert(all@ + zeros(0) =~= all@);
    while j < fill
        invariant
            n == all@.len(),
            j <= fill <= point - n,
            point == whole + exponent,
            point >= n,
            acc == digits_value(all@ + zeros(j as nat)),
            acc >= j + 1,
            acc <= MAGNITUDE_LIMIT,
        decreases fill - j,
    {
        proof {
            lemma_zeros_step(all@, j as nat);
        }
        let next: u128 = acc as u128 * 10;
        if next > MAGNITUDE_LIMIT as u128 {
            proof {
                lemma_zeros_grow(all@, (j + 1) as nat, (point - n) as nat);
            }
            return None;
        }
        acc = next as u64;
        j += 1;
    }
    assert(exponent_size < EXPONENT_CAP);
    Some(acc)
}

/// Where the parts of a literal stand in it.
struct Split {
    negative: bool,
    whole_from: usize,
    whole_to: usize,
    fraction_from: usize,
    fraction_to: usize,
    exponent_negative: bool,
    exponent_size: u128,
}

/// How a split of `s` relates to the parts of `s` as a literal.
spec fn split_of(s: Seq<char>, x: Split, p: NumberParts) -> bool {
    &&& x.whole_from <= x.whole_to <= s.len()
    &&& x.fraction_from <= x.fraction_to <= s.len()
    &&& p.negative == x.negative
    &&& p.whole == s.subrange(x.whole_from as int, x.whole_to as int)
    &&& p.fraction == s.subrange(x.fraction_from as int, x.fraction_to as int)
    &&& forall|i: int| x.whole_from <= i < x.whole_to ==> is_digit(s[i])
    &&& forall|i: int| x.fraction_from <= i < x.fraction_to ==> is_digit(s[i])
    &&& x.exponent_negative ==> p.exponent <= 0
    &&& !x.exponent_negative ==> p.exponent >= 0
    &&& x.exponent_size <= if x.exponent_negative {
        -p.exponent
    } else {
        p.exponent
    }
    &&& x.exponent_size < EXPONENT_CAP ==> x.exponent_size == if x.exponent_negative {
        -p.exponent
    } else {
        p.exponent
    }
    &&& x.exponent_size <= EXPONENT_CAP * 10 + 9
}

/// Splits a literal into its parts.
fn split(s: &Vec<char>) -> (r: Option<Split>)
    ensures
        r is Some == number_parts(s@) is Some,
        r matches Some(x) ==> split_of(s@, x, number_parts(s@)->0),
{
    let n: usize = s.len();
    let a: usize = if n > 0 && s[0] == '-' {
        1
    } else {
        0
    };
    let b = scan_digits(s, a);
    if b == a || (b - a > 1 && s[a] == '0') {
        return None;
    }
    let has_fraction = b < n && s[b] == '.';
    let c = if has_fraction {
        scan_digits(s, b + 1)
    } else {
        b
    };
    if has_fraction && c == b + 1 {
        return None;
    }
    let fraction_from: usize = if has_fraction {
        b + 1
    } else {
        c
    };
    assert(s@.subrange(c as int, c as int) =~= Seq::<char>::empty());
    if c == n {
        return Some(
            Split {
                negative: a == 1,
                whole_from: a,
                whole_to: b,
                fraction_from,
                fraction_to: c,
                exponent_negative: false,
                exponent_size: 0,
            },
        );
    }
    if !(s[c] == 'e' || s[c] == 'E') {
        return None;
    }
    let signed = c + 1 < n && (s[c + 1] == '-' || s[c + 1] == '+');
    let d: usize = if signed {
        c + 2
    } else {
        c + 1
    };
    let e = scan_digits(s, d);
    if e == d || e != n {
        return None;
    }
    let exponent_negative = signed && s[c + 1] == '-';
    let exponent_size = capped_value(s, d, e);
    Some(
        Split {
            negative: a == 1,
            whole_from: a,
            whole_to: b,
            fraction_from,
            fraction_to: c,
            exponent_negative,
            exponent_size,
        },
    )
}

/// The integer that the JSON number literal `literal` denotes, where it
/// denotes one that fits `i64`.
pub fn integer_of(literal: &str) -> (r: Option<i64>)
    ensures
        r == integer_of_literal(literal@),
{
    let s = chars_of(literal);
    let x = match split(&s) {
        Some(x) => x,
        None => {
            return None;
        },
    };
    let ghost p = number_parts(s@)->0;
    let mut all: Vec<char> = Vec::new();
    copy_range(&mut all, &s, x.whole_from, x.whole_to);
    copy_range(&mut all, &s, x.fraction_from, x.fraction_to);
    let whole: usize = x.whole_to - x.whole_from;
    proof {
        assert(all@ =~= p.whole + p.fraction);
        assert(p.whole.len() == whole);
        assert forall|i: int| 0 <= i < all@.len() implies is_digit(all@[i]) by {
            if i < whole {
                assert(all@[i] == s@[x.whole_from + i]);
            } else {
                assert(all@[i] == s@[x.fraction_from + (i - whole)]);
            }
        }
    }
    let magnitude = magnitude_of(
        &all,
        whole,
        x.exponent_negative,
        x.exponent_size,
        Ghost(p.exponent),
    );
    signed_value(x.negative, magnitude)
}

/// The integer of a sign and a magnitude of at most 2^63, where it fits.
fn signed_value(negative: bool, magnitude: Option<u64>) -> (r: Option<i64>)
    requires
        magnitude matches Some(m) ==> m <= MAGNITUDE_LIMIT,
    ensures
        r == match magnitude {
            None => None::<i64>,
            Some(m) => {
                let v = if negative {
                    -(m as int)
                } else {
                    m as int
                };
                if i64::MIN <= v <= i64::MAX {
                    Some(v as i64)
                } else {
                    None
                }
            },
        },
{
    match magnitude {
        None => None,
        Some(m) => {
            if negative {
                if m == MAGNITUDE_LIMIT {
                    Some(i64::MIN)
                } else {
                    Some(-(m as i64))
                }
            } else if m == MAGNITUDE_LIMIT {
                None
            } else {
                Some(m as i64)
            }
        },
    }
}

} // verus!
