//! The mathematical model of an ordered mapping from names to values:
//! a sequence of `(name, value)` pairs in which no name occurs twice.

use vstd::prelude::*;

verus! {

/// Some entry of `entries` is named `key`.
pub open spec fn has_key<V>(entries: Seq<(Seq<char>, V)>, key: Seq<char>) -> bool {
    exists|i: int| 0 <= i < entries.len() && (#[trigger] entries[i]).0 == key
}

/// The place of an entry named `key`, where there is one.
pub open spec fn index_of<V>(entries: Seq<(Seq<char>, V)>, key: Seq<char>) -> int {
    choose|i: int| 0 <= i < entries.len() && (#[trigger] entries[i]).0 == key
}

/// The value stored under `key`, if any.
pub open spec fn lookup<V>(entries: Seq<(Seq<char>, V)>, key: Seq<char>) -> Option<V> {
    if has_key(entries, key) {
        Some(entries[index_of(entries, key)].1)
    } else {
        None
    }
}

/// No name occurs twice.
pub open spec fn keys_distinct<V>(entries: Seq<(Seq<char>, V)>) -> bool {
    forall|i: int, j: int|
        0 <= i < j < entries.len() ==> (#[trigger] entries[i]).0 != (#[trigger] entries[j]).0
}

/// `entries` with `value` stored under `key`: in place where the name is
/// already there, else at the end.
pub open spec fn upsert<V>(entries: Seq<(Seq<char>, V)>, key: Seq<char>, value: V) -> Seq<
    (Seq<char>, V),
> {
    if has_key(entries, key) {
        entries.update(index_of(entries, key), (key, value))
    } else {
        entries.push((key, value))
    }
}

/// In a mapping with distinct names, the entry at place `i` is the one that
/// its name finds.
pub proof fn lemma_lookup_at<V>(entries: Seq<(Seq<char>, V)>, i: int)
    requires
        keys_distinct(entries),
        0 <= i < entries.len(),
    ensures
        has_key(entries, entries[i].0),
        index_of(entries, entries[i].0) == i,
        lookup(entries, entries[i].0) == Some(entries[i].1),
{
    let key = entries[i].0;
    assert(has_key(entries, key));
    let j = index_of(entries, key);
    assert(0 <= j < entries.len() && entries[j].0 == key);
    if j < i {
        assert(entries[j].0 != entries[i].0);
    } else if i < j {
        assert(entries[i].0 != entries[j].0);
    }
}

/// Storing under a name keeps the names distinct, and the name then finds
/// the stored value; every other name finds what it found before.
pub proof fn lemma_upsert<V>(entries: Seq<(Seq<char>, V)>, key: Seq<char>, value: V)
    requires
        keys_distinct(entries),
    ensures
        keys_distinct(upsert(entries, key, value)),
        lookup(upsert(entries, key, value), key) == Some(value),
        forall|other: Seq<char>|
            other != key ==> lookup(upsert(entries, key, value), other) == lookup(entries, other),
{
    let after = upsert(entries, key, value);
    if has_key(entries, key) {
        let at = index_of(entries, key);
        assert forall|i: int, j: int| 0 <= i < j < after.len() implies (#[trigger] after[i]).0 != (
        #[trigger] after[j]).0 by {
            assert(after[i].0 == entries[i].0);
            assert(after[j].0 == entries[j].0);
        }
        assert(after[at] == (key, value));
        lemma_lookup_at(after, at);
        assert forall|other: Seq<char>| other != key implies lookup(after, other) == lookup(
            entries,
            other,
        ) by {
            lemma_same_names_same_lookup(entries, after, other, at);
        }
    } else {
        assert forall|i: int, j: int| 0 <= i < j < after.len() implies (#[trigger] after[i]).0 != (
        #[trigger] after[j]).0 by {
            if j < entries.len() {
                assert(after[i].0 == entries[i].0);
                assert(after[j].0 == entries[j].0);
            } else {
                assert(after[i] == entries[i]);
                assert(after[j].0 == key);
            }
        }
        let at = entries.len() as int;
        assert(after[at] == (key, value));
        lemma_lookup_at(after, at);
        assert forall|other: Seq<char>| other != key implies lookup(after, other) == lookup(
            entries,
            other,
        ) by {
            if has_key(entries, other) {
                let i = index_of(entries, other);
                assert(after[i] == entries[i]);
                lemma_lookup_at(entries, i);
                lemma_lookup_at(after, i);
            } else {
                if has_key(after, other) {
                    let i = index_of(after, other);
                    if i < entries.len() {
                        assert(entries[i] == after[i]);
                    }
                }
            }
        }
    }
}

/// Replacing the value at one place changes no lookup under another name.
proof fn lemma_same_names_same_lookup<V>(
    before: Seq<(Seq<char>, V)>,
    after: Seq<(Seq<char>, V)>,
    other: Seq<char>,
    at: int,
)
    requires
        keys_distinct(before),
        keys_distinct(after),
        0 <= at < before.len(),
        after.len() == before.len(),
        before[at].0 != other,
        after[at].0 != other,
        forall|i: int| 0 <= i < before.len() && i != at ==> after[i] == before[i],
    ensures
        lookup(after, other) == lookup(before, other),
{
    if has_key(before, other) {
        let i = index_of(before, other);
        assert(after[i] == before[i]);
        lemma_lookup_at(before, i);
        lemma_lookup_at(after, i);
    } else {
        if has_key(after, other) {
            let i = index_of(after, other);
            assert(before[i] == after[i]);
        }
    }
}

/// A name that no entry carries finds nothing.
pub proof fn lemma_lookup_absent<V>(entries: Seq<(Seq<char>, V)>, key: Seq<char>)
    requires
        forall|i: int| 0 <= i < entries.len() ==> (#[trigger] entries[i]).0 != key,
    ensures
        !has_key(entries, key),
        lookup(entries, key) is None,
{
}

/// A name is in a concatenation exactly when it is in one of the two parts.
pub proof fn lemma_has_key_concat<V>(a: Seq<(Seq<char>, V)>, b: Seq<(Seq<char>, V)>)
    ensures
        forall|q: Seq<char>| #[trigger] has_key(a + b, q) <==> has_key(a, q) || has_key(b, q),
{
    assert forall|q: Seq<char>| #[trigger] has_key(a + b, q) <==> has_key(a, q) || has_key(
        b,
        q,
    ) by {
        if has_key(a + b, q) {
            let i = index_of(a + b, q);
            if i < a.len() {
                assert(a[i] == (a + b)[i]);
            } else {
                assert(b[i - a.len()] == (a + b)[i]);
            }
        }
        if has_key(a, q) {
            let i = index_of(a, q);
            assert((a + b)[i] == a[i]);
        }
        if has_key(b, q) {
            let i = index_of(b, q);
            assert((a + b)[a.len() + i] == b[i]);
        }
    }
}

/// Two mappings with distinct names that share no name stay distinct when
/// one follows the other.
pub proof fn lemma_distinct_concat<V>(a: Seq<(Seq<char>, V)>, b: Seq<(Seq<char>, V)>)
    requires
        keys_distinct(a),
        keys_distinct(b),
        forall|q: Seq<char>| !(has_key(a, q) && has_key(b, q)),
    ensures
        keys_distinct(a + b),
{
    let c = a + b;
    assert forall|i: int, j: int| 0 <= i < j < c.len() implies (#[trigger] c[i]).0 != (
    #[trigger] c[j]).0 by {
        if j < a.len() {
            assert(c[i] == a[i] && c[j] == a[j]);
        } else if i >= a.len() {
            assert(c[i] == b[i - a.len()] && c[j] == b[j - a.len()]);
        } else {
            assert(c[i] == a[i] && c[j] == b[j - a.len()]);
            assert(has_key(a, a[i].0));
            assert(has_key(b, b[j - a.len()].0));
        }
    }
}

/// In a concatenation with distinct names, a name finds what it finds in
/// the part that holds it.
pub proof fn lemma_lookup_concat<V>(a: Seq<(Seq<char>, V)>, b: Seq<(Seq<char>, V)>)
    requires
        keys_distinct(a + b),
    ensures
        forall|q: Seq<char>| #[trigger]
            lookup(a + b, q) == if has_key(a, q) {
                lookup(a, q)
            } else {
                lookup(b, q)
            },
{
    let c = a + b;
    lemma_has_key_concat(a, b);
    lemma_distinct_parts(a, b);
    assert forall|q: Seq<char>| #[trigger]
        lookup(c, q) == if has_key(a, q) {
            lookup(a, q)
        } else {
            lookup(b, q)
        } by {
        if has_key(a, q) {
            let i = index_of(a, q);
            assert(c[i] == a[i]);
            lemma_lookup_at(a, i);
            lemma_lookup_at(c, i);
        } else if has_key(b, q) {
            let i = index_of(b, q);
            assert(c[a.len() + i] == b[i]);
            lemma_lookup_at(b, i);
            lemma_lookup_at(c, a.len() + i);
        }
    }
}

/// The parts of a concatenation with distinct names have distinct names.
pub proof fn lemma_distinct_parts<V>(a: Seq<(Seq<char>, V)>, b: Seq<(Seq<char>, V)>)
    requires
        keys_distinct(a + b),
    ensures
        keys_distinct(a),
        keys_distinct(b),
        forall|q: Seq<char>| !(has_key(a, q) && has_key(b, q)),
{
    let c = a + b;
    assert forall|i: int, j: int| 0 <= i < j < a.len() implies (#[trigger] a[i]).0 != (
    #[trigger] a[j]).0 by {
        assert(c[i] == a[i] && c[j] == a[j]);
    }
    assert forall|i: int, j: int| 0 <= i < j < b.len() implies (#[trigger] b[i]).0 != (
    #[trigger] b[j]).0 by {
        assert(c[a.len() + i] == b[i] && c[a.len() + j] == b[j]);
    }
    assert forall|q: Seq<char>| !(has_key(a, q) && has_key(b, q)) by {
        if has_key(a, q) && has_key(b, q) {
            let i = index_of(a, q);
            let j = index_of(b, q);
            assert(c[i] == a[i] && c[a.len() + j] == b[j]);
        }
    }
}

} // verus!
