//! The calls into `base64`, `url`, `serde_json` and the UTF-8 check of the
//! standard library.
//!
//! [`parse_json`] and [`render_json`] are proved from the other functions
//! of this file. The contracts of those others are taken on trust: each
//! states what the called function is documented to do, or gives its result
//! a name.

use crate::json::{JsonModel, JsonObject, JsonValue};
use vstd::prelude::*;
use vstd::utf8::{decode_utf8, valid_utf8};

verus! {

/// How a text reads as a URI reference.
#[derive(Debug, Clone, Copy, PartialEq, Eq, Structural)]
pub enum UrlSyntax {
    /// An absolute URL: it has a scheme and parses.
    Absolute,
    /// No scheme: a reference relative to some base.
    Relative,
    /// A scheme, but what follows it does not parse.
    Malformed,
}

/// A parsed JSON document of `serde_json`.
#[verifier::external_type_specification]
#[verifier::external_body]
pub struct ExSerdeValue(serde_json::Value);

/// The standard base64 text (with padding) of `bytes`.
pub uninterp spec fn base64_text(bytes: Seq<u8>) -> Seq<char>;

/// The bytes that `text` stands for in standard base64 with canonical
/// padding, where it is such a text.
pub uninterp spec fn base64_bytes(text: Seq<char>) -> Option<Seq<u8>>;

/// How `url::Url::parse` reads `text`.
pub uninterp spec fn url_syntax(text: Seq<char>) -> UrlSyntax;

/// The value that `serde_json` reads from the JSON text `text`, where it is
/// one.
pub uninterp spec fn parsed_json(text: Seq<char>) -> Option<JsonModel>;

/// What a `serde_json::Value` holds.
pub uninterp spec fn serde_tree(tree: serde_json::Value) -> JsonModel;

/// What the tree holds that is made of a JSON value for `serde_json`,
/// where one can be made: every number literal has to be one that
/// `serde_json` reads.
pub uninterp spec fn serde_form(value: JsonModel) -> Option<JsonModel>;

/// The JSON text that `serde_json` writes for a tree that holds `tree`.
pub uninterp spec fn rendered_json(tree: JsonModel) -> Seq<char>;

/// `base64::Engine::encode` on the `STANDARD` engine. The result is named
/// [`base64_text`]; decoding it with the same engine gives the bytes back.
/// The call fails only where the encoded length overflows `usize`, which no
/// slice is long enough for.
#[verifier::external_body]
pub(crate) fn base64_encode(bytes: &[u8]) -> (r: String)
    ensures
        r@ == base64_text(bytes@),
        base64_bytes(r@) == Some(bytes@),
{
    base64::Engine::encode(&base64::engine::general_purpose::STANDARD, bytes)
}

/// `base64::Engine::decode` on the `STANDARD` engine, which accepts the
/// standard alphabet with canonical padding. The result is named
/// [`base64_bytes`]; every decoding error becomes `None`.
#[verifier::external_body]
pub(crate) fn base64_decode(text: &str) -> (r: Option<Vec<u8>>)
    ensures
        r is Some == base64_bytes(text@) is Some,
        r matches Some(bytes) ==> base64_bytes(text@) == Some(bytes@),
{
    base64::Engine::decode(&base64::engine::general_purpose::STANDARD, text).ok()
}

/// `url::Url::parse`. Success is `Absolute`; the error
/// `RelativeUrlWithoutBase`, which the parser gives where it finds no
/// scheme, is `Relative`; every other error is `Malformed`. The result is
/// named [`url_syntax`].
#[verifier::external_body]
pub(crate) fn parse_url_syntax(text: &str) -> (r: UrlSyntax)
    ensures
        r == url_syntax(text@),
{
    match url::Url::parse(text) {
        Ok(_) => UrlSyntax::Absolute,
        Err(url::ParseError::RelativeUrlWithoutBase) => UrlSyntax::Relative,
        Err(_) => UrlSyntax::Malformed,
    }
}

/// `serde_json::from_str` at the type `serde_json::Value`. It succeeds
/// exactly where [`parsed_json`] has a value, which is then what the tree
/// holds.
#[verifier::external_body]
pub(crate) fn serde_parse(text: &str) -> (r: Option<serde_json::Value>)
    ensures
        r is Some == parsed_json(text@) is Some,
        r matches Some(tree) ==> parsed_json(text@) == Some(serde_tree(tree)),
{
    serde_json::from_str::<serde_json::Value>(text).ok()
}

/// The contents of a `serde_json::Value` as a [`JsonValue`], variant by
/// variant; a number is taken as the text that `serde_json` prints for it,
/// and the members of an object in the order in which its map hands them
/// out.
#[verifier::external_body]
pub(crate) fn json_of_serde(tree: &serde_json::Value) -> (r: JsonValue)
    ensures
        r@ == serde_tree(*tree),
{
    match tree {
        serde_json::Value::Null => JsonValue::Null,
        serde_json::Value::Bool(b) => JsonValue::Bool(*b),
        serde_json::Value::Number(n) => JsonValue::Number(n.to_string()),
        serde_json::Value::String(s) => JsonValue::String(s.clone()),
        serde_json::Value::Array(a) => JsonValue::Array(a.iter().map(json_of_serde).collect()),
        serde_json::Value::Object(m) => JsonValue::Object(
            JsonObject::from_distinct(m.iter().map(|(k, v)| (k.clone(), json_of_serde(v))).collect()),
        ),
    }
}

/// A [`JsonValue`] as a `serde_json::Value`, variant by variant; a number
/// literal is read by `serde_json::Number::from_str`, and where that fails
/// for a number of the value there is no tree. What the tree holds is named
/// [`serde_form`].
#[verifier::external_body]
pub(crate) fn serde_of_json(value: &JsonValue) -> (r: Option<serde_json::Value>)
    ensures
        r is Some == serde_form(value@) is Some,
        r matches Some(tree) ==> serde_form(value@) == Some(serde_tree(tree)),
{
    Some(match value {
        JsonValue::Null => serde_json::Value::Null,
        JsonValue::Bool(b) => serde_json::Value::Bool(*b),
        JsonValue::Number(n) => serde_json::Value::Number(n.parse().ok()?),
        JsonValue::String(s) => serde_json::Value::String(s.clone()),
        JsonValue::Array(a) => serde_json::Value::Array(
            a.iter().map(serde_of_json).collect::<Option<_>>()?,
        ),
        JsonValue::Object(o) => serde_json::Value::Object(
            o.members().iter().map(|m| Some((m.0.clone(), serde_of_json(&m.1)?))).collect::<Option<_>>()?,
        ),
    })
}

/// `serde_json::to_string` on a tree, which does not fail for a tree. The
/// result is named [`rendered_json`].
#[verifier::external_body]
pub(crate) fn serde_render(tree: &serde_json::Value) -> (r: String)
    ensures
        r@ == rendered_json(serde_tree(*tree)),
{
    serde_json::to_string(tree).unwrap_or_default()
}

/// `core::str::from_utf8`: the text of `bytes` where they are valid UTF-8.
#[verifier::external_body]
pub(crate) fn utf8_text(bytes: &[u8]) -> (r: Option<&str>)
    ensures
        r is Some == valid_utf8(bytes@),
        r matches Some(text) ==> text@ == decode_utf8(bytes@),
{
    core::str::from_utf8(bytes).ok()
}

/// The JSON value that `text` holds, if it is JSON.
pub fn parse_json(text: &str) -> (r: Option<JsonValue>)
    ensures
        r is Some == parsed_json(text@) is Some,
        r matches Some(value) ==> parsed_json(text@) == Some(value@),
{
    match serde_parse(text) {
        Some(tree) => Some(json_of_serde(&tree)),
        None => None,
    }
}

/// The JSON text of `value`, where `serde_json` can hold the value.
pub fn render_json(value: &JsonValue) -> (r: Option<String>)
    ensures
        r is Some == serde_form(value@) is Some,
        r matches Some(text) ==> text@ == rendered_json(serde_form(value@)->0),
{
    match serde_of_json(value) {
        Some(tree) => Some(serde_render(&tree)),
        None => None,
    }
}

} // verus!
