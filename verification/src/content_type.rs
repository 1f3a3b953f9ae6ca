//! What a declared content type says about how a payload may be carried.

use crate::text::{ends_with, starts_with};
use vstd::prelude::*;

verus! {

/// The classes of declared content types.
#[derive(Debug, Clone, Copy, PartialEq, Eq, Structural)]
pub enum ContentClass {
    /// No content type is declared.
    Absent,
    /// The content is JSON.
    Json,
    /// The content is text that is not JSON.
    Textual,
    /// Anything else.
    Opaque,
}

/// A content type indicates JSON when it begins with `application/json`
/// or `text/json`, or ends with `+json`.
pub open spec fn is_json_type(ct: Seq<char>) -> bool {
    "application/json"@.is_prefix_of(ct) || "text/json"@.is_prefix_of(ct) || "+json"@.is_suffix_of(
        ct,
    )
}

/// A content type is textual when it does not indicate JSON and begins
/// with `text/` or `application/xml`.
pub open spec fn is_textual_type(ct: Seq<char>) -> bool {
    !is_json_type(ct) && ("text/"@.is_prefix_of(ct) || "application/xml"@.is_prefix_of(ct))
}

/// The class of a declared content type.
pub open spec fn content_class(ct: Option<Seq<char>>) -> ContentClass {
    match ct {
        None => ContentClass::Absent,
        Some(t) => if is_json_type(t) {
            ContentClass::Json
        } else if is_textual_type(t) {
            ContentClass::Textual
        } else {
            ContentClass::Opaque
        },
    }
}

/// The view of an optional string.
pub open spec fn text_of(o: Option<String>) -> Option<Seq<char>> {
    match o {
        Some(s) => Some(s@),
        None => None,
    }
}

/// The view of an optional string slice.
pub open spec fn option_text(o: Option<&str>) -> Option<Seq<char>> {
    match o {
        Some(s) => Some(s@),
        None => None,
    }
}

/// The text of an optional string.
pub fn as_text(o: &Option<String>) -> (r: Option<&str>)
    ensures
        option_text(r) == text_of(*o),
{
    match o {
        Some(s) => Some(s.as_str()),
        None => None,
    }
}

/// The class of a declared content type.
pub fn class_of(ct: &Option<String>) -> (r: ContentClass)
    ensures
        r == content_class(text_of(*ct)),
{
    match ct {
        None => ContentClass::Absent,
        Some(t) => {
            let t = t.as_str();
            if starts_with(t, "application/json") || starts_with(t, "text/json") || ends_with(
                t,
                "+json",
            ) {
                ContentClass::Json
            } else if starts_with(t, "text/") || starts_with(t, "application/xml") {
                ContentClass::Textual
            } else {
                ContentClass::Opaque
            }
        },
    }
}

} // verus!
