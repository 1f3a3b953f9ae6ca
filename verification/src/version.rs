//! The versions of the attribute set and the member names each one uses.

use crate::content_type::option_text;
use crate::entries::lookup;
use crate::error::{CodecError, CodecErrorModel, CoreAttribute};
use crate::json::{JsonModel, JsonObject, JsonValue};
use crate::text::text_eq;
use vstd::prelude::*;

verus! {

/// A version of the CloudEvents attribute set.
#[derive(Debug, Clone, Copy, PartialEq, Eq, Structural)]
pub enum SpecVersion {
    V0_3,
    V1_0,
}

/// The value of `specversion` that selects a version.
pub open spec fn version_text(v: SpecVersion) -> Seq<char> {
    match v {
        SpecVersion::V0_3 => "0.3"@,
        SpecVersion::V1_0 => "1.0"@,
    }
}

/// The version that a value of `specversion` selects.
pub open spec fn version_of_text(t: Seq<char>) -> Option<SpecVersion> {
    if t == "1.0"@ {
        Some(SpecVersion::V1_0)
    } else if t == "0.3"@ {
        Some(SpecVersion::V0_3)
    } else {
        None
    }
}

/// The member name under which a version carries an attribute; `None`
/// where the version has no such attribute.
pub open spec fn wire_name(v: SpecVersion, a: CoreAttribute) -> Option<Seq<char>> {
    match a {
        CoreAttribute::SpecVersion => Some("specversion"@),
        CoreAttribute::Id => Some("id"@),
        CoreAttribute::Source => Some("source"@),
        CoreAttribute::Type => match v {
            SpecVersion::V0_3 => Some("eventType"@),
            SpecVersion::V1_0 => Some("type"@),
        },
        CoreAttribute::Subject => match v {
            SpecVersion::V0_3 => None,
            SpecVersion::V1_0 => Some("subject"@),
        },
        CoreAttribute::Time => match v {
            SpecVersion::V0_3 => Some("eventTime"@),
            SpecVersion::V1_0 => Some("time"@),
        },
        CoreAttribute::DataContentType => Some("datacontenttype"@),
        CoreAttribute::DataSchema => match v {
            SpecVersion::V0_3 => None,
            SpecVersion::V1_0 => Some("dataschema"@),
        },
    }
}

/// The member names that a version keeps for itself: those of its
/// attributes and the two names of the payload. Every other member of a
/// document is an extension.
pub open spec fn is_reserved(v: SpecVersion, key: Seq<char>) -> bool {
    ||| key == "data"@
    ||| key == "data_base64"@
    ||| wire_name(v, CoreAttribute::SpecVersion) == Some(key)
    ||| wire_name(v, CoreAttribute::Id) == Some(key)
    ||| wire_name(v, CoreAttribute::Source) == Some(key)
    ||| wire_name(v, CoreAttribute::Type) == Some(key)
    ||| wire_name(v, CoreAttribute::Subject) == Some(key)
    ||| wire_name(v, CoreAttribute::Time) == Some(key)
    ||| wire_name(v, CoreAttribute::DataContentType) == Some(key)
    ||| wire_name(v, CoreAttribute::DataSchema) == Some(key)
}

/// The version that a document declares, or why it declares none:
/// `specversion` is absent, is no JSON string, or names no known version.
pub open spec fn dispatch_model(doc: Seq<(Seq<char>, JsonModel)>) -> Result<
    SpecVersion,
    CodecErrorModel,
> {
    match lookup(doc, "specversion"@) {
        None => Err(CodecErrorModel::MissingRequiredAttribute(CoreAttribute::SpecVersion)),
        Some(JsonModel::String(t)) => match version_of_text(t) {
            Some(v) => Ok(v),
            None => Err(CodecErrorModel::UnsupportedSpecVersion(t)),
        },
        Some(_) => Err(CodecErrorModel::InvalidExtensionValueType("specversion"@)),
    }
}

/// The member names differ from one another, and the two names that hold a
/// capital letter hold it at place 5.
pub proof fn lemma_names()
    ensures
        "specversion"@ != "id"@,
        "specversion"@ != "source"@,
        "specversion"@ != "type"@,
        "specversion"@ != "subject"@,
        "specversion"@ != "time"@,
        "specversion"@ != "datacontenttype"@,
        "specversion"@ != "dataschema"@,
        "specversion"@ != "data"@,
        "specversion"@ != "data_base64"@,
        "specversion"@ != "eventType"@,
        "specversion"@ != "eventTime"@,
        "id"@ != "source"@,
        "id"@ != "type"@,
        "id"@ != "subject"@,
        "id"@ != "time"@,
        "id"@ != "datacontenttype"@,
        "id"@ != "dataschema"@,
        "id"@ != "data"@,
        "id"@ != "data_base64"@,
        "id"@ != "eventType"@,
        "id"@ != "eventTime"@,
        "source"@ != "type"@,
        "source"@ != "subject"@,
        "source"@ != "time"@,
        "source"@ != "datacontenttype"@,
        "source"@ != "dataschema"@,
        "source"@ != "data"@,
        "source"@ != "data_base64"@,
        "source"@ != "eventType"@,
        "source"@ != "eventTime"@,
        "type"@ != "subject"@,
        "type"@ != "time"@,
        "type"@ != "datacontenttype"@,
        "type"@ != "dataschema"@,
        "type"@ != "data"@,
        "type"@ != "data_base64"@,
        "type"@ != "eventType"@,
        "type"@ != "eventTime"@,
        "subject"@ != "time"@,
        "subject"@ != "datacontenttype"@,
        "subject"@ != "dataschema"@,
        "subject"@ != "data"@,
        "subject"@ != "data_base64"@,
        "subject"@ != "eventType"@,
        "subject"@ != "eventTime"@,
        "time"@ != "datacontenttype"@,
        "time"@ != "dataschema"@,
        "time"@ != "data"@,
        "time"@ != "data_base64"@,
        "time"@ != "eventType"@,
        "time"@ != "eventTime"@,
        "datacontenttype"@ != "dataschema"@,
        "datacontenttype"@ != "data"@,
        "datacontenttype"@ != "data_base64"@,
        "datacontenttype"@ != "eventType"@,
        "datacontenttype"@ != "eventTime"@,
        "dataschema"@ != "data"@,
        "dataschema"@ != "data_base64"@,
        "dataschema"@ != "eventType"@,
        "dataschema"@ != "eventTime"@,
        "data"@ != "data_base64"@,
        "data"@ != "eventType"@,
        "data"@ != "eventTime"@,
        "data_base64"@ != "eventType"@,
        "data_base64"@ != "eventTime"@,
        "eventType"@ != "eventTime"@,
        "eventType"@.len() == 9,
        "eventTime"@.len() == 9,
        "eventType"@[5] == 'T',
        "eventTime"@[5] == 'T',
        version_of_text("1.0"@) == Some(SpecVersion::V1_0),
        version_of_text("0.3"@) == Some(SpecVersion::V0_3),
{
    reveal_strlit("specversion");
    reveal_strlit("id");
    reveal_strlit("source");
    reveal_strlit("type");
    reveal_strlit("subject");
    reveal_strlit("time");
    reveal_strlit("datacontenttype");
    reveal_strlit("dataschema");
    reveal_strlit("data");
    reveal_strlit("data_base64");
    reveal_strlit("eventType");
    reveal_strlit("eventTime");
    reveal_strlit("1.0");
    reveal_strlit("0.3");
    assert("1.0"@[0] != "0.3"@[0]);
    assert("specversion"@.len() == 11);
    assert("id"@.len() == 2);
    assert("source"@.len() == 6);
    assert("type"@.len() == 4);
    assert("subject"@.len() == 7);
    assert("time"@.len() == 4);
    assert("datacontenttype"@.len() == 15);
    assert("dataschema"@.len() == 10);
    assert("data"@.len() == 4);
    assert("data_base64"@.len() == 11);
    assert("eventType"@.len() == 9);
    assert("eventTime"@.len() == 9);
    assert("specversion"@[0] != "data_base64"@[0]);
    assert("type"@[1] != "time"@[1]);
    assert("type"@[0] != "data"@[0]);
    assert("time"@[0] != "data"@[0]);
    assert("eventType"@[6] != "eventTime"@[6]);
}

impl SpecVersion {
    /// The version that `text` selects.
    pub fn from_text(text: &str) -> (r: Option<SpecVersion>)
        ensures
            r == version_of_text(text@),
    {
        if text_eq(text, "1.0") {
            Some(SpecVersion::V1_0)
        } else if text_eq(text, "0.3") {
            Some(SpecVersion::V0_3)
        } else {
            None
        }
    }

    /// The value of `specversion` for this version.
    pub fn text(self) -> (r: &'static str)
        ensures
            r@ == version_text(self),
    {
        match self {
            SpecVersion::V0_3 => "0.3",
            SpecVersion::V1_0 => "1.0",
        }
    }

    /// The member name under which this version carries `attribute`.
    pub fn wire_name(self, attribute: CoreAttribute) -> (r: Option<&'static str>)
        ensures
            option_text(r) == wire_name(self, attribute),
    {
        match attribute {
            CoreAttribute::SpecVersion => Some("specversion"),
            CoreAttribute::Id => Some("id"),
            CoreAttribute::Source => Some("source"),
            CoreAttribute::Type => match self {
                SpecVersion::V0_3 => Some("eventType"),
                SpecVersion::V1_0 => Some("type"),
            },
            CoreAttribute::Subject => match self {
                SpecVersion::V0_3 => None,
                SpecVersion::V1_0 => Some("subject"),
            },
            CoreAttribute::Time => match self {
                SpecVersion::V0_3 => Some("eventTime"),
                SpecVersion::V1_0 => Some("time"),
            },
            CoreAttribute::DataContentType => Some("datacontenttype"),
            CoreAttribute::DataSchema => match self {
                SpecVersion::V0_3 => None,
                SpecVersion::V1_0 => Some("dataschema"),
            },
        }
    }

    /// Whether this version carries `attribute` under the name `key`.
    fn names(self, attribute: CoreAttribute, key: &str) -> (r: bool)
        ensures
            r == (wire_name(self, attribute) == Some(key@)),
    {
        match self.wire_name(attribute) {
            Some(name) => text_eq(name, key),
            None => false,
        }
    }

    /// Whether this version keeps the member name `key` for itself.
    pub fn is_reserved(self, key: &str) -> (r: bool)
        ensures
            r == is_reserved(self, key@),
    {
        text_eq(key, "data") || text_eq(key, "data_base64") || self.names(
            CoreAttribute::SpecVersion,
            key,
        ) || self.names(CoreAttribute::Id, key) || self.names(CoreAttribute::Source, key)
            || self.names(CoreAttribute::Type, key) || self.names(CoreAttribute::Subject, key)
            || self.names(CoreAttribute::Time, key) || self.names(
            CoreAttribute::DataContentType,
            key,
        ) || self.names(CoreAttribute::DataSchema, key)
    }
}

/// Reads `specversion` and selects the version whose names the rest of the
/// document is read by.
pub fn dispatch(doc: &JsonObject) -> (r: Result<SpecVersion, CodecError>)
    ensures
        match r {
            Ok(v) => dispatch_model(doc@) == Ok::<SpecVersion, CodecErrorModel>(v),
            Err(e) => dispatch_model(doc@) == Err::<SpecVersion, CodecErrorModel>(e@),
        },
{
    match doc.get("specversion") {
        None => Err(CodecError::MissingRequiredAttribute(CoreAttribute::SpecVersion)),
        Some(JsonValue::String(t)) => match SpecVersion::from_text(t.as_str()) {
            Some(v) => Ok(v),
            None => Err(CodecError::UnsupportedSpecVersion(t.clone())),
        },
        Some(_) => Err(CodecError::InvalidExtensionValueType("specversion".to_string())),
    }
}

} // verus!
