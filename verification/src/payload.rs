//! The payload of an event and the form it takes in a JSON document.
//!
//! A payload is carried in one of two members: `data` holds it as a JSON
//! value, `data_base64` holds its bytes as standard base64 text.

use crate::bridge::{base64_bytes, base64_encode, base64_text, parse_json, parsed_json, utf8_text};
use crate::content_type::ContentClass;
use crate::error::{CodecError, CodecErrorModel};
use crate::json::{JsonModel, JsonValue};
use vstd::prelude::*;
use vstd::utf8::{decode_utf8, encode_utf8, valid_utf8};

verus! {

/// The body of an event.
#[derive(Debug, PartialEq, Eq)]
pub enum DataPayload {
    /// No payload.
    Empty,
    /// A JSON value.
    Json(JsonValue),
    /// Text.
    Text(String),
    /// Arbitrary bytes.
    Binary(Vec<u8>),
}

/// What a [`DataPayload`] stands for.
pub enum PayloadModel {
    Empty,
    Json(JsonModel),
    Text(Seq<char>),
    Binary(Seq<u8>),
}

impl View for DataPayload {
    type V = PayloadModel;

    open spec fn view(&self) -> PayloadModel {
        match self {
            DataPayload::Empty => PayloadModel::Empty,
            DataPayload::Json(v) => PayloadModel::Json(v@),
            DataPayload::Text(s) => PayloadModel::Text(s@),
            DataPayload::Binary(b) => PayloadModel::Binary(b@),
        }
    }
}

/// What the content type and the shape of a payload decide, before any
/// text is parsed or encoded.
#[derive(Debug, PartialEq, Eq)]
pub enum Carrier {
    /// Neither member is written.
    Absent,
    /// The value is written under `data`.
    Inline(JsonValue),
    /// The text is declared to be JSON: it is written under `data` as the
    /// value it parses to, or as base64 where it does not parse.
    JsonText(String),
    /// The bytes are written under `data_base64`.
    Opaque,
}

/// What a [`Carrier`] stands for.
pub enum CarrierModel {
    Absent,
    Inline(JsonModel),
    JsonText(Seq<char>),
    Opaque,
}

impl View for Carrier {
    type V = CarrierModel;

    open spec fn view(&self) -> CarrierModel {
        match self {
            Carrier::Absent => CarrierModel::Absent,
            Carrier::Inline(v) => CarrierModel::Inline(v@),
            Carrier::JsonText(t) => CarrierModel::JsonText(t@),
            Carrier::Opaque => CarrierModel::Opaque,
        }
    }
}

/// The payload as a document carries it.
#[derive(Debug, PartialEq, Eq)]
pub enum WireData {
    /// Neither `data` nor `data_base64`.
    Absent,
    /// The member `data`.
    Data(JsonValue),
    /// The member `data_base64`.
    Base64(String),
}

/// What a [`WireData`] stands for.
pub enum WireModel {
    Absent,
    Data(JsonModel),
    Base64(Seq<char>),
}

impl View for WireData {
    type V = WireModel;

    open spec fn view(&self) -> WireModel {
        match self {
            WireData::Absent => WireModel::Absent,
            WireData::Data(v) => WireModel::Data(v@),
            WireData::Base64(t) => WireModel::Base64(t@),
        }
    }
}

/// The bytes of a payload: those of a binary payload, the UTF-8 bytes of
/// a text. The other payloads have none.
pub open spec fn payload_bytes(p: PayloadModel) -> Seq<u8> {
    match p {
        PayloadModel::Text(s) => encode_utf8(s),
        PayloadModel::Binary(b) => b,
        _ => Seq::empty(),
    }
}

/// The rule by which a payload is carried:
/// - no payload: nothing is written;
/// - a JSON value: inline, whatever the content type;
/// - a text: inline as a JSON string where the content type is absent or
///   textual; as declared JSON where the content type indicates JSON; else
///   as bytes;
/// - bytes: where they are valid UTF-8 and the content type indicates JSON,
///   as declared JSON; where they are valid UTF-8 and the content type is
///   textual, inline as a JSON string; else as bytes.
pub open spec fn carrier_model(class: ContentClass, p: PayloadModel) -> CarrierModel {
    match p {
        PayloadModel::Empty => CarrierModel::Absent,
        PayloadModel::Json(v) => CarrierModel::Inline(v),
        PayloadModel::Text(s) => match class {
            ContentClass::Absent => CarrierModel::Inline(JsonModel::String(s)),
            ContentClass::Textual => CarrierModel::Inline(JsonModel::String(s)),
            ContentClass::Json => CarrierModel::JsonText(s),
            ContentClass::Opaque => CarrierModel::Opaque,
        },
        PayloadModel::Binary(b) => if valid_utf8(b) {
            match class {
                ContentClass::Json => CarrierModel::JsonText(decode_utf8(b)),
                ContentClass::Textual => CarrierModel::Inline(JsonModel::String(decode_utf8(b))),
                _ => CarrierModel::Opaque,
            }
        } else {
            CarrierModel::Opaque
        },
    }
}

/// What becomes of declared JSON once the parser has spoken: the parsed
/// value inline, or the bytes as base64 where there is none.
pub open spec fn after_parse_model(parsed: Option<JsonModel>, bytes: Seq<u8>) -> WireModel {
    match parsed {
        Some(v) => WireModel::Data(v),
        None => WireModel::Base64(base64_text(bytes)),
    }
}

/// The form in which a document carries a payload under a content type.
pub open spec fn wire_model(class: ContentClass, p: PayloadModel) -> WireModel {
    match carrier_model(class, p) {
        CarrierModel::Absent => WireModel::Absent,
        CarrierModel::Inline(v) => WireModel::Data(v),
        CarrierModel::JsonText(t) => after_parse_model(parsed_json(t), payload_bytes(p)),
        CarrierModel::Opaque => WireModel::Base64(base64_text(payload_bytes(p))),
    }
}

/// The payload that a document carries, read under a content type:
/// - `data` holding a JSON string is a text where the content type is absent
///   or textual;
/// - any other `data` is a JSON value;
/// - `data_base64` is the bytes that `decoded` holds, and an error where it
///   holds none.
pub open spec fn payload_of_wire_model(
    class: ContentClass,
    wire: WireModel,
    decoded: Option<Seq<u8>>,
) -> Result<PayloadModel, CodecErrorModel> {
    match wire {
        WireModel::Absent => Ok(PayloadModel::Empty),
        WireModel::Data(JsonModel::String(s)) => if class == ContentClass::Absent || class
            == ContentClass::Textual {
            Ok(PayloadModel::Text(s))
        } else {
            Ok(PayloadModel::Json(JsonModel::String(s)))
        },
        WireModel::Data(v) => Ok(PayloadModel::Json(v)),
        WireModel::Base64(_) => match decoded {
            Some(bytes) => Ok(PayloadModel::Binary(bytes)),
            None => Err(CodecErrorModel::InvalidBase64Payload),
        },
    }
}

/// The payloads that come back from a document as they went in:
/// - no payload, under any content type;
/// - a JSON value, unless it is a JSON string and the content type is
///   absent or textual (it comes back as a text);
/// - a text under an absent or textual content type;
/// - bytes that are written as base64.
pub open spec fn survives(class: ContentClass, p: PayloadModel) -> bool {
    match p {
        PayloadModel::Empty => true,
        PayloadModel::Json(v) => !(v is String && (class == ContentClass::Absent || class
            == ContentClass::Textual)),
        PayloadModel::Text(_) => class == ContentClass::Absent || class == ContentClass::Textual,
        PayloadModel::Binary(_) => wire_model(class, p) is Base64,
    }
}

/// A payload of a shape that the content type does not rule out: all but
/// a text that is declared to be JSON and is none.
pub open spec fn shape_fits(class: ContentClass, p: PayloadModel) -> bool {
    p matches PayloadModel::Text(s) ==> class == ContentClass::Json ==> parsed_json(s) is Some
}

impl DataPayload {
    /// A copy of this payload.
    pub fn duplicate(&self) -> (r: DataPayload)
        ensures
            r@ == self@,
    {
        match self {
            DataPayload::Empty => DataPayload::Empty,
            DataPayload::Json(v) => DataPayload::Json(v.duplicate()),
            DataPayload::Text(s) => DataPayload::Text(s.clone()),
            DataPayload::Binary(b) => DataPayload::Binary(copy_bytes(b.as_slice())),
        }
    }

    /// The text that `bytes` hold, as a payload. Bytes that are no valid
    /// UTF-8 cannot be a text.
    pub fn text_from_bytes(bytes: &[u8]) -> (r: Result<DataPayload, CodecError>)
        ensures
            match r {
                Ok(p) => valid_utf8(bytes@) && p@ == PayloadModel::Text(decode_utf8(bytes@)),
                Err(e) => !valid_utf8(bytes@) && e@ == CodecErrorModel::DataEncodingError,
            },
    {
        match utf8_text(bytes) {
            Some(text) => Ok(DataPayload::Text(text.to_string())),
            None => Err(CodecError::DataEncodingError),
        }
    }
}

/// A copy of `bytes`.
pub fn copy_bytes(bytes: &[u8]) -> (r: Vec<u8>)
    ensures
        r@ == bytes@,
{
    let mut out: Vec<u8> = Vec::new();
    let n: usize = bytes.len();
    let mut i: usize = 0;
    while i < n
        invariant
            n == bytes@.len(),
            i <= n,
            out@ == bytes@.take(i as int),
        decreases n - i,
    {
        out.push(bytes[i]);
        assert(bytes@.take(i + 1) =~= bytes@.take(i as int).push(bytes@[i as int]));
        i += 1;
    }
    assert(bytes@.take(n as int) =~= bytes@);
    out
}

/// Decides how `payload` is carried under a content type of class `class`.
pub fn carrier(class: ContentClass, payload: &DataPayload) -> (r: Carrier)
    ensures
        r@ == carrier_model(class, payload@),
{
    match payload {
        DataPayload::Empty => Carrier::Absent,
        DataPayload::Json(v) => Carrier::Inline(v.duplicate()),
        DataPayload::Text(s) => match class {
            ContentClass::Absent => Carrier::Inline(JsonValue::String(s.clone())),
            ContentClass::Textual => Carrier::Inline(JsonValue::String(s.clone())),
            ContentClass::Json => Carrier::JsonText(s.clone()),
            ContentClass::Opaque => Carrier::Opaque,
        },
        DataPayload::Binary(b) => match class {
            ContentClass::Json => match utf8_text(b.as_slice()) {
                Some(text) => Carrier::JsonText(text.to_string()),
                None => Carrier::Opaque,
            },
            ContentClass::Textual => match utf8_text(b.as_slice()) {
                Some(text) => Carrier::Inline(JsonValue::String(text.to_string())),
                None => Carrier::Opaque,
            },
            _ => Carrier::Opaque,
        },
    }
}

/// The bytes of `payload` as base64 under `data_base64`.
pub fn base64_form(payload: &DataPayload) -> (r: WireData)
    ensures
        r@ == WireModel::Base64(base64_text(payload_bytes(payload@))),
        r matches WireData::Base64(t) && base64_bytes(t@) == Some(payload_bytes(payload@)),
{
    match payload {
        DataPayload::Text(s) => WireData::Base64(base64_encode(s.as_str().as_bytes())),
        DataPayload::Binary(b) => WireData::Base64(base64_encode(b.as_slice())),
        _ => {
            let none: Vec<u8> = Vec::new();
            WireData::Base64(base64_encode(none.as_slice()))
        },
    }
}

/// What becomes of a payload that is declared to be JSON, given what the
/// parser made of its text: the parsed value inline, or the bytes as base64.
pub fn after_parse(parsed: Option<JsonValue>, payload: &DataPayload) -> (r: WireData)
    ensures
        r@ == after_parse_model(
            match parsed {
                Some(v) => Some(v@),
                None => None,
            },
            payload_bytes(payload@),
        ),
        r matches WireData::Base64(t) ==> base64_bytes(t@) == Some(payload_bytes(payload@)),
{
    match parsed {
        Some(v) => WireData::Data(v),
        None => base64_form(payload),
    }
}

/// The form in which a document carries `payload` under a content type of
/// class `class`.
pub fn wire_form(class: ContentClass, payload: &DataPayload) -> (r: WireData)
    ensures
        r@ == wire_model(class, payload@),
        r matches WireData::Base64(t) ==> base64_bytes(t@) == Some(payload_bytes(payload@)),
{
    match carrier(class, payload) {
        Carrier::Absent => WireData::Absent,
        Carrier::Inline(v) => WireData::Data(v),
        Carrier::JsonText(text) => after_parse(parse_json(text.as_str()), payload),
        Carrier::Opaque => base64_form(payload),
    }
}

/// The payload that a document carries as `wire`, read under a content
/// type of class `class`; `decoded` holds the bytes of the base64 text where
/// `wire` is one and it decodes.
pub fn payload_of_wire(class: ContentClass, wire: WireData, decoded: Option<Vec<u8>>) -> (r: Result<
    DataPayload,
    CodecError,
>)
    ensures
        match r {
            Ok(p) => payload_of_wire_model(
                class,
                wire@,
                match decoded {
                    Some(b) => Some(b@),
                    None => None,
                },
            ) == Ok::<PayloadModel, CodecErrorModel>(p@),
            Err(e) => payload_of_wire_model(
                class,
                wire@,
                match decoded {
                    Some(b) => Some(b@),
                    None => None,
                },
            ) == Err::<PayloadModel, CodecErrorModel>(e@),
        },
{
    match wire {
        WireData::Absent => Ok(DataPayload::Empty),
        WireData::Data(JsonValue::String(s)) => match class {
            ContentClass::Absent => Ok(DataPayload::Text(s)),
            ContentClass::Textual => Ok(DataPayload::Text(s)),
            _ => Ok(DataPayload::Json(JsonValue::String(s))),
        },
        WireData::Data(v) => Ok(DataPayload::Json(v)),
        WireData::Base64(_) => match decoded {
            Some(bytes) => Ok(DataPayload::Binary(bytes)),
            None => Err(CodecError::InvalidBase64Payload),
        },
    }
}

/// Whether the content type admits the shape of `payload`: a text that is
/// declared to be JSON has to parse as JSON.
pub fn check_shape(class: ContentClass, payload: &DataPayload) -> (r: bool)
    ensures
        r == shape_fits(class, payload@),
{
    match payload {
        DataPayload::Text(s) => match class {
            ContentClass::Json => parse_json(s.as_str()).is_some(),
            _ => true,
        },
        _ => true,
    }
}

} // verus!
