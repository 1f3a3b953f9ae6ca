//! Sample events and the documents that carry them.
//!
//! The events are made of fixed values: identifier `0001`, source
//! `http://localhost/`, type `test_event.test_application`, and three
//! extensions, one of each type.

use crate::bridge::{base64_decode, base64_encode, base64_text};
use crate::entries::lemma_lookup_absent;
use crate::envelope::{build_model, EnvelopeDraft, EnvelopeModel, EventEnvelope};
use crate::error::{CodecError, CodecErrorModel};
use crate::extension::{ExtensionMap, ExtensionModel, ExtensionValue};
use crate::json::{JsonModel, JsonObject, JsonValue};
use crate::number::{decimal_of, decimal_text};
use crate::payload::{DataPayload, PayloadModel};
use crate::timestamp::{date_ok, is_rfc3339, offset_ok, offset_place, time_ok, two_value, Timestamp};
use crate::version::{lemma_names, SpecVersion};
use vstd::pervasive::unreached;
use vstd::prelude::*;
use vstd::string::StrSliceExecFns;
use vstd::utf8::encode_utf8;

verus! {

/// The sample identifier.
pub fn id() -> (r: String)
    ensures
        r@ == "0001"@,
{
    "0001".to_string()
}

/// The sample type.
pub fn ty() -> (r: String)
    ensures
        r@ == "test_event.test_application"@,
{
    "test_event.test_application".to_string()
}

/// The sample source.
pub fn source() -> (r: String)
    ensures
        r@ == "http://localhost/"@,
{
    "http://localhost/".to_string()
}

/// The sample subject.
pub fn subject() -> (r: String)
    ensures
        r@ == "cloudevents-sdk"@,
{
    "cloudevents-sdk".to_string()
}

/// The sample time.
pub fn time() -> (r: Timestamp)
    ensures
        r@ == "2020-03-16T11:50:00Z"@,
{
    proof {
        lemma_sample_time();
    }
    match Timestamp::parse("2020-03-16T11:50:00Z") {
        Some(t) => t,
        None => unreached(),
    }
}

/// The sample time is a timestamp.
pub proof fn lemma_sample_time()
    ensures
        is_rfc3339("2020-03-16T11:50:00Z"@),
{
    reveal_strlit("2020-03-16T11:50:00Z");
    let s = "2020-03-16T11:50:00Z"@;
    assert(s.len() == 20);
    assert(two_value(s, 0) == 20 && two_value(s, 2) == 20 && two_value(s, 5) == 3 && two_value(s, 8) == 16);
    assert(date_ok(s));
    assert(time_ok(s));
    assert(offset_place(s) == 19);
    assert(offset_ok(s, 19));
}

/// The content type of JSON.
pub fn json_datacontenttype() -> (r: String)
    ensures
        r@ == "application/json"@,
{
    "application/json".to_string()
}

/// The content type of XML.
pub fn xml_datacontenttype() -> (r: String)
    ensures
        r@ == "application/xml"@,
{
    "application/xml".to_string()
}

/// The sample schema.
pub fn dataschema() -> (r: String)
    ensures
        r@ == "http://localhost/schema"@,
{
    "http://localhost/schema".to_string()
}

/// The JSON value `{"hello":"world"}`.
pub open spec fn json_data_model() -> JsonModel {
    JsonModel::Object(seq![("hello"@, JsonModel::String("world"@))])
}

/// The sample JSON payload.
pub fn json_data() -> (r: JsonValue)
    ensures
        r@ == json_data_model(),
{
    let mut o = JsonObject::new();
    proof {
        lemma_lookup_absent(o@, "hello"@);
    }
    o.insert("hello".to_string(), JsonValue::String("world".to_string()));
    assert(o@ =~= seq![("hello"@, JsonModel::String("world"@))]);
    JsonValue::Object(o)
}

/// The JSON text of [`json_data`].
pub open spec fn json_data_text() -> Seq<char> {
    "{\"hello\":\"world\"}"@
}

/// The UTF-8 bytes of the JSON text of the sample JSON payload.
pub fn json_data_binary() -> (r: Vec<u8>)
    ensures
        r@ == encode_utf8(json_data_text()),
{
    "{\"hello\":\"world\"}".as_bytes_vec()
}

/// The sample XML payload.
pub fn xml_data() -> (r: String)
    ensures
        r@ == "<xml data=\"hello\" />"@,
{
    "<xml data=\"hello\" />".to_string()
}

/// The sample extension that is a string.
pub fn string_extension() -> (r: (String, String))
    ensures
        r.0@ == "stringex"@,
        r.1@ == "val"@,
{
    ("stringex".to_string(), "val".to_string())
}

/// The sample extension that is a boolean.
pub fn bool_extension() -> (r: (String, bool))
    ensures
        r.0@ == "boolex"@,
        r.1,
{
    ("boolex".to_string(), true)
}

/// The sample extension that is an integer.
pub fn int_extension() -> (r: (String, i64))
    ensures
        r.0@ == "intex"@,
        r.1 == 10,
{
    ("intex".to_string(), 10)
}

/// The names of the sample extensions and of the sample payload differ
/// from one another and from the member names.
pub proof fn lemma_sample_names()
    ensures
        "stringex"@ != "boolex"@,
        "stringex"@ != "intex"@,
        "stringex"@ != "someint"@,
        "stringex"@ != "hello"@,
        "boolex"@ != "intex"@,
        "boolex"@ != "someint"@,
        "boolex"@ != "hello"@,
        "intex"@ != "someint"@,
        "intex"@ != "hello"@,
        "someint"@ != "hello"@,
        "stringex"@ != "specversion"@,
        "stringex"@ != "id"@,
        "stringex"@ != "source"@,
        "stringex"@ != "type"@,
        "stringex"@ != "subject"@,
        "stringex"@ != "time"@,
        "stringex"@ != "datacontenttype"@,
        "stringex"@ != "dataschema"@,
        "stringex"@ != "data"@,
        "stringex"@ != "data_base64"@,
        "boolex"@ != "specversion"@,
        "boolex"@ != "id"@,
        "boolex"@ != "source"@,
        "boolex"@ != "type"@,
        "boolex"@ != "subject"@,
        "boolex"@ != "time"@,
        "boolex"@ != "datacontenttype"@,
        "boolex"@ != "dataschema"@,
        "boolex"@ != "data"@,
        "boolex"@ != "data_base64"@,
        "intex"@ != "specversion"@,
        "intex"@ != "id"@,
        "intex"@ != "source"@,
        "intex"@ != "type"@,
        "intex"@ != "subject"@,
        "intex"@ != "time"@,
        "intex"@ != "datacontenttype"@,
        "intex"@ != "dataschema"@,
        "intex"@ != "data"@,
        "intex"@ != "data_base64"@,
        "someint"@ != "specversion"@,
        "someint"@ != "id"@,
        "someint"@ != "source"@,
        "someint"@ != "type"@,
        "someint"@ != "subject"@,
        "someint"@ != "time"@,
        "someint"@ != "datacontenttype"@,
        "someint"@ != "dataschema"@,
        "someint"@ != "data"@,
        "someint"@ != "data_base64"@,
        "hello"@ != "specversion"@,
        "hello"@ != "id"@,
        "hello"@ != "source"@,
        "hello"@ != "type"@,
        "hello"@ != "subject"@,
        "hello"@ != "time"@,
        "hello"@ != "datacontenttype"@,
        "hello"@ != "dataschema"@,
        "hello"@ != "data"@,
        "hello"@ != "data_base64"@,
{
    reveal_strlit("specversion");
    reveal_strlit("id");
    reveal_strlit("source");
    reveal_strlit("type");
    reveal_strlit("subject");
    reveal_strlit("time");
    reveal_strlit("datacontenttype");
    reveal_strlit("dataschema");
    reveal_strlit("data");
    reveal_strlit("data_base64");
    reveal_strlit("stringex");
    reveal_strlit("boolex");
    reveal_strlit("intex");
    reveal_strlit("someint");
    reveal_strlit("hello");
    assert("specversion"@.len() == 11);
    assert("id"@.len() == 2);
    assert("source"@.len() == 6);
    assert("type"@.len() == 4);
    assert("subject"@.len() == 7);
    assert("time"@.len() == 4);
    assert("datacontenttype"@.len() == 15);
    assert("dataschema"@.len() == 10);
    assert("data"@.len() == 4);
    assert("data_base64"@.len() == 11);
    assert("stringex"@.len() == 8);
    assert("boolex"@.len() == 6);
    assert("intex"@.len() == 5);
    assert("someint"@.len() == 7);
    assert("hello"@.len() == 5);
    assert("intex"@[0] != "hello"@[0]);
    assert("boolex"@[0] != "source"@[0]);
    assert("someint"@[1] != "subject"@[1]);
}

/// Whether `r` is what making an envelope of `m` gives.
pub open spec fn built(r: Result<EventEnvelope, CodecError>, m: EnvelopeModel) -> bool {
    match r {
        Ok(e) => build_model(m) == Ok::<EnvelopeModel, CodecErrorModel>(e@),
        Err(x) => build_model(m) == Err::<EnvelopeModel, CodecErrorModel>(x@),
    }
}

/// The three sample extensions with their types.
pub open spec fn typed_extensions() -> Seq<(Seq<char>, ExtensionModel)> {
    seq![
        ("stringex"@, ExtensionModel::String("val"@)),
        ("boolex"@, ExtensionModel::Boolean(true)),
        ("intex"@, ExtensionModel::Integer(10)),
    ]
}

/// The three sample extensions as strings.
pub open spec fn string_extensions() -> Seq<(Seq<char>, ExtensionModel)> {
    seq![
        ("stringex"@, ExtensionModel::String("val"@)),
        ("boolex"@, ExtensionModel::String("true"@)),
        ("intex"@, ExtensionModel::String("10"@)),
    ]
}

/// What [`minimal`] is made of.
pub open spec fn minimal_model() -> EnvelopeModel {
    EnvelopeModel {
        id: "0001"@,
        source: "http://localhost/"@,
        ty: "test_event.test_application"@,
        specversion: SpecVersion::V1_0,
        subject: None,
        time: None,
        datacontenttype: None,
        dataschema: None,
        extensions: Seq::empty(),
        data: PayloadModel::Empty,
    }
}

/// What [`minimal_string_extension`] is made of.
pub open spec fn minimal_string_extension_model() -> EnvelopeModel {
    EnvelopeModel {
        extensions: seq![("someint"@, ExtensionModel::String("10"@))],
        ..minimal_model()
    }
}

/// What [`full_no_data`] is made of.
pub open spec fn full_no_data_model() -> EnvelopeModel {
    EnvelopeModel {
        subject: Some("cloudevents-sdk"@),
        time: Some("2020-03-16T11:50:00Z"@),
        extensions: typed_extensions(),
        ..minimal_model()
    }
}

/// What [`full_json_data`] is made of.
pub open spec fn full_json_data_model() -> EnvelopeModel {
    EnvelopeModel {
        datacontenttype: Some("application/json"@),
        dataschema: Some("http://localhost/schema"@),
        data: PayloadModel::Json(json_data_model()),
        ..full_no_data_model()
    }
}

/// What [`full_json_data_string_extension`] is made of.
pub open spec fn full_json_data_string_extension_model() -> EnvelopeModel {
    EnvelopeModel {
        datacontenttype: Some("application/json"@),
        extensions: string_extensions(),
        data: PayloadModel::Json(json_data_model()),
        ..full_no_data_model()
    }
}

/// What [`full_binary_json_data_string_extension`] is made of.
pub open spec fn full_binary_json_data_string_extension_model() -> EnvelopeModel {
    EnvelopeModel {
        data: PayloadModel::Binary(encode_utf8(json_data_text())),
        ..full_json_data_string_extension_model()
    }
}

/// What [`full_non_json_data`] holds.
pub open spec fn full_non_json_data_model() -> EnvelopeModel {
    EnvelopeModel {
        data: PayloadModel::Binary(encode_utf8("hello world"@)),
        ..full_json_data_model()
    }
}

/// What [`full_xml_string_data`] is made of.
pub open spec fn full_xml_string_data_model() -> EnvelopeModel {
    EnvelopeModel {
        datacontenttype: Some("application/xml"@),
        data: PayloadModel::Text("<xml data=\"hello\" />"@),
        ..full_no_data_model()
    }
}

/// What [`full_xml_binary_data`] is made of.
pub open spec fn full_xml_binary_data_model() -> EnvelopeModel {
    EnvelopeModel {
        datacontenttype: Some("application/xml"@),
        data: PayloadModel::Binary(encode_utf8("<xml data=\"hello\" />"@)),
        ..full_no_data_model()
    }
}

/// The draft of [`minimal`].
fn minimal_draft() -> (r: EnvelopeDraft)
    ensures
        r@ == minimal_model(),
{
    EnvelopeDraft {
        id: id(),
        source: source(),
        ty: ty(),
        specversion: SpecVersion::V1_0,
        subject: None,
        time: None,
        datacontenttype: None,
        dataschema: None,
        extensions: ExtensionMap::new(),
        data: DataPayload::Empty,
    }
}

/// The three sample extensions; as strings where `coerced`.
fn sample_extensions(coerced: bool) -> (r: ExtensionMap)
    ensures
        r@ == if coerced {
            string_extensions()
        } else {
            typed_extensions()
        },
{
    let s = string_extension();
    let b = bool_extension();
    let i = int_extension();
    let mut x = ExtensionMap::new();
    proof {
        lemma_sample_names();
        reveal_strlit("true");
        reveal_strlit("10");
    }
    x.insert(s.0, ExtensionValue::String(s.1));
    proof {
        lemma_lookup_absent(x@, "boolex"@);
    }
    if coerced {
        x.insert(b.0, ExtensionValue::String(ExtensionValue::Boolean(b.1).coerced()));
    } else {
        x.insert(b.0, ExtensionValue::Boolean(b.1));
    }
    proof {
        lemma_lookup_absent(x@, "intex"@);
    }
    if coerced {
        proof {
            lemma_ten();
        }
        x.insert(i.0, ExtensionValue::String(ExtensionValue::Integer(i.1).coerced()));
        assert(x@ =~= string_extensions());
    } else {
        x.insert(i.0, ExtensionValue::Integer(i.1));
        assert(x@ =~= typed_extensions());
    }
    x
}

/// The decimal text of ten.
proof fn lemma_ten()
    ensures
        decimal_text(10) == "10"@,
{
    reveal_strlit("10");
    reveal_with_fuel(crate::number::digits_text, 3);
    assert(decimal_text(10) =~= "10"@);
}

/// The draft of [`full_no_data`], with the extensions as strings where
/// `coerced`.
fn full_draft(coerced: bool) -> (r: EnvelopeDraft)
    ensures
        r@ == (EnvelopeModel {
            extensions: if coerced {
                string_extensions()
            } else {
                typed_extensions()
            },
            ..full_no_data_model()
        }),
{
    let mut d = minimal_draft();
    d.subject = Some(subject());
    d.time = Some(time());
    d.extensions = sample_extensions(coerced);
    d
}

/// An event with the required attributes only.
pub fn minimal() -> (r: Result<EventEnvelope, CodecError>)
    ensures
        built(r, minimal_model()),
{
    EventEnvelope::new(minimal_draft())
}

/// An event with the required attributes and one extension that is a
/// string.
pub fn minimal_string_extension() -> (r: Result<EventEnvelope, CodecError>)
    ensures
        built(r, minimal_string_extension_model()),
{
    let mut d = minimal_draft();
    let mut x = ExtensionMap::new();
    proof {
        lemma_lookup_absent(x@, "someint"@);
    }
    x.insert("someint".to_string(), ExtensionValue::String("10".to_string()));
    assert(x@ =~= seq![("someint"@, ExtensionModel::String("10"@))]);
    d.extensions = x;
    EventEnvelope::new(d)
}

/// An event with every attribute but those of the payload, and no payload.
pub fn full_no_data() -> (r: Result<EventEnvelope, CodecError>)
    ensures
        built(r, full_no_data_model()),
{
    EventEnvelope::new(full_draft(false))
}

/// An event with every attribute and a JSON payload.
pub fn full_json_data() -> (r: Result<EventEnvelope, CodecError>)
    ensures
        built(r, full_json_data_model()),
{
    let mut d = full_draft(false);
    d.datacontenttype = Some(json_datacontenttype());
    d.dataschema = Some(dataschema());
    d.data = DataPayload::Json(json_data());
    EventEnvelope::new(d)
}

/// An event with a JSON payload whose extensions are all strings, as a
/// transport of string attributes hands it over.
pub fn full_json_data_string_extension() -> (r: Result<EventEnvelope, CodecError>)
    ensures
        built(r, full_json_data_string_extension_model()),
{
    let mut d = full_draft(true);
    d.datacontenttype = Some(json_datacontenttype());
    d.data = DataPayload::Json(json_data());
    EventEnvelope::new(d)
}

/// The same event with the JSON text as a payload of bytes.
pub fn full_binary_json_data_string_extension() -> (r: Result<EventEnvelope, CodecError>)
    ensures
        built(r, full_binary_json_data_string_extension_model()),
{
    let mut d = full_draft(true);
    d.datacontenttype = Some(json_datacontenttype());
    d.data = DataPayload::Binary(json_data_binary());
    EventEnvelope::new(d)
}

/// The event of [`full_json_data`] after its payload was replaced, with
/// no look at the content type, by the bytes of `hello world`, which are
/// no JSON.
pub fn full_non_json_data() -> (r: Result<EventEnvelope, CodecError>)
    ensures
        match r {
            Ok(e) => build_model(full_json_data_model()) is Ok && e@ == full_non_json_data_model(),
            Err(x) => build_model(full_json_data_model()) == Err::<EnvelopeModel, CodecErrorModel>(
                x@,
            ),
        },
{
    match full_json_data() {
        Err(x) => Err(x),
        Ok(event) => {
            let mut event = event;
            let text = base64_encode("hello world".as_bytes());
            match base64_decode(text.as_str()) {
                Some(bytes) => {
                    event.set_data_unchecked(DataPayload::Binary(bytes));
                },
                None => {
                    assert(false);
                },
            }
            Ok(event)
        },
    }
}

/// An event with every attribute but `dataschema` and a payload of XML
/// text.
pub fn full_xml_string_data() -> (r: Result<EventEnvelope, CodecError>)
    ensures
        built(r, full_xml_string_data_model()),
{
    let mut d = full_draft(false);
    d.datacontenttype = Some(xml_datacontenttype());
    d.data = DataPayload::Text(xml_data());
    EventEnvelope::new(d)
}

/// The same event with the XML text as a payload of bytes.
pub fn full_xml_binary_data() -> (r: Result<EventEnvelope, CodecError>)
    ensures
        built(r, full_xml_binary_data_model()),
{
    let mut d = full_draft(false);
    d.datacontenttype = Some(xml_datacontenttype());
    d.data = DataPayload::Binary(xml_data().as_str().as_bytes_vec());
    EventEnvelope::new(d)
}

/// The JSON string of a text.
pub open spec fn text(t: Seq<char>) -> JsonModel {
    JsonModel::String(t)
}

/// The members of [`minimal_json`].
pub open spec fn minimal_json_model() -> Seq<(Seq<char>, JsonModel)> {
    seq![
        ("specversion"@, text("1.0"@)),
        ("id"@, text("0001"@)),
        ("type"@, text("test_event.test_application"@)),
        ("source"@, text("http://localhost/"@)),
    ]
}

/// The members of [`full_no_data_json`].
pub open spec fn full_no_data_json_model() -> Seq<(Seq<char>, JsonModel)> {
    minimal_json_model() + seq![
        ("subject"@, text("cloudevents-sdk"@)),
        ("time"@, text("2020-03-16T11:50:00Z"@)),
        ("stringex"@, text("val"@)),
        ("boolex"@, JsonModel::Bool(true)),
        ("intex"@, JsonModel::Number(decimal_text(10))),
    ]
}

/// The members of [`full_json_data_json`].
pub open spec fn full_json_data_json_model() -> Seq<(Seq<char>, JsonModel)> {
    full_no_data_json_model() + seq![
        ("datacontenttype"@, text("application/json"@)),
        ("dataschema"@, text("http://localhost/schema"@)),
        ("data"@, json_data_model()),
    ]
}

/// The members of [`full_json_base64_data_json`].
pub open spec fn full_json_base64_data_json_model() -> Seq<(Seq<char>, JsonModel)> {
    full_no_data_json_model() + seq![
        ("datacontenttype"@, text("application/json"@)),
        ("dataschema"@, text("http://localhost/schema"@)),
        ("data_base64"@, text(base64_text(encode_utf8(json_data_text())))),
    ]
}

/// The members of [`full_non_json_base64_data`].
pub open spec fn full_non_json_base64_data_model() -> Seq<(Seq<char>, JsonModel)> {
    full_no_data_json_model() + seq![
        ("datacontenttype"@, text("application/json"@)),
        ("dataschema"@, text("http://localhost/schema"@)),
        ("data_base64"@, text(base64_text(encode_utf8("hello world"@)))),
    ]
}

/// The members of [`full_xml_string_data_json`].
pub open spec fn full_xml_string_data_json_model() -> Seq<(Seq<char>, JsonModel)> {
    full_no_data_json_model() + seq![
        ("datacontenttype"@, text("application/xml"@)),
        ("data"@, text("<xml data=\"hello\" />"@)),
    ]
}

/// The members of [`full_xml_base64_data_json`].
pub open spec fn full_xml_base64_data_json_model() -> Seq<(Seq<char>, JsonModel)> {
    full_no_data_json_model() + seq![
        ("datacontenttype"@, text("application/xml"@)),
        ("data_base64"@, text(base64_text(encode_utf8("<xml data=\"hello\" />"@)))),
    ]
}

/// Appends a member under a name that the document does not hold yet.
fn member(doc: &mut JsonObject, name: &str, value: JsonValue)
    requires
        forall|i: int| 0 <= i < old(doc)@.len() ==> (#[trigger] old(doc)@[i]).0 != name@,
    ensures
        final(doc)@ == old(doc)@.push((name@, value@)),
{
    proof {
        lemma_lookup_absent(doc@, name@);
    }
    doc.insert(name.to_string(), value);
}

fn string(t: String) -> (r: JsonValue)
    ensures
        r@ == text(t@),
{
    JsonValue::String(t)
}

/// The document of [`minimal`].
pub fn minimal_json() -> (doc: JsonObject)
    ensures
        doc@ == minimal_json_model(),
{
    proof {
        lemma_names();
    }
    let mut doc = JsonObject::new();
    member(&mut doc, "specversion", string("1.0".to_string()));
    member(&mut doc, "id", string(id()));
    member(&mut doc, "type", string(ty()));
    member(&mut doc, "source", string(source()));
    assert(doc@ =~= minimal_json_model());
    doc
}

/// The document of [`full_no_data`].
pub fn full_no_data_json() -> (doc: JsonObject)
    ensures
        doc@ == full_no_data_json_model(),
{
    proof {
        lemma_names();
        lemma_sample_names();
    }
    let s = string_extension();
    let b = bool_extension();
    let i = int_extension();
    let mut doc = minimal_json();
    member(&mut doc, "subject", string(subject()));
    member(&mut doc, "time", string(time().as_str().to_string()));
    member(&mut doc, s.0.as_str(), string(s.1));
    member(&mut doc, b.0.as_str(), JsonValue::Bool(b.1));
    member(&mut doc, i.0.as_str(), JsonValue::Number(decimal_of(i.1)));
    assert(doc@ =~= full_no_data_json_model());
    doc
}

/// The document of [`full_no_data`] with a content type and, where
/// `with_schema`, the sample `dataschema`.
fn described_json(content_type: String, with_schema: bool) -> (doc: JsonObject)
    ensures
        doc@ == full_no_data_json_model() + seq![("datacontenttype"@, text(content_type@))] + if with_schema {
            seq![("dataschema"@, text("http://localhost/schema"@))]
        } else {
            Seq::empty()
        },
        doc@.len() == if with_schema {
            11int
        } else {
            10int
        },
{
    proof {
        lemma_names();
        lemma_sample_names();
    }
    let mut doc = full_no_data_json();
    member(&mut doc, "datacontenttype", string(content_type));
    if with_schema {
        member(&mut doc, "dataschema", string(dataschema()));
    }
    assert(doc@ =~= full_no_data_json_model() + seq![("datacontenttype"@, text(content_type@))] + if with_schema {
        seq![("dataschema"@, text("http://localhost/schema"@))]
    } else {
        Seq::empty()
    });
    doc
}

/// The document of [`full_json_data`].
pub fn full_json_data_json() -> (doc: JsonObject)
    ensures
        doc@ == full_json_data_json_model(),
{
    proof {
        lemma_names();
        lemma_sample_names();
    }
    let mut doc = described_json(json_datacontenttype(), true);
    member(&mut doc, "data", json_data());
    assert(doc@ =~= full_json_data_json_model());
    doc
}

/// A document that carries the JSON text of [`json_data`] as base64.
pub fn full_json_base64_data_json() -> (doc: JsonObject)
    ensures
        doc@ == full_json_base64_data_json_model(),
{
    proof {
        lemma_names();
        lemma_sample_names();
    }
    let mut doc = described_json(json_datacontenttype(), true);
    member(&mut doc, "data_base64", string(base64_encode(json_data_binary().as_slice())));
    assert(doc@ =~= full_json_base64_data_json_model());
    doc
}

/// The document of [`full_non_json_data`].
pub fn full_non_json_base64_data() -> (doc: JsonObject)
    ensures
        doc@ == full_non_json_base64_data_model(),
{
    proof {
        lemma_names();
        lemma_sample_names();
    }
    let mut doc = described_json(json_datacontenttype(), true);
    member(&mut doc, "data_base64", string(base64_encode("hello world".as_bytes())));
    assert(doc@ =~= full_non_json_base64_data_model());
    doc
}

/// The document of [`full_xml_string_data`].
pub fn full_xml_string_data_json() -> (doc: JsonObject)
    ensures
        doc@ == full_xml_string_data_json_model(),
{
    proof {
        lemma_names();
        lemma_sample_names();
    }
    let mut doc = described_json(xml_datacontenttype(), false);
    member(&mut doc, "data", string(xml_data()));
    assert(doc@ =~= full_xml_string_data_json_model());
    doc
}

/// A document that carries the XML text of [`xml_data`] as base64.
pub fn full_xml_base64_data_json() -> (doc: JsonObject)
    ensures
        doc@ == full_xml_base64_data_json_model(),
{
    proof {
        lemma_names();
        lemma_sample_names();
    }
    let mut doc = described_json(xml_datacontenttype(), false);
    member(&mut doc, "data_base64", string(base64_encode(xml_data().as_str().as_bytes())));
    assert(doc@ =~= full_xml_base64_data_json_model());
    doc
}

} // verus!
