use cloudevents::bridge::{parse_json, render_json};
use cloudevents::content_type::{class_of, ContentClass};
use cloudevents::error::CodecError;
use cloudevents::json::{JsonObject, JsonValue};
use cloudevents::payload::{
    after_parse, base64_form, carrier, check_shape, copy_bytes, payload_of_wire, wire_form, Carrier, DataPayload,
    WireData,
};

fn text(s: &str) -> JsonValue {
    JsonValue::String(s.to_string())
}

fn class(ct: &str) -> ContentClass {
    class_of(&Some(ct.to_string()))
}

fn object_a1() -> JsonValue {
    let mut o = JsonObject::new();
    o.insert("a".to_string(), JsonValue::Number("1".to_string()));
    JsonValue::Object(o)
}

#[test]
fn content_types_are_classified() {
    assert_eq!(class_of(&None), ContentClass::Absent);
    assert_eq!(class("application/json"), ContentClass::Json);
    assert_eq!(class("application/json; charset=utf-8"), ContentClass::Json);
    assert_eq!(class("text/json"), ContentClass::Json);
    assert_eq!(class("application/cloudevents+json"), ContentClass::Json);
    assert_eq!(class("text/plain"), ContentClass::Textual);
    assert_eq!(class("text/"), ContentClass::Textual);
    assert_eq!(class("application/xml"), ContentClass::Textual);
    assert_eq!(class("application/xml; charset=utf-8"), ContentClass::Textual);
    assert_eq!(class("application/octet-stream"), ContentClass::Opaque);
    assert_eq!(class("image/png"), ContentClass::Opaque);
    assert_eq!(class(""), ContentClass::Opaque);
    assert_eq!(class("Application/JSON"), ContentClass::Opaque);
    assert_eq!(class("text"), ContentClass::Opaque);
}

#[test]
fn empty_payload_is_carried_by_nothing() {
    for c in [ContentClass::Absent, ContentClass::Json, ContentClass::Textual, ContentClass::Opaque] {
        assert_eq!(carrier(c, &DataPayload::Empty), Carrier::Absent);
        assert_eq!(wire_form(c, &DataPayload::Empty), WireData::Absent);
    }
}

#[test]
fn json_payload_is_always_inline() {
    for c in [ContentClass::Absent, ContentClass::Json, ContentClass::Textual, ContentClass::Opaque] {
        assert_eq!(carrier(c, &DataPayload::Json(object_a1())), Carrier::Inline(object_a1()));
        assert_eq!(wire_form(c, &DataPayload::Json(object_a1())), WireData::Data(object_a1()));
        assert_eq!(wire_form(c, &DataPayload::Json(text("s"))), WireData::Data(text("s")));
        assert_eq!(wire_form(c, &DataPayload::Json(JsonValue::Null)), WireData::Data(JsonValue::Null));
    }
}

#[test]
fn text_payload_follows_the_content_type() {
    let p = DataPayload::Text("<note>hi</note>".to_string());
    assert_eq!(carrier(ContentClass::Absent, &p), Carrier::Inline(text("<note>hi</note>")));
    assert_eq!(carrier(ContentClass::Textual, &p), Carrier::Inline(text("<note>hi</note>")));
    assert_eq!(carrier(ContentClass::Json, &p), Carrier::JsonText("<note>hi</note>".to_string()));
    assert_eq!(carrier(ContentClass::Opaque, &p), Carrier::Opaque);
    assert_eq!(wire_form(class("application/xml"), &p), WireData::Data(text("<note>hi</note>")));
    assert_eq!(wire_form(ContentClass::Opaque, &p), WireData::Base64("PG5vdGU+aGk8L25vdGU+".to_string()));
    assert_eq!(wire_form(ContentClass::Json, &p), WireData::Base64("PG5vdGU+aGk8L25vdGU+".to_string()));
}

#[test]
fn text_that_is_json_goes_inline_as_json() {
    let p = DataPayload::Text("{\"a\":1}".to_string());
    assert_eq!(wire_form(ContentClass::Json, &p), WireData::Data(object_a1()));
    assert_eq!(wire_form(ContentClass::Textual, &p), WireData::Data(text("{\"a\":1}")));
}

#[test]
fn bytes_follow_content_type_and_shape() {
    let hello = DataPayload::Binary(b"hello world".to_vec());
    assert_eq!(carrier(ContentClass::Absent, &hello), Carrier::Opaque);
    assert_eq!(carrier(ContentClass::Opaque, &hello), Carrier::Opaque);
    assert_eq!(carrier(ContentClass::Textual, &hello), Carrier::Inline(text("hello world")));
    assert_eq!(carrier(ContentClass::Json, &hello), Carrier::JsonText("hello world".to_string()));
    let broken = DataPayload::Binary(vec![0x68, 0x69, 0xff]);
    for c in [ContentClass::Absent, ContentClass::Json, ContentClass::Textual, ContentClass::Opaque] {
        assert_eq!(carrier(c, &broken), Carrier::Opaque);
        assert_eq!(wire_form(c, &broken), WireData::Base64("aGn/".to_string()));
    }
}

#[test]
fn hello_world_as_base64() {
    let hello = DataPayload::Binary(b"hello world".to_vec());
    let wire = wire_form(class("application/octet-stream"), &hello);
    assert_eq!(wire, WireData::Base64("aGVsbG8gd29ybGQ=".to_string()));
    assert_eq!(wire_form(ContentClass::Json, &hello), WireData::Base64("aGVsbG8gd29ybGQ=".to_string()));
    assert_eq!(wire_form(ContentClass::Absent, &hello), WireData::Base64("aGVsbG8gd29ybGQ=".to_string()));
    assert_eq!(base64_form(&hello), WireData::Base64("aGVsbG8gd29ybGQ=".to_string()));
    assert_eq!(base64_form(&DataPayload::Empty), WireData::Base64("".to_string()));
}

#[test]
fn bytes_that_are_json_go_inline() {
    let p = DataPayload::Binary(b"{\"a\":1}".to_vec());
    assert_eq!(wire_form(ContentClass::Json, &p), WireData::Data(object_a1()));
    assert_eq!(wire_form(ContentClass::Textual, &p), WireData::Data(text("{\"a\":1}")));
    assert_eq!(wire_form(ContentClass::Opaque, &p), WireData::Base64("eyJhIjoxfQ==".to_string()));
}

#[test]
fn after_parse_takes_the_parse_as_given() {
    let p = DataPayload::Binary(b"hello world".to_vec());
    assert_eq!(after_parse(Some(JsonValue::Bool(true)), &p), WireData::Data(JsonValue::Bool(true)));
    assert_eq!(after_parse(None, &p), WireData::Base64("aGVsbG8gd29ybGQ=".to_string()));
}

#[test]
fn payload_is_read_from_its_wire_form() {
    assert_eq!(payload_of_wire(ContentClass::Json, WireData::Absent, None), Ok(DataPayload::Empty));
    assert_eq!(
        payload_of_wire(ContentClass::Absent, WireData::Data(text("s")), None),
        Ok(DataPayload::Text("s".to_string()))
    );
    assert_eq!(
        payload_of_wire(ContentClass::Textual, WireData::Data(text("s")), None),
        Ok(DataPayload::Text("s".to_string()))
    );
    assert_eq!(payload_of_wire(ContentClass::Json, WireData::Data(text("s")), None), Ok(DataPayload::Json(text("s"))));
    assert_eq!(
        payload_of_wire(ContentClass::Opaque, WireData::Data(text("s")), None),
        Ok(DataPayload::Json(text("s")))
    );
    assert_eq!(
        payload_of_wire(ContentClass::Absent, WireData::Data(JsonValue::Null), None),
        Ok(DataPayload::Json(JsonValue::Null))
    );
    assert_eq!(
        payload_of_wire(ContentClass::Textual, WireData::Data(object_a1()), Some(vec![1])),
        Ok(DataPayload::Json(object_a1()))
    );
    assert_eq!(
        payload_of_wire(ContentClass::Json, WireData::Base64("AQI=".to_string()), Some(vec![1, 2])),
        Ok(DataPayload::Binary(vec![1, 2]))
    );
    assert_eq!(
        payload_of_wire(ContentClass::Json, WireData::Base64("!".to_string()), None),
        Err(CodecError::InvalidBase64Payload)
    );
}

#[test]
fn text_from_bytes_wants_utf8() {
    assert_eq!(DataPayload::text_from_bytes(b"gr\xc3\xbc\xc3\x9f"), Ok(DataPayload::Text("grüß".to_string())));
    assert_eq!(DataPayload::text_from_bytes(b""), Ok(DataPayload::Text("".to_string())));
    assert_eq!(DataPayload::text_from_bytes(&[0xc3]), Err(CodecError::DataEncodingError));
    assert_eq!(DataPayload::text_from_bytes(&[0xff, 0xfe]), Err(CodecError::DataEncodingError));
}

#[test]
fn shape_check_wants_declared_json_to_parse() {
    assert!(check_shape(ContentClass::Json, &DataPayload::Text("{\"a\":1}".to_string())));
    assert!(check_shape(ContentClass::Json, &DataPayload::Text("\"\"".to_string())));
    assert!(!check_shape(ContentClass::Json, &DataPayload::Text("".to_string())));
    assert!(!check_shape(ContentClass::Json, &DataPayload::Text("{".to_string())));
    assert!(check_shape(ContentClass::Textual, &DataPayload::Text("{".to_string())));
    assert!(check_shape(ContentClass::Opaque, &DataPayload::Text("{".to_string())));
    assert!(check_shape(ContentClass::Absent, &DataPayload::Text("{".to_string())));
    assert!(check_shape(ContentClass::Json, &DataPayload::Binary(b"{".to_vec())));
    assert!(check_shape(ContentClass::Json, &DataPayload::Empty));
}

#[test]
fn json_text_is_parsed() {
    let mut o = JsonObject::new();
    o.insert("a".to_string(), JsonValue::Array(vec![JsonValue::Number("1".to_string()), JsonValue::Null]));
    o.insert("b".to_string(), JsonValue::Number("-2.5".to_string()));
    o.insert("c".to_string(), text("x\ny"));
    assert_eq!(parse_json("{\"c\":\"x\\ny\",\"a\":[1,null],\"b\":-2.5}"), Some(JsonValue::Object(o)));
    assert_eq!(parse_json("true"), Some(JsonValue::Bool(true)));
    assert_eq!(parse_json("\"true\""), Some(text("true")));
    assert_eq!(parse_json("18446744073709551615"), Some(JsonValue::Number("18446744073709551615".to_string())));
    assert_eq!(parse_json(""), None);
    assert_eq!(parse_json("{\"a\":}"), None);
    assert_eq!(parse_json("hello world"), None);
}

#[test]
fn json_values_are_rendered() {
    assert_eq!(render_json(&object_a1()), Some("{\"a\":1}".to_string()));
    assert_eq!(render_json(&text("a\"b")), Some("\"a\\\"b\"".to_string()));
    assert_eq!(
        render_json(&JsonValue::Array(vec![JsonValue::Null, JsonValue::Bool(false), JsonValue::Number("-7".to_string())])),
        Some("[null,false,-7]".to_string())
    );
    assert_eq!(render_json(&JsonValue::Number("one".to_string())), None);
    assert_eq!(render_json(&JsonValue::Array(vec![JsonValue::Number("".to_string())])), None);
}

#[test]
fn duplicate_keeps_every_payload() {
    let all = vec![
        DataPayload::Empty,
        DataPayload::Json(object_a1()),
        DataPayload::Text("t".to_string()),
        DataPayload::Binary(vec![0, 255]),
    ];
    for p in all {
        assert_eq!(p.duplicate(), p);
    }
    assert_eq!(copy_bytes(&[1, 2, 3]), vec![1, 2, 3]);
}
