use cloudevents::binary::{body_of, from_binary, read_message, to_binary, BinaryMessage, HeaderMap};
use cloudevents::envelope::{EnvelopeDraft, EventEnvelope};
use cloudevents::error::{CodecError, CoreAttribute};
use cloudevents::extension::{ExtensionMap, ExtensionValue};
use cloudevents::fixtures::{
    full_binary_json_data_string_extension, full_json_data, full_json_data_string_extension, full_no_data,
    full_xml_string_data, json_data, minimal, minimal_string_extension,
};
use cloudevents::json::JsonValue;
use cloudevents::payload::DataPayload;
use cloudevents::version::SpecVersion;

fn headers(entries: Vec<(&str, &str)>) -> HeaderMap {
    let mut h = HeaderMap::new();
    for (k, v) in entries {
        h.insert(k.to_string(), v.to_string());
    }
    h
}

fn listed(h: &HeaderMap) -> Vec<(String, String)> {
    let mut out = vec![];
    let mut i = 0;
    while let Some(e) = h.entry(i) {
        out.push((e.0.clone(), e.1.clone()));
        i += 1;
    }
    out
}

fn pairs(entries: Vec<(&str, &str)>) -> Vec<(String, String)> {
    entries.into_iter().map(|(k, v)| (k.to_string(), v.to_string())).collect()
}

#[test]
fn minimal_message() {
    let m = to_binary(&minimal().unwrap()).unwrap();
    assert_eq!(
        listed(&m.headers),
        pairs(vec![
            ("ce-specversion", "1.0"),
            ("ce-id", "0001"),
            ("ce-type", "test_event.test_application"),
            ("ce-source", "http://localhost/"),
        ])
    );
    assert!(m.body.is_empty());
    assert_eq!(from_binary(&m), Ok(minimal().unwrap()));
}

#[test]
fn full_message_with_json_body() {
    let m = to_binary(&full_json_data().unwrap()).unwrap();
    assert_eq!(
        listed(&m.headers),
        pairs(vec![
            ("ce-specversion", "1.0"),
            ("ce-id", "0001"),
            ("ce-type", "test_event.test_application"),
            ("ce-source", "http://localhost/"),
            ("ce-subject", "cloudevents-sdk"),
            ("ce-time", "2020-03-16T11:50:00Z"),
            ("ce-stringex", "val"),
            ("ce-boolex", "true"),
            ("ce-intex", "10"),
            ("content-type", "application/json"),
            ("ce-dataschema", "http://localhost/schema"),
        ])
    );
    assert_eq!(m.body, b"{\"hello\":\"world\"}".to_vec());
}

#[test]
fn message_comes_back_with_string_extensions_and_bytes() {
    let m = to_binary(&full_json_data_string_extension().unwrap()).unwrap();
    assert_eq!(from_binary(&m), Ok(full_binary_json_data_string_extension().unwrap()));
    let typed = {
        let mut d = full_json_data().unwrap().into_draft();
        d.dataschema = None;
        EventEnvelope::new(d).unwrap()
    };
    assert_eq!(from_binary(&to_binary(&typed).unwrap()), Ok(full_binary_json_data_string_extension().unwrap()));
}

#[test]
fn string_extension_from_a_header() {
    let m = BinaryMessage {
        headers: headers(vec![
            ("ce-specversion", "1.0"),
            ("ce-id", "0001"),
            ("ce-type", "test_event.test_application"),
            ("ce-source", "http://localhost/"),
            ("ce-someint", "10"),
        ]),
        body: vec![],
    };
    assert_eq!(from_binary(&m), Ok(minimal_string_extension().unwrap()));
}

#[test]
fn bodies_of_payloads() {
    assert_eq!(body_of(&DataPayload::Empty), Some(vec![]));
    assert_eq!(body_of(&DataPayload::Text("grüß".to_string())), Some("grüß".as_bytes().to_vec()));
    assert_eq!(body_of(&DataPayload::Binary(vec![0, 255])), Some(vec![0, 255]));
    assert_eq!(body_of(&DataPayload::Json(json_data())), Some(b"{\"hello\":\"world\"}".to_vec()));
    assert_eq!(body_of(&DataPayload::Json(JsonValue::Number("1.0".to_string()))), Some(b"1.0".to_vec()));
    assert_eq!(body_of(&DataPayload::Json(JsonValue::Number("x".to_string()))), None);
}

#[test]
fn payload_without_a_body_is_an_error() {
    let mut e = minimal().unwrap();
    e.set_data_unchecked(DataPayload::Json(JsonValue::Array(vec![JsonValue::Number("--1".to_string())])));
    assert_eq!(to_binary(&e), Err(CodecError::DataEncodingError));
}

#[test]
fn text_body_is_taken_byte_for_byte() {
    let e = full_xml_string_data().unwrap();
    let m = to_binary(&e).unwrap();
    assert_eq!(m.body, b"<xml data=\"hello\" />".to_vec());
    assert_eq!(m.headers.get("content-type"), Some(&"application/xml".to_string()));
    assert_eq!(m.headers.get("ce-dataschema"), None);
    assert_eq!(m.headers.get("ce-datacontenttype"), None);
    let back = from_binary(&m).unwrap();
    assert_eq!(back.draft().data, DataPayload::Binary(b"<xml data=\"hello\" />".to_vec()));
    assert_eq!(back.draft().extensions.get("boolex"), Some(&ExtensionValue::String("true".to_string())));
}

#[test]
fn headers_that_are_no_attributes_are_left_out() {
    let m = BinaryMessage {
        headers: headers(vec![
            ("host", "example.com"),
            ("ce-specversion", "1.0"),
            ("ce-id", "1"),
            ("content-length", "3"),
            ("ce-type", "t"),
            ("ce-source", "/s"),
            ("CE-upper", "x"),
            ("ce-data", "x"),
            ("ce-ext", "true"),
            ("content-type", "image/png"),
        ]),
        body: vec![1, 2, 3],
    };
    let e = from_binary(&m).unwrap();
    let mut x = ExtensionMap::new();
    x.insert("ext".to_string(), ExtensionValue::String("true".to_string()));
    assert_eq!(
        e.into_draft(),
        EnvelopeDraft {
            id: "1".to_string(),
            source: "/s".to_string(),
            ty: "t".to_string(),
            specversion: SpecVersion::V1_0,
            subject: None,
            time: None,
            datacontenttype: Some("image/png".to_string()),
            dataschema: None,
            extensions: x,
            data: DataPayload::Binary(vec![1, 2, 3]),
        }
    );
}

#[test]
fn messages_that_hold_no_event() {
    let without = |name: &str| {
        let all = vec![("ce-specversion", "1.0"), ("ce-id", "1"), ("ce-type", "t"), ("ce-source", "/s")];
        BinaryMessage { headers: headers(all.into_iter().filter(|e| e.0 != name).collect()), body: vec![] }
    };
    assert_eq!(from_binary(&without("ce-specversion")), Err(CodecError::MissingRequiredAttribute(CoreAttribute::SpecVersion)));
    assert_eq!(from_binary(&without("ce-id")), Err(CodecError::MissingRequiredAttribute(CoreAttribute::Id)));
    assert_eq!(from_binary(&without("ce-type")), Err(CodecError::MissingRequiredAttribute(CoreAttribute::Type)));
    assert_eq!(from_binary(&without("ce-source")), Err(CodecError::MissingRequiredAttribute(CoreAttribute::Source)));
    let m = BinaryMessage { headers: headers(vec![("ce-specversion", "3")]), body: vec![] };
    assert_eq!(from_binary(&m), Err(CodecError::UnsupportedSpecVersion("3".to_string())));
    let m = BinaryMessage {
        headers: headers(vec![("ce-specversion", "1.0"), ("ce-id", "1"), ("ce-type", "t"), ("ce-source", "/s"), ("ce-Ext", "v")]),
        body: vec![],
    };
    assert_eq!(read_message(&m).map(|d| d.extensions.len()), Ok(1));
    assert_eq!(from_binary(&m), Err(CodecError::InvalidExtensionName("Ext".to_string())));
    let m = BinaryMessage {
        headers: headers(vec![("ce-specversion", "1.0"), ("ce-id", "1"), ("ce-type", "t"), ("ce-source", "/s"), ("ce-time", "noon")]),
        body: vec![],
    };
    assert_eq!(from_binary(&m), Err(CodecError::InvalidExtensionValueType("ce-time".to_string())));
    let m = BinaryMessage {
        headers: headers(vec![("ce-specversion", "1.0"), ("ce-id", ""), ("ce-type", "t"), ("ce-source", "/s")]),
        body: vec![],
    };
    assert_eq!(from_binary(&m), Err(CodecError::MissingRequiredAttribute(CoreAttribute::Id)));
}

#[test]
fn message_of_version_zero_three() {
    let m = BinaryMessage {
        headers: headers(vec![
            ("ce-specversion", "0.3"),
            ("ce-id", "1"),
            ("ce-eventType", "t"),
            ("ce-source", "/s"),
            ("ce-eventTime", "2020-03-16T11:50:00Z"),
        ]),
        body: vec![],
    };
    let e = from_binary(&m).unwrap();
    assert_eq!(e.draft().specversion, SpecVersion::V0_3);
    assert_eq!(e.draft().ty, "t");
    assert_eq!(e.draft().time.as_ref().map(|t| t.as_str()), Some("2020-03-16T11:50:00Z"));
    assert_eq!(listed(&to_binary(&e).unwrap().headers), listed(&m.headers));
}

#[test]
fn no_data_message_has_typed_values_as_strings() {
    let m = to_binary(&full_no_data().unwrap()).unwrap();
    assert_eq!(m.headers.get("ce-boolex"), Some(&"true".to_string()));
    assert_eq!(m.headers.get("ce-intex"), Some(&"10".to_string()));
    assert_eq!(m.headers.get("ce-stringex"), Some(&"val".to_string()));
    assert_eq!(m.headers.len(), 9);
    assert!(m.body.is_empty());
}
