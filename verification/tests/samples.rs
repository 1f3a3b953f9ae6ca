use cloudevents::codec::{deserialize, serialize};
use cloudevents::envelope::EventEnvelope;
use cloudevents::extension::ExtensionValue;
use cloudevents::fixtures::{
    bool_extension, dataschema, full_binary_json_data_string_extension, full_json_base64_data_json, full_json_data,
    full_json_data_json, full_json_data_string_extension, full_no_data, full_no_data_json, full_non_json_base64_data,
    full_non_json_data, full_xml_base64_data_json, full_xml_binary_data, full_xml_string_data,
    full_xml_string_data_json, id, int_extension, json_data, json_data_binary, json_datacontenttype, minimal,
    minimal_json, minimal_string_extension, source, string_extension, subject, time, ty, xml_data,
    xml_datacontenttype,
};
use cloudevents::json::{JsonObject, JsonValue};
use cloudevents::payload::DataPayload;
use cloudevents::version::SpecVersion;

fn text(s: &str) -> JsonValue {
    JsonValue::String(s.to_string())
}

fn with_payload(e: EventEnvelope, data: DataPayload) -> EventEnvelope {
    let mut d = e.into_draft();
    d.data = data;
    EventEnvelope::new(d).unwrap()
}

#[test]
fn sample_values() {
    assert_eq!(id(), "0001");
    assert_eq!(ty(), "test_event.test_application");
    assert_eq!(source(), "http://localhost/");
    assert_eq!(subject(), "cloudevents-sdk");
    assert_eq!(time().as_str(), "2020-03-16T11:50:00Z");
    assert_eq!(json_datacontenttype(), "application/json");
    assert_eq!(xml_datacontenttype(), "application/xml");
    assert_eq!(dataschema(), "http://localhost/schema");
    assert_eq!(xml_data(), "<xml data=\"hello\" />");
    assert_eq!(json_data_binary(), b"{\"hello\":\"world\"}".to_vec());
    assert_eq!(string_extension(), ("stringex".to_string(), "val".to_string()));
    assert_eq!(bool_extension(), ("boolex".to_string(), true));
    assert_eq!(int_extension(), ("intex".to_string(), 10));
    let mut o = JsonObject::new();
    o.insert("hello".to_string(), text("world"));
    assert_eq!(json_data(), JsonValue::Object(o));
}

#[test]
fn minimal_sample() {
    let e = minimal().unwrap();
    let d = e.draft();
    assert_eq!(d.id, "0001");
    assert_eq!(d.source, "http://localhost/");
    assert_eq!(d.ty, "test_event.test_application");
    assert_eq!(d.specversion, SpecVersion::V1_0);
    assert_eq!(d.subject, None);
    assert_eq!(d.extensions.len(), 0);
    assert_eq!(d.data, DataPayload::Empty);
    assert_eq!(serialize(&e), minimal_json());
    assert_eq!(deserialize(&minimal_json()), Ok(e));
    assert_eq!(minimal_json().len(), 4);
}

#[test]
fn minimal_string_extension_sample() {
    let e = minimal_string_extension().unwrap();
    assert_eq!(e.draft().extensions.len(), 1);
    assert_eq!(e.draft().extensions.get("someint"), Some(&ExtensionValue::String("10".to_string())));
    let doc = serialize(&e);
    assert_eq!(doc.get("someint"), Some(&text("10")));
    assert_eq!(deserialize(&doc), Ok(e));
}

#[test]
fn full_no_data_sample() {
    let e = full_no_data().unwrap();
    let d = e.draft();
    assert_eq!(d.subject, Some("cloudevents-sdk".to_string()));
    assert_eq!(d.time, Some(time()));
    assert_eq!(d.extensions.get("stringex"), Some(&ExtensionValue::String("val".to_string())));
    assert_eq!(d.extensions.get("boolex"), Some(&ExtensionValue::Boolean(true)));
    assert_eq!(d.extensions.get("intex"), Some(&ExtensionValue::Integer(10)));
    assert_eq!(serialize(&e), full_no_data_json());
    assert_eq!(deserialize(&full_no_data_json()), Ok(e));
    assert_eq!(full_no_data_json().get("intex"), Some(&JsonValue::Number("10".to_string())));
    assert_eq!(full_no_data_json().len(), 9);
}

#[test]
fn full_json_data_sample() {
    let e = full_json_data().unwrap();
    assert_eq!(e.draft().data, DataPayload::Json(json_data()));
    assert_eq!(e.draft().dataschema, Some("http://localhost/schema".to_string()));
    assert_eq!(serialize(&e), full_json_data_json());
    assert_eq!(deserialize(&full_json_data_json()), Ok(e));
    assert_eq!(full_json_data_json().len(), 12);
    assert_eq!(full_json_data_json().entry(11).map(|m| m.0.as_str()), Some("data"));
}

#[test]
fn full_json_base64_sample() {
    let doc = full_json_base64_data_json();
    assert_eq!(doc.get("data_base64"), Some(&text("eyJoZWxsbyI6IndvcmxkIn0=")));
    let expected = with_payload(full_json_data().unwrap(), DataPayload::Binary(json_data_binary()));
    assert_eq!(deserialize(&doc), Ok(expected));
}

#[test]
fn full_non_json_sample() {
    let e = full_non_json_data().unwrap();
    assert_eq!(e.draft().data, DataPayload::Binary(b"hello world".to_vec()));
    assert_eq!(e.draft().datacontenttype, Some("application/json".to_string()));
    let doc = full_non_json_base64_data();
    assert_eq!(doc.get("data_base64"), Some(&text("aGVsbG8gd29ybGQ=")));
    assert_eq!(serialize(&e), doc);
    assert_eq!(deserialize(&doc), Ok(e));
}

#[test]
fn full_xml_string_sample() {
    let e = full_xml_string_data().unwrap();
    assert_eq!(e.draft().data, DataPayload::Text("<xml data=\"hello\" />".to_string()));
    assert_eq!(e.draft().dataschema, None);
    assert_eq!(serialize(&e), full_xml_string_data_json());
    assert_eq!(deserialize(&full_xml_string_data_json()), Ok(e));
}

#[test]
fn full_xml_binary_sample() {
    let e = full_xml_binary_data().unwrap();
    assert_eq!(e.draft().data, DataPayload::Binary(b"<xml data=\"hello\" />".to_vec()));
    assert_eq!(serialize(&e), full_xml_string_data_json());
    let doc = full_xml_base64_data_json();
    assert_eq!(doc.get("data_base64"), Some(&text("PHhtbCBkYXRhPSJoZWxsbyIgLz4=")));
    assert_eq!(deserialize(&doc), Ok(e));
}

#[test]
fn string_extension_samples() {
    let e = full_json_data_string_extension().unwrap();
    assert_eq!(e.draft().extensions.get("boolex"), Some(&ExtensionValue::String("true".to_string())));
    assert_eq!(e.draft().extensions.get("intex"), Some(&ExtensionValue::String("10".to_string())));
    assert_eq!(e.draft().data, DataPayload::Json(json_data()));
    assert_eq!(e.draft().dataschema, None);
    let b = full_binary_json_data_string_extension().unwrap();
    assert_eq!(b.draft().data, DataPayload::Binary(json_data_binary()));
    assert_eq!(b.draft().extensions, e.draft().extensions);
    assert_eq!(serialize(&b), serialize(&e));
    assert_eq!(deserialize(&serialize(&e)), Ok(e));
}
