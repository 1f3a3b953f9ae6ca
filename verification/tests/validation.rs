use cloudevents::bridge::UrlSyntax;
use cloudevents::envelope::{core_name, extension_name_ok, validate, validate_with, EnvelopeDraft, EventEnvelope};
use cloudevents::error::{AttributeError, CodecError, CoreAttribute};
use cloudevents::extension::{duplicate_extensions, ExtensionMap, ExtensionValue};
use cloudevents::payload::DataPayload;
use cloudevents::timestamp::Timestamp;
use cloudevents::version::SpecVersion;

fn draft(id: &str, source: &str, ty: &str) -> EnvelopeDraft {
    EnvelopeDraft {
        id: id.to_string(),
        source: source.to_string(),
        ty: ty.to_string(),
        specversion: SpecVersion::V1_0,
        subject: None,
        time: None,
        datacontenttype: None,
        dataschema: None,
        extensions: ExtensionMap::new(),
        data: DataPayload::Empty,
    }
}

fn with_extension(name: &str) -> EnvelopeDraft {
    let mut d = draft("1", "/s", "t");
    d.extensions.insert(name.to_string(), ExtensionValue::Boolean(true));
    d
}

#[test]
fn valid_draft_passes() {
    assert_eq!(validate(&draft("A234-1234-1234", "/source", "example.type")), Ok(()));
    assert_eq!(validate(&draft("1", "https://example.com/a?b#c", "t")), Ok(()));
    assert_eq!(validate(&draft("1", "urn:uuid:6e8bc430-9c3a-11d9-9669-0800200c9a66", "t")), Ok(()));
}

#[test]
fn empty_required_attributes_are_missing() {
    assert_eq!(validate(&draft("", "/s", "t")), Err(AttributeError::MissingRequiredAttribute(CoreAttribute::Id)));
    assert_eq!(validate(&draft("1", "", "t")), Err(AttributeError::MissingRequiredAttribute(CoreAttribute::Source)));
    assert_eq!(validate(&draft("1", "/s", "")), Err(AttributeError::MissingRequiredAttribute(CoreAttribute::Type)));
    assert_eq!(validate(&draft("", "", "")), Err(AttributeError::MissingRequiredAttribute(CoreAttribute::Id)));
}

#[test]
fn malformed_source_is_no_uri() {
    assert_eq!(
        validate(&draft("1", "http://[::1", "t")),
        Err(AttributeError::InvalidUri(CoreAttribute::Source, "http://[::1".to_string()))
    );
    assert_eq!(
        validate(&draft("1", "http://exa mple.com/", "t")),
        Err(AttributeError::InvalidUri(CoreAttribute::Source, "http://exa mple.com/".to_string()))
    );
}

#[test]
fn dataschema_has_to_be_absolute() {
    let mut d = draft("1", "/s", "t");
    d.dataschema = Some("http://localhost/schema".to_string());
    assert_eq!(validate(&d), Ok(()));
    d.dataschema = Some("schema.json".to_string());
    assert_eq!(validate(&d), Err(AttributeError::InvalidUri(CoreAttribute::DataSchema, "schema.json".to_string())));
    d.dataschema = Some("http://[bad".to_string());
    assert_eq!(validate(&d), Err(AttributeError::InvalidUri(CoreAttribute::DataSchema, "http://[bad".to_string())));
    d.dataschema = Some("".to_string());
    assert_eq!(validate(&d), Err(AttributeError::InvalidUri(CoreAttribute::DataSchema, "".to_string())));
}

#[test]
fn extension_names_are_checked() {
    assert_eq!(validate(&with_extension("abc123")), Ok(()));
    assert_eq!(validate(&with_extension("")), Err(AttributeError::InvalidExtensionName("".to_string())));
    assert_eq!(validate(&with_extension("Abc")), Err(AttributeError::InvalidExtensionName("Abc".to_string())));
    assert_eq!(validate(&with_extension("string_ex")), Err(AttributeError::InvalidExtensionName("string_ex".to_string())));
    assert_eq!(validate(&with_extension("a-b")), Err(AttributeError::InvalidExtensionName("a-b".to_string())));
    assert_eq!(validate(&with_extension("é")), Err(AttributeError::InvalidExtensionName("é".to_string())));
}

#[test]
fn extension_names_collide_with_core_names() {
    let names = ["id", "source", "type", "specversion", "subject", "time", "datacontenttype", "dataschema", "data", "data_base64"];
    for name in names {
        assert!(core_name(name));
        assert!(!extension_name_ok(name));
        assert_eq!(validate(&with_extension(name)), Err(AttributeError::InvalidExtensionName(name.to_string())));
    }
    assert!(!core_name("datab"));
    assert!(extension_name_ok("datab"));
    assert!(extension_name_ok("database64"));
}

#[test]
fn first_invalid_extension_is_reported() {
    let mut d = draft("1", "/s", "t");
    d.extensions.insert("ok".to_string(), ExtensionValue::Integer(1));
    d.extensions.insert("Bad".to_string(), ExtensionValue::Integer(2));
    d.extensions.insert("worse!".to_string(), ExtensionValue::Integer(3));
    assert_eq!(validate(&d), Err(AttributeError::InvalidExtensionName("Bad".to_string())));
}

#[test]
fn checks_come_in_order() {
    let mut d = with_extension("Bad");
    d.source = "http://[::1".to_string();
    d.dataschema = Some("x".to_string());
    assert_eq!(validate(&d), Err(AttributeError::InvalidUri(CoreAttribute::Source, "http://[::1".to_string())));
    d.source = "/s".to_string();
    assert_eq!(validate(&d), Err(AttributeError::InvalidUri(CoreAttribute::DataSchema, "x".to_string())));
    d.dataschema = None;
    assert_eq!(validate(&d), Err(AttributeError::InvalidExtensionName("Bad".to_string())));
    d.ty = "".to_string();
    assert_eq!(validate(&d), Err(AttributeError::MissingRequiredAttribute(CoreAttribute::Type)));
}

#[test]
fn validate_with_takes_the_syntax_as_given() {
    let mut d = draft("1", "anything", "t");
    assert_eq!(validate_with(&d, UrlSyntax::Absolute, None), Ok(()));
    assert_eq!(validate_with(&d, UrlSyntax::Relative, None), Ok(()));
    assert_eq!(
        validate_with(&d, UrlSyntax::Malformed, None),
        Err(AttributeError::InvalidUri(CoreAttribute::Source, "anything".to_string()))
    );
    d.dataschema = Some("u".to_string());
    assert_eq!(validate_with(&d, UrlSyntax::Absolute, Some(UrlSyntax::Absolute)), Ok(()));
    assert_eq!(
        validate_with(&d, UrlSyntax::Absolute, Some(UrlSyntax::Relative)),
        Err(AttributeError::InvalidUri(CoreAttribute::DataSchema, "u".to_string()))
    );
    assert_eq!(
        validate_with(&d, UrlSyntax::Absolute, None),
        Err(AttributeError::InvalidUri(CoreAttribute::DataSchema, "u".to_string()))
    );
}

#[test]
fn envelope_is_made_of_a_valid_draft_only() {
    let e = EventEnvelope::new(draft("1", "/s", "t")).unwrap();
    assert_eq!(e.draft(), &draft("1", "/s", "t"));
    assert_eq!(e.into_draft(), draft("1", "/s", "t"));
    assert_eq!(
        EventEnvelope::new(draft("", "/s", "t")),
        Err(CodecError::MissingRequiredAttribute(CoreAttribute::Id))
    );
    assert_eq!(
        EventEnvelope::new(with_extension("x_y")),
        Err(CodecError::InvalidExtensionName("x_y".to_string()))
    );
    assert_eq!(
        EventEnvelope::new(draft("1", "http://[::1", "t")),
        Err(CodecError::InvalidUri(CoreAttribute::Source, "http://[::1".to_string()))
    );
}

#[test]
fn duplicates_are_equal() {
    let mut d = draft("1", "/s", "t");
    d.subject = Some("s".to_string());
    d.datacontenttype = Some("text/plain".to_string());
    d.dataschema = Some("http://localhost/schema".to_string());
    d.time = Timestamp::parse("2020-03-16T11:50:00Z");
    d.extensions.insert("b".to_string(), ExtensionValue::Boolean(true));
    d.extensions.insert("a".to_string(), ExtensionValue::Integer(-1));
    d.extensions.insert("c".to_string(), ExtensionValue::String("x".to_string()));
    d.data = DataPayload::Text("body".to_string());
    assert_eq!(d.duplicate(), d);
    assert_eq!(duplicate_extensions(&d.extensions), d.extensions);
    let e = EventEnvelope::new(d).unwrap();
    assert_eq!(e.duplicate(), e);
}

#[test]
fn attribute_errors_become_codec_errors() {
    assert_eq!(
        CodecError::from_attribute(AttributeError::MissingRequiredAttribute(CoreAttribute::Type)),
        CodecError::MissingRequiredAttribute(CoreAttribute::Type)
    );
    assert_eq!(
        CodecError::from_attribute(AttributeError::InvalidUri(CoreAttribute::Source, "x".to_string())),
        CodecError::InvalidUri(CoreAttribute::Source, "x".to_string())
    );
    assert_eq!(
        CodecError::from_attribute(AttributeError::InvalidExtensionName("X".to_string())),
        CodecError::InvalidExtensionName("X".to_string())
    );
}
