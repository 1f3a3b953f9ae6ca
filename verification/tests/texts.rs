use cloudevents::content_type::as_text;
use cloudevents::text::{chars_of, ends_with, starts_with, text_eq};

#[test]
fn equal_texts() {
    assert!(text_eq("", ""));
    assert!(text_eq("grüß", "grüß"));
    assert!(!text_eq("a", "b"));
    assert!(!text_eq("a", "ab"));
    assert!(!text_eq("ab", "a"));
    assert!(!text_eq("é", "e\u{301}"));
}

#[test]
fn prefixes_and_suffixes() {
    assert!(starts_with("text/plain", "text/"));
    assert!(starts_with("text/", "text/"));
    assert!(starts_with("anything", ""));
    assert!(!starts_with("text", "text/"));
    assert!(!starts_with("Text/plain", "text/"));
    assert!(!starts_with("", "x"));
    assert!(starts_with("äöü", "äö"));
    assert!(!starts_with("äöü", "a"));
    assert!(ends_with("application/cloudevents+json", "+json"));
    assert!(ends_with("+json", "+json"));
    assert!(ends_with("anything", ""));
    assert!(!ends_with("json", "+json"));
    assert!(!ends_with("application/json+", "+json"));
    assert!(!ends_with("", "x"));
    assert!(ends_with("äöü", "öü"));
}

#[test]
fn characters_of_a_text() {
    assert_eq!(chars_of(""), Vec::<char>::new());
    assert_eq!(chars_of("aö€𝄞"), vec!['a', 'ö', '€', '𝄞']);
    assert_eq!(as_text(&Some("x".to_string())), Some("x"));
    assert_eq!(as_text(&None), None);
}
