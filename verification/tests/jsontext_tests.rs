use open_recorder::insights::{
    classify_cache_content, decode_cache_content, CacheFileContent, TranscriptInsights,
};
use open_recorder::jsontext::encode_insights;

fn is_legacy(content: &str) -> bool {
    matches!(classify_cache_content(content), CacheFileContent::LegacyText(_))
}

#[test]
fn empty_object_reads_as_empty_record() {
    let r = decode_cache_content(" { } ");
    assert_eq!(r, TranscriptInsights { summary: None, actions: None, topics: None });
}

#[test]
fn null_fields_read_as_absent() {
    let r = decode_cache_content("{\"summary\":null,\"actions\":null,\"topics\":null}");
    assert_eq!(r, TranscriptInsights { summary: None, actions: None, topics: None });
    let r2 = decode_cache_content("{\"topics\":[]}");
    assert_eq!(r2.topics, Some(vec![]));
}

#[test]
fn unknown_fields_of_any_shape_are_skipped() {
    let text = "{\"v\":2,\"meta\":{\"n\":-0.5e3,\"deep\":[[],{},\"s\"]},\"summary\":\"ok\",\"flag\":false}";
    let r = decode_cache_content(text);
    assert_eq!(r.summary, Some("ok".to_string()));
}

#[test]
fn malformed_documents_degrade_to_legacy_text() {
    // Trailing content after the object.
    assert!(is_legacy("{\"summary\":\"a\"} extra"));
    // A number with a leading zero in an unknown field.
    assert!(is_legacy("{\"x\":01}"));
    // A missing colon.
    assert!(is_legacy("{\"summary\" \"a\"}"));
    // A trailing comma.
    assert!(is_legacy("{\"summary\":\"a\",}"));
    // A raw control character inside a string.
    assert!(is_legacy("{\"summary\":\"a\u{1}b\"}"));
    // A wrongly typed known field.
    assert!(is_legacy("{\"summary\":7}"));
    assert!(is_legacy("{\"topics\":[\"a\",7]}"));
    // A top-level array is not a record.
    assert!(is_legacy("[1,2,3]"));
    // Plain prose.
    assert!(is_legacy("three bullet points about the meeting"));
}

#[test]
fn control_characters_round_trip_as_u_escapes() {
    let rec = TranscriptInsights {
        summary: Some("a\u{1}b\u{1f}c\u{8}d".to_string()),
        actions: None,
        topics: None,
    };
    let text = encode_insights(&rec);
    assert!(text.contains("\\u0001"));
    assert!(text.contains("\\u001f"));
    assert!(text.contains("\\b"));
    assert_eq!(decode_cache_content(&text), rec);
}

#[test]
fn numbers_in_unknown_fields_follow_the_json_grammar() {
    assert!(!is_legacy("{\"x\":0}"));
    assert!(!is_legacy("{\"x\":-0.25}"));
    assert!(!is_legacy("{\"x\":1e9}"));
    assert!(!is_legacy("{\"x\":12.5E-3}"));
    assert!(is_legacy("{\"x\":.5}"));
    assert!(is_legacy("{\"x\":1.}"));
    assert!(is_legacy("{\"x\":1e}"));
    assert!(is_legacy("{\"x\":--1}"));
}
