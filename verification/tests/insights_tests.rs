use open_recorder::errors::TranscriptionError;
use open_recorder::insights::{
    cached_summary, classify_cache_content, decode_cache_content, insight_needs,
    insights_cache_key, insights_complete, merge_fetched, merge_summary, parse_actions_response,
    parse_topics_response, actions_prompt, summary_prompt, topics_prompt, CacheFileContent,
    RecommendedAction, TranscriptInsights,
};
use open_recorder::jsontext::encode_insights;

fn action(t: &str, d: &str) -> RecommendedAction {
    RecommendedAction { title: t.to_string(), description: d.to_string() }
}

#[test]
fn cache_key_trims_and_rejects_empty() {
    // Whitespace around an identical transcript hits the same entry.
    let a = insights_cache_key("hello").unwrap();
    let b = insights_cache_key("  hello \n").unwrap();
    assert_eq!(a, b);
    assert_eq!(a, "5d41402abc4b2a76b9719d911017c592");
    match insights_cache_key("   \t\n ") {
        Err(TranscriptionError::EmptyInput) => {}
        other => panic!("expected EmptyInput, got {:?}", other),
    }
}

#[test]
fn legacy_cache_format_is_tolerated() {
    // A cache file holding raw text reads as a record with only the
    // summary populated.
    let r = decode_cache_content("hello");
    assert_eq!(r.summary, Some("hello".to_string()));
    assert_eq!(r.actions, None);
    assert_eq!(r.topics, None);
    match classify_cache_content("hello") {
        CacheFileContent::LegacyText(t) => assert_eq!(t, "hello"),
        other => panic!("expected LegacyText, got {:?}", other),
    }
}

#[test]
fn structured_cache_round_trips() {
    let rec = TranscriptInsights {
        summary: Some("Line one\nwith \"quotes\" and \\slashes\\".to_string()),
        actions: Some(vec![action("Do it", "Soon, please"), action("Review", "Carefully")]),
        topics: Some(vec!["planning".to_string(), "budget".to_string()]),
    };
    let text = encode_insights(&rec);
    let back = decode_cache_content(&text);
    assert_eq!(back, rec);
}

#[test]
fn encode_format_is_stable() {
    let rec = TranscriptInsights { summary: None, actions: None, topics: None };
    assert_eq!(
        encode_insights(&rec),
        "{\"summary\":null,\"actions\":null,\"topics\":null}"
    );
    let rec2 = TranscriptInsights {
        summary: Some("a".to_string()),
        actions: Some(vec![]),
        topics: Some(vec!["t".to_string()]),
    };
    assert_eq!(
        encode_insights(&rec2),
        "{\"summary\":\"a\",\"actions\":[],\"topics\":[\"t\"]}"
    );
}

#[test]
fn encoded_cache_is_real_json() {
    // What the library writes must be readable by a standard JSON parser.
    let rec = TranscriptInsights {
        summary: Some("two\nlines \u{1f600}".to_string()),
        actions: Some(vec![action("A \"B\"", "C\\D")]),
        topics: Some(vec!["x".to_string()]),
    };
    let text = encode_insights(&rec);
    let v: serde_json::Value = serde_json::from_str(&text).unwrap();
    assert_eq!(v["summary"].as_str().unwrap(), "two\nlines \u{1f600}");
    assert_eq!(v["actions"][0]["title"].as_str().unwrap(), "A \"B\"");
    assert_eq!(v["actions"][0]["description"].as_str().unwrap(), "C\\D");
    assert_eq!(v["topics"][0].as_str().unwrap(), "x");
}

#[test]
fn reader_accepts_standard_json() {
    // What a standard JSON writer produces must be readable here:
    // pretty-printing, field order, unknown fields, escapes.
    let mut obj = serde_json::Map::new();
    obj.insert(
        "topics".to_string(),
        serde_json::Value::Array(vec![serde_json::Value::String("t1".to_string())]),
    );
    obj.insert(
        "summary".to_string(),
        serde_json::Value::String("caf\u{e9} \u{2014} ok".to_string()),
    );
    obj.insert(
        "extra".to_string(),
        serde_json::Value::Array(vec![
            serde_json::Value::Number(serde_json::Number::from(7)),
            serde_json::Value::Bool(true),
            serde_json::Value::Null,
        ]),
    );
    let text = serde_json::to_string_pretty(&serde_json::Value::Object(obj)).unwrap();
    let rec = decode_cache_content(&text);
    assert_eq!(rec.summary, Some("caf\u{e9} \u{2014} ok".to_string()));
    assert_eq!(rec.actions, None);
    assert_eq!(rec.topics, Some(vec!["t1".to_string()]));
}

#[test]
fn reader_handles_escapes_and_surrogates() {
    let rec = decode_cache_content("{\"summary\":\"a\\u0041\\n\\ud83d\\ude00\"}");
    assert_eq!(rec.summary, Some("aA\n\u{1f600}".to_string()));
    // A lone surrogate is not a readable record: the content degrades to
    // legacy raw text.
    match classify_cache_content("{\"summary\":\"\\ud83d\"}") {
        CacheFileContent::LegacyText(_) => {}
        other => panic!("expected LegacyText, got {:?}", other),
    }
    // A duplicated known field is not a readable record either.
    match classify_cache_content("{\"summary\":\"a\",\"summary\":\"b\"}") {
        CacheFileContent::LegacyText(_) => {}
        other => panic!("expected LegacyText, got {:?}", other),
    }
}

#[test]
fn merge_keeps_cached_fields() {
    // Write {summary: "A"}; then a flow computes only the actions for the
    // same fingerprint; the summary survives the merge and the write-back.
    let cached = TranscriptInsights {
        summary: Some("A".to_string()),
        actions: None,
        topics: None,
    };
    let stored = encode_insights(&cached);
    let reread = decode_cache_content(&stored);
    let needs = insight_needs(&Some(reread.clone()));
    assert!(!needs.summary);
    assert!(needs.actions);
    assert!(needs.topics);
    let merged = merge_fetched(
        Some(reread),
        None,
        Some(vec![action("Follow up", "Call them")]),
        None,
    );
    let written = encode_insights(&merged);
    let after = decode_cache_content(&written);
    assert_eq!(after.summary, Some("A".to_string()));
    assert_eq!(after.actions, Some(vec![action("Follow up", "Call them")]));
    assert_eq!(after.topics, None);
}

#[test]
fn merge_summary_preserves_actions_and_topics() {
    let cached = TranscriptInsights {
        summary: Some("old".to_string()),
        actions: Some(vec![action("a", "b")]),
        topics: Some(vec!["t".to_string()]),
    };
    let merged = merge_summary(Some(cached), "new".to_string());
    assert_eq!(merged.summary, Some("new".to_string()));
    assert_eq!(merged.actions, Some(vec![action("a", "b")]));
    assert_eq!(merged.topics, Some(vec!["t".to_string()]));
}

#[test]
fn complete_record_needs_no_fetch() {
    // A record complete for all three fields plans zero external calls.
    let complete = TranscriptInsights {
        summary: Some("s".to_string()),
        actions: Some(vec![]),
        topics: Some(vec![]),
    };
    assert!(insights_complete(&complete));
    let needs = insight_needs(&Some(complete.clone()));
    let planned_calls =
        (needs.summary as u32) + (needs.actions as u32) + (needs.topics as u32);
    assert_eq!(planned_calls, 0);
    assert_eq!(cached_summary(&Some(complete)), Some("s".to_string()));
}

#[test]
fn malformed_actions_response_fails_cleanly() {
    // Prose with no brackets: a malformed model response, not a crash.
    match parse_actions_response("I cannot produce that list, sorry.") {
        Err(TranscriptionError::MalformedModelResponse(_)) => {}
        other => panic!("expected MalformedModelResponse, got {:?}", other),
    }
    match parse_actions_response("] backwards [") {
        Err(TranscriptionError::MalformedModelResponse(_)) => {}
        other => panic!("expected MalformedModelResponse, got {:?}", other),
    }
}

#[test]
fn actions_response_parses_with_and_without_prose() {
    let strict = parse_actions_response(
        " [{\"title\":\"Do it\",\"description\":\"Soon\"}] ",
    )
    .unwrap();
    assert_eq!(strict, vec![action("Do it", "Soon")]);
    let wrapped = parse_actions_response(
        "Here are your items: [{\"description\":\"Soon\",\"title\":\"Do it\",\"note\":3}] Enjoy!",
    )
    .unwrap();
    assert_eq!(wrapped, vec![action("Do it", "Soon")]);
    // A missing required key fails.
    assert!(parse_actions_response("[{\"title\":\"only\"}]").is_err());
}

#[test]
fn topics_response_parses_with_and_without_prose() {
    let strict = parse_topics_response("[\"a\",\"b\"]").unwrap();
    assert_eq!(strict, vec!["a".to_string(), "b".to_string()]);
    let wrapped = parse_topics_response("Sure! [\"a\", \"b\"] — hope that helps.").unwrap();
    assert_eq!(wrapped, vec!["a".to_string(), "b".to_string()]);
    assert!(parse_topics_response("[1, 2]").is_err());
}

#[test]
fn prompts_embed_raw_text() {
    let s = summary_prompt(" raw text ");
    assert!(s.starts_with("Summarize the following transcript"));
    assert!(s.ends_with("Transcript:\n\n raw text "));
    let a = actions_prompt("t");
    assert!(a.contains("'title' and 'description'"));
    assert!(a.ends_with("Transcript:\n\nt"));
    let t = topics_prompt("t");
    assert!(t.starts_with("Extract 6-10 key topics"));
}
