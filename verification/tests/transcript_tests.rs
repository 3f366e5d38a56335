use open_recorder::errors::TranscriptionError;
use open_recorder::fingerprint::{fingerprint_hex, to_hex};
use open_recorder::textutil::{ascii_lower, trim_text};
use open_recorder::transcript::{
    has_transcript, is_supported_format, resolve_transcript, validate_transcription_request,
    MAX_TRANSCRIBE_BYTES,
};

#[test]
fn fingerprint_matches_md5() {
    assert_eq!(fingerprint_hex("hello"), "5d41402abc4b2a76b9719d911017c592");
    assert_eq!(fingerprint_hex("/tmp/audio/take.mp3"), "6c6d8a4c886b47322d10fd50c30c14ed");
    assert_eq!(to_hex(&vec![0x00u8, 0xff, 0x1a]), "00ff1a");
}

#[test]
fn text_helpers() {
    assert_eq!(trim_text("  hello \n\t"), "hello");
    assert_eq!(trim_text(" \u{a0} \u{2003}"), "");
    assert_eq!(trim_text(""), "");
    assert_eq!(ascii_lower("MP3-File"), "mp3-file");
}

#[test]
fn supported_formats() {
    assert!(is_supported_format("a/b.mp3"));
    assert!(is_supported_format("a/b.MP3"));
    assert!(is_supported_format("a/b.FlAc"));
    assert!(is_supported_format("a/b.ogg"));
    assert!(is_supported_format("a/b.aac"));
    assert!(is_supported_format("a/b.m4a"));
    assert!(is_supported_format("a/b.wav"));
    assert!(!is_supported_format("a/b.opus"));
    assert!(!is_supported_format("a/noext"));
}

#[test]
fn transcription_request_validation() {
    assert!(validate_transcription_request("a/b.mp3", 1024).is_ok());
    assert!(validate_transcription_request("a/b.mp3", MAX_TRANSCRIBE_BYTES).is_ok());
    match validate_transcription_request("a/b.mp3", MAX_TRANSCRIBE_BYTES + 1) {
        Err(TranscriptionError::FileTooLarge(p)) => assert_eq!(p, "a/b.mp3"),
        other => panic!("expected FileTooLarge, got {:?}", other),
    }
    match validate_transcription_request("a/b.opus", 10) {
        Err(TranscriptionError::UnsupportedFormat) => {}
        other => panic!("expected UnsupportedFormat, got {:?}", other),
    }
}

#[test]
fn resolve_prefers_managed() {
    let r = resolve_transcript(
        Some("managed text".to_string()),
        Some("sidecar text".to_string()),
        "/tmp/audio/take.mp3",
    )
    .unwrap();
    assert_eq!(r.0, "managed text");
    assert_eq!(r.1, None);
}

#[test]
fn resolve_migrates_sidecar() {
    // Legacy sidecar present, no managed transcript: the sidecar's content
    // comes back, and exactly that content is to be written to the managed
    // location; the sidecar itself is never a write target.
    let r = resolve_transcript(None, Some("legacy words".to_string()), "/tmp/audio/take.mp3")
        .unwrap();
    assert_eq!(r.0, "legacy words");
    assert_eq!(r.1, Some("legacy words".to_string()));
}

#[test]
fn resolve_not_found() {
    match resolve_transcript(None, None, "/tmp/audio/take.mp3") {
        Err(TranscriptionError::FileNotFound(m)) => {
            assert_eq!(m, "Transcript file not found for /tmp/audio/take.mp3");
        }
        other => panic!("expected FileNotFound, got {:?}", other),
    }
}

#[test]
fn existence_check_is_disjunction() {
    assert!(has_transcript(true, false));
    assert!(has_transcript(false, true));
    assert!(has_transcript(true, true));
    assert!(!has_transcript(false, false));
}

#[test]
fn error_messages_render_flat() {
    assert_eq!(
        TranscriptionError::EmptyInput.message(),
        "Transcript text is empty"
    );
    assert_eq!(
        TranscriptionError::FileNotFound("x".to_string()).message(),
        "File not found: x"
    );
    assert_eq!(
        TranscriptionError::InvalidPreset("2d".to_string()).message(),
        "Invalid preset: 2d"
    );
}
