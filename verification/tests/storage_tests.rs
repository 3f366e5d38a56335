use open_recorder::storage::{
    ensure_audio_dir_plan, extension_of, file_name_of, file_stem_of, get_cache_file_path,
    get_insights_dir, get_managed_audio_dir_name, get_managed_path, get_managed_transcript_path,
    get_sidecar_path, get_storage_root, get_summaries_dir, get_transcript_path,
};

#[test]
fn path_parts() {
    assert_eq!(file_name_of("/tmp/audio/take.mp3"), "take.mp3");
    assert_eq!(file_name_of("take.mp3"), "take.mp3");
    assert_eq!(file_stem_of("/tmp/audio/take.mp3"), "take");
    assert_eq!(file_stem_of("/tmp/a/.gitignore"), ".gitignore");
    assert_eq!(file_stem_of("/tmp/a/archive.tar.gz"), "archive.tar");
    assert_eq!(extension_of("/tmp/audio/take.mp3"), Some("mp3".to_string()));
    assert_eq!(extension_of("/tmp/audio/take"), None);
    assert_eq!(extension_of("/tmp/a/.gitignore"), None);
    assert_eq!(extension_of("/tmp/audio/take."), Some("".to_string()));
}

#[test]
fn locate_is_pure_and_path_keyed() {
    // The managed directory name depends on the path string alone: two
    // computations agree, and nothing else enters them.
    let a = get_managed_audio_dir_name("/tmp/audio/take.mp3");
    let b = get_managed_audio_dir_name("/tmp/audio/take.mp3");
    assert_eq!(a, b);
    // Stem plus the first six hex characters of the path fingerprint.
    assert_eq!(a, "take-6c6d8a");
    // A same-named file elsewhere gets a different suffix.
    let c = get_managed_audio_dir_name("/elsewhere/take.mp3");
    assert_ne!(a, c);
    assert!(c.starts_with("take-"));
}

#[test]
fn storage_layout_paths() {
    assert_eq!(get_storage_root("/data"), "/data/open-recorder");
    assert_eq!(get_insights_dir("/data"), "/data/open-recorder/insights");
    assert_eq!(get_summaries_dir("/data"), "/data/open-recorder/summaries");
    assert_eq!(
        get_cache_file_path("/data", "5d41402abc4b2a76b9719d911017c592"),
        "/data/open-recorder/summaries/5d41402abc4b2a76b9719d911017c592.txt"
    );
    assert_eq!(
        get_managed_path("/data", "/tmp/audio/take.mp3"),
        "/data/open-recorder/audios/take-6c6d8a"
    );
    assert_eq!(
        get_managed_transcript_path("/data", "/tmp/audio/take.mp3"),
        "/data/open-recorder/audios/take-6c6d8a/transcript.txt"
    );
    assert_eq!(get_sidecar_path("/tmp/audio/take.mp3"), "/tmp/audio/take.txt");
    assert_eq!(get_sidecar_path("take.mp3"), "take.txt");
}

#[test]
fn ensure_plan_is_idempotent() {
    // First call on a fresh source: create the directory, copy once.
    let p1 = ensure_audio_dir_plan("/data", "/tmp/audio/take.mp3", false, false);
    assert_eq!(p1.managed_dir, "/data/open-recorder/audios/take-6c6d8a");
    assert_eq!(p1.artifact_path, "/data/open-recorder/audios/take-6c6d8a/audio.mp3");
    assert!(p1.create_dir);
    assert!(p1.copy_artifact);
    // After running the plan both exist; the second call copies nothing.
    let p2 = ensure_audio_dir_plan("/data", "/tmp/audio/take.mp3", true, true);
    assert!(!p2.create_dir);
    assert!(!p2.copy_artifact);
    let copies = (p1.copy_artifact as u32) + (p2.copy_artifact as u32);
    assert_eq!(copies, 1);
}

#[test]
fn ensure_plan_extension_fallback() {
    let p = ensure_audio_dir_plan("/data", "/tmp/audio/noext", false, false);
    assert!(p.artifact_path.ends_with("/audio.bin"));
}

#[test]
fn transcript_path_priority() {
    let managed = get_transcript_path("/data", "/tmp/audio/take.mp3", true, true);
    assert_eq!(
        managed,
        Some("/data/open-recorder/audios/take-6c6d8a/transcript.txt".to_string())
    );
    let sidecar = get_transcript_path("/data", "/tmp/audio/take.mp3", false, true);
    assert_eq!(sidecar, Some("/tmp/audio/take.txt".to_string()));
    let none = get_transcript_path("/data", "/tmp/audio/take.mp3", false, false);
    assert_eq!(none, None);
}
