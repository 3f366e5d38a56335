use open_recorder::analytics::{
    bucket_index, get_library_insights, is_library_audio_file, now_unix, preset_min_mtime,
    AudioItem, ScannedRecording, TranscriptionMetaItem,
};
use open_recorder::errors::TranscriptionError;

fn item(path: &str, mtime: i64, duration_ms: Option<u64>, has_transcript: bool) -> ScannedRecording {
    ScannedRecording {
        item: AudioItem {
            id: format!("id-{}", path),
            name: path.rsplit('/').next().unwrap().to_string(),
            path: path.to_string(),
            size: 1000,
            mtime,
            duration_ms,
        },
        has_transcript,
    }
}

#[test]
fn preset_cutoffs() {
    assert_eq!(preset_min_mtime("7d", 1_000_000).unwrap(), Some(1_000_000 - 604_800));
    assert_eq!(preset_min_mtime("30d", 5_000_000).unwrap(), Some(5_000_000 - 2_592_000));
    assert_eq!(preset_min_mtime("90d", 10_000_000).unwrap(), Some(10_000_000 - 7_776_000));
    assert_eq!(preset_min_mtime("all", 1_000_000).unwrap(), None);
    match preset_min_mtime("2d", 1_000_000) {
        Err(TranscriptionError::InvalidPreset(p)) => assert_eq!(p, "2d"),
        other => panic!("expected InvalidPreset, got {:?}", other),
    }
}

#[test]
fn bucket_boundaries_are_inclusive_low() {
    // 119.9 s, 120.0 s, 299.9 s, 900.0 s land in 0-2m, 2-5m, 2-5m, 15m+.
    assert_eq!(bucket_index(119_900), 0);
    assert_eq!(bucket_index(120_000), 1);
    assert_eq!(bucket_index(299_900), 1);
    assert_eq!(bucket_index(900_000), 3);
    assert_eq!(bucket_index(300_000), 2);
    assert_eq!(bucket_index(899_999), 2);
}

#[test]
fn coverage_kpi() {
    // Two items of 100 s and 300 s, only the first transcribed for its
    // full 100 s: coverage = 100 * 100 / 400 = 25.00 %.
    let items = vec![
        item("/lib/a.mp3", 1000, Some(100_000), true),
        item("/lib/b.mp3", 2000, Some(300_000), false),
    ];
    let p = get_library_insights(items, "all", 10_000, vec![]).unwrap();
    assert_eq!(p.kpis.total_recordings, 2);
    assert_eq!(p.kpis.total_recording_ms, 400_000);
    assert_eq!(p.kpis.transcribed_recordings, 1);
    assert_eq!(p.kpis.transcribed_ms, 100_000);
    assert_eq!(p.kpis.transcription_coverage_centi_pct, 2_500);
}

#[test]
fn coverage_zero_when_nothing_recorded() {
    let items = vec![item("/lib/a.mp3", 1000, None, false)];
    let p = get_library_insights(items, "all", 10_000, vec![]).unwrap();
    assert_eq!(p.kpis.total_recording_ms, 0);
    assert_eq!(p.kpis.transcription_coverage_centi_pct, 0);
}

#[test]
fn preset_filters_by_mtime() {
    // With now = T, preset 7d excludes exactly the items with
    // mtime < T - 604800; preset all excludes nothing.
    let t = 1_000_000_i64;
    let old = item("/lib/old.mp3", t - 604_801, Some(1_000), false);
    let edge = item("/lib/edge.mp3", t - 604_800, Some(1_000), false);
    let fresh = item("/lib/fresh.mp3", t - 10, Some(1_000), false);
    let p7 = get_library_insights(
        vec![old.clone(), edge.clone(), fresh.clone()],
        "7d",
        t,
        vec![],
    )
    .unwrap();
    assert_eq!(p7.kpis.total_recordings, 2);
    let pall = get_library_insights(vec![old, edge, fresh], "all", t, vec![]).unwrap();
    assert_eq!(pall.kpis.total_recordings, 3);
}

#[test]
fn series_groups_by_day_ascending() {
    let day = 86_400_i64;
    let items = vec![
        item("/lib/c.mp3", 3 * day + 100, Some(10_000), false),
        item("/lib/a.mp3", day + 5, Some(1_000), false),
        item("/lib/b.mp3", day + 9000, Some(2_000), false),
    ];
    let p = get_library_insights(items, "all", 10 * day, vec![]).unwrap();
    assert_eq!(p.series.len(), 2);
    assert_eq!(p.series[0].day_start_unix, day);
    assert_eq!(p.series[0].recording_ms, 3_000);
    assert_eq!(p.series[0].recordings, 2);
    assert_eq!(p.series[1].day_start_unix, 3 * day);
    assert_eq!(p.series[1].recordings, 1);
}

#[test]
fn distributions_sort_descending_by_time() {
    let meta = vec![
        (
            "/lib/a.mp3".to_string(),
            TranscriptionMetaItem { language: "EN".to_string(), transcription_ms: Some(5_000) },
        ),
        (
            "/lib/b.wav".to_string(),
            TranscriptionMetaItem { language: "de".to_string(), transcription_ms: Some(90_000) },
        ),
    ];
    let items = vec![
        item("/lib/a.mp3", 1000, Some(10_000), true),
        item("/lib/b.wav", 2000, Some(100_000), true),
        item("/lib/c.mp3", 3000, Some(20_000), false),
    ];
    let p = get_library_insights(items, "all", 10_000, meta).unwrap();
    // File types: wav holds 100 s, mp3 holds 30 s.
    assert_eq!(p.file_type_distribution.len(), 2);
    assert_eq!(p.file_type_distribution[0].ext, "wav");
    assert_eq!(p.file_type_distribution[0].ms, 100_000);
    assert_eq!(p.file_type_distribution[1].ext, "mp3");
    assert_eq!(p.file_type_distribution[1].count, 2);
    assert_eq!(p.file_type_distribution[1].ms, 30_000);
    // Languages: only transcribed items count; lower-cased; descending.
    assert_eq!(p.language_distribution.len(), 2);
    assert_eq!(p.language_distribution[0].language, "de");
    assert_eq!(p.language_distribution[0].transcribed_ms, 90_000);
    assert_eq!(p.language_distribution[1].language, "en");
    assert_eq!(p.language_distribution[1].transcribed_ms, 5_000);
}

#[test]
fn transcribed_defaults() {
    // With a transcript but no metadata figure, the item's full duration
    // counts as transcribed; with no duration either, zero.
    let items = vec![
        item("/lib/a.mp3", 1000, Some(10_000), true),
        item("/lib/b.mp3", 2000, None, true),
    ];
    let p = get_library_insights(items, "all", 10_000, vec![]).unwrap();
    assert_eq!(p.kpis.transcribed_recordings, 2);
    assert_eq!(p.kpis.transcribed_ms, 10_000);
    // Without metadata the language is unknown.
    assert_eq!(p.language_distribution.len(), 1);
    assert_eq!(p.language_distribution[0].language, "unknown");
}

#[test]
fn recent_is_newest_first_and_capped() {
    let mut items = Vec::new();
    for k in 0..12 {
        items.push(item(&format!("/lib/x{}.mp3", k), 1000 + k as i64, Some(1_000), false));
    }
    let p = get_library_insights(items, "all", 10_000, vec![]).unwrap();
    assert_eq!(p.recent.len(), 10);
    assert_eq!(p.recent[0].mtime_unix, 1011);
    assert_eq!(p.recent[9].mtime_unix, 1002);
    for w in p.recent.windows(2) {
        assert!(w[0].mtime_unix >= w[1].mtime_unix);
    }
}

#[test]
fn buckets_count_everything_passing() {
    let items = vec![
        item("/lib/a.mp3", 1000, Some(60_000), true),
        item("/lib/b.mp3", 2000, Some(200_000), false),
        item("/lib/c.mp3", 3000, None, false),
    ];
    let p = get_library_insights(items, "all", 10_000, vec![]).unwrap();
    assert_eq!(p.duration_buckets.len(), 4);
    assert_eq!(p.duration_buckets[0].id, "0-2m");
    assert_eq!(p.duration_buckets[1].id, "2-5m");
    assert_eq!(p.duration_buckets[2].id, "5-15m");
    assert_eq!(p.duration_buckets[3].id, "15m+");
    // The item without a duration counts as zero seconds: bucket 0.
    assert_eq!(p.duration_buckets[0].count, 2);
    assert_eq!(p.duration_buckets[1].count, 1);
    assert_eq!(p.duration_buckets[2].count, 0);
    assert_eq!(p.duration_buckets[3].count, 0);
}

#[test]
fn aggregation_is_deterministic() {
    let build = || {
        vec![
            item("/lib/a.mp3", 1000, Some(10_000), true),
            item("/lib/b.wav", 2000, Some(100_000), true),
            item("/lib/c.mp3", 3000, Some(20_000), false),
        ]
    };
    let p1 = get_library_insights(build(), "all", 10_000, vec![]).unwrap();
    let p2 = get_library_insights(build(), "all", 10_000, vec![]).unwrap();
    assert_eq!(p1.kpis, p2.kpis);
    assert_eq!(p1.series, p2.series);
    assert_eq!(
        p1.recent.iter().map(|r| r.path.clone()).collect::<Vec<_>>(),
        p2.recent.iter().map(|r| r.path.clone()).collect::<Vec<_>>()
    );
}

#[test]
fn scanner_extension_filter() {
    assert!(is_library_audio_file("a/b.mp3"));
    assert!(is_library_audio_file("a/b.M4A"));
    assert!(is_library_audio_file("a/b.Wav"));
    assert!(!is_library_audio_file("a/b.flac"));
    assert!(!is_library_audio_file("a/b"));
}

#[test]
fn clock_is_nonnegative() {
    assert!(now_unix() >= 0);
}
