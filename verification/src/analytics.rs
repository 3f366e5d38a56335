//! Library analytics: aggregates a scanned snapshot of the audio tree into
//! KPIs, a daily time series, a duration histogram, language and file-type
//! distributions, and a recent-items table.
//!
//! The host application walks the folder and probes durations; this module
//! gets the scanned items (with the read-only transcript existence flag)
//! and the caller-supplied per-path transcription metadata, and computes
//! the whole payload as a pure function of those inputs. Durations are
//! whole milliseconds; the coverage percentage is in hundredths of a
//! percent.

use vstd::prelude::*;
use vstd::string::*;
use crate::errors::TranscriptionError;
use crate::storage::extension_spec;
use crate::storage::extension_of;
use crate::textutil::{ascii_lower, ascii_lower_spec};

verus! {

/// The longest single recording the aggregator accepts, in milliseconds
/// (about 46 days). A machine limit: together with `MAX_LIBRARY_ITEMS` it
/// keeps every aggregate sum within `u64`.
pub const MAX_TRACK_MS: u64 = 4000000000;

/// The most items one aggregation accepts. A machine limit, see
/// `MAX_TRACK_MS`.
pub const MAX_LIBRARY_ITEMS: usize = 2000000000;

/// One audio file found by a scan.
#[derive(Debug, Clone)]
pub struct AudioItem {
    /// The fingerprint of the file's full path, as lowercase hex.
    pub id: String,
    /// The file's name.
    pub name: String,
    /// The file's full path.
    pub path: String,
    /// The file's size in bytes.
    pub size: u64,
    /// The file's modification time, in whole seconds of Unix time.
    pub mtime: i64,
    /// The probed duration in milliseconds, absent when probing failed.
    pub duration_ms: Option<u64>,
}

/// A scanned item joined with its read-only transcript existence flag.
#[derive(Debug, Clone)]
pub struct ScannedRecording {
    /// The scanned file.
    pub item: AudioItem,
    /// Whether a transcript exists for it (managed or legacy sidecar).
    pub has_transcript: bool,
}

/// Caller-supplied per-path transcription metadata.
#[derive(Debug, Clone)]
pub struct TranscriptionMetaItem {
    /// The transcript's language.
    pub language: String,
    /// How many milliseconds of the recording were transcribed, when known.
    pub transcription_ms: Option<u64>,
}

/// One day of the time series.
#[derive(Debug, Clone, Copy, PartialEq, Eq, Structural)]
pub struct InsightsSeriesPoint {
    /// The day's start, in Unix seconds at the UTC day boundary.
    pub day_start_unix: i64,
    /// Milliseconds of audio recorded that day.
    pub recording_ms: u64,
    /// Milliseconds of audio transcribed that day.
    pub transcribed_ms: u64,
    /// Recordings modified that day.
    pub recordings: u64,
}

/// One duration-histogram bucket.
#[derive(Debug, Clone)]
pub struct InsightsBucket {
    /// The bucket's stable identifier.
    pub id: String,
    /// The bucket's display label.
    pub label: String,
    /// Items falling in the bucket.
    pub count: u64,
    /// Summed milliseconds of those items.
    pub ms: u64,
}

/// The headline numbers.
#[derive(Debug, Clone, Copy, PartialEq, Eq, Structural)]
pub struct InsightsKpis {
    /// All recordings passing the filter.
    pub total_recordings: u64,
    /// Their summed duration in milliseconds.
    pub total_recording_ms: u64,
    /// Those with a transcript.
    pub transcribed_recordings: u64,
    /// Summed transcribed milliseconds.
    pub transcribed_ms: u64,
    /// Coverage in hundredths of a percent: 10000 times the transcribed
    /// milliseconds over the total, zero when nothing was recorded.
    pub transcription_coverage_centi_pct: u64,
}

/// One row of the recent-items table.
#[derive(Debug, Clone)]
pub struct InsightsRecordingRow {
    /// The item's fingerprint id.
    pub id: String,
    /// The file's name.
    pub name: String,
    /// The file's full path.
    pub path: String,
    /// The modification time in Unix seconds.
    pub mtime_unix: i64,
    /// The probed duration in milliseconds, absent when unknown.
    pub duration_ms: Option<u64>,
    /// Whether a transcript exists.
    pub has_transcript: bool,
    /// The transcript's language, lower-cased, `unknown` when absent.
    pub language: String,
}

/// One language of the language distribution.
#[derive(Debug, Clone)]
pub struct LanguageDistributionItem {
    /// The language, lower-cased.
    pub language: String,
    /// Transcribed recordings in that language.
    pub count: u64,
    /// Their summed transcribed milliseconds.
    pub transcribed_ms: u64,
}

/// One extension of the file-type distribution.
#[derive(Debug, Clone)]
pub struct FileTypeDistributionItem {
    /// The extension, lower-cased, `unknown` when the file has none.
    pub ext: String,
    /// Items with that extension.
    pub count: u64,
    /// Their summed milliseconds.
    pub ms: u64,
}

/// The whole aggregation result.
#[derive(Debug, Clone)]
pub struct LibraryInsightsPayload {
    /// The preset the caller asked for, echoed back.
    pub preset: String,
    /// The headline numbers.
    pub kpis: InsightsKpis,
    /// The daily series, ascending by day.
    pub series: Vec<InsightsSeriesPoint>,
    /// The four duration buckets, in fixed order.
    pub duration_buckets: Vec<InsightsBucket>,
    /// Languages of transcribed items, descending by transcribed time.
    pub language_distribution: Vec<LanguageDistributionItem>,
    /// Extensions, descending by recorded time.
    pub file_type_distribution: Vec<FileTypeDistributionItem>,
    /// The newest items, at most ten, descending by modification time.
    pub recent: Vec<InsightsRecordingRow>,
}

/// The ghost shape of a recent-table row.
pub ghost struct RowView {
    /// The item's fingerprint id.
    pub id: Seq<char>,
    /// The file's name.
    pub name: Seq<char>,
    /// The file's full path.
    pub path: Seq<char>,
    /// The modification time in Unix seconds.
    pub mtime_unix: int,
    /// The probed duration in milliseconds.
    pub duration_ms: Option<u64>,
    /// Whether a transcript exists.
    pub has_transcript: bool,
    /// The transcript's language.
    pub language: Seq<char>,
}

/// The ghost shape of a file-type distribution entry.
pub ghost struct FtdView {
    /// The extension.
    pub ext: Seq<char>,
    /// Items with that extension.
    pub count: int,
    /// Their summed milliseconds.
    pub ms: int,
}

/// The ghost shape of a language distribution entry.
pub ghost struct LangView {
    /// The language.
    pub language: Seq<char>,
    /// Transcribed recordings in that language.
    pub count: int,
    /// Their summed transcribed milliseconds.
    pub transcribed_ms: int,
}

/// The ghost shape of a recent-table row value.
pub open spec fn row_view(r: InsightsRecordingRow) -> RowView {
    RowView {
        id: r.id@,
        name: r.name@,
        path: r.path@,
        mtime_unix: r.mtime_unix as int,
        duration_ms: r.duration_ms,
        has_transcript: r.has_transcript,
        language: r.language@,
    }
}

/// The ghost shape of a file-type distribution value.
pub open spec fn ftd_view(x: FileTypeDistributionItem) -> FtdView {
    FtdView { ext: x.ext@, count: x.count as int, ms: x.ms as int }
}

/// The ghost shape of a language distribution value.
pub open spec fn lang_view(x: LanguageDistributionItem) -> LangView {
    LangView {
        language: x.language@,
        count: x.count as int,
        transcribed_ms: x.transcribed_ms as int,
    }
}

/// Whether an item passes the preset's modification-time cutoff.
pub open spec fn passes_filter(rec: ScannedRecording, min: Option<int>) -> bool {
    match min {
        Some(mn) => rec.item.mtime as int >= mn,
        None => true,
    }
}

/// An item's duration for aggregate sums: an unknown duration counts as
/// zero milliseconds.
pub open spec fn duration_ms_spec(rec: ScannedRecording) -> u64 {
    match rec.item.duration_ms {
        Some(d) => d,
        None => 0,
    }
}

/// The first metadata entry for a path, if any.
pub open spec fn meta_lookup_spec(
    m: Seq<(String, TranscriptionMetaItem)>,
    path: Seq<char>,
) -> Option<TranscriptionMetaItem>
    decreases m.len(),
{
    if m.len() == 0 {
        None
    } else if m[0].0@ == path {
        Some(m[0].1)
    } else {
        meta_lookup_spec(m.drop_first(), path)
    }
}

/// An item's language for aggregation: the metadata language lower-cased
/// when the item is transcribed and metadata names it, else `unknown`.
pub open spec fn language_spec(
    rec: ScannedRecording,
    m: Seq<(String, TranscriptionMetaItem)>,
) -> Seq<char> {
    if rec.has_transcript {
        match meta_lookup_spec(m, rec.item.path@) {
            Some(mi) => ascii_lower_spec(mi.language@),
            None => "unknown"@,
        }
    } else {
        "unknown"@
    }
}

/// An item's transcribed milliseconds: zero without a transcript; with
/// one, the metadata's explicit figure when present, else the item's full
/// duration when known, else zero.
pub open spec fn transcribed_ms_spec(
    rec: ScannedRecording,
    m: Seq<(String, TranscriptionMetaItem)>,
) -> u64 {
    if !rec.has_transcript {
        0
    } else {
        match meta_lookup_spec(m, rec.item.path@) {
            Some(mi) => match mi.transcription_ms {
                Some(t) => t,
                None => duration_ms_spec(rec),
            },
            None => duration_ms_spec(rec),
        }
    }
}

/// The UTC day boundary at or before a non-negative Unix time.
pub open spec fn day_start_spec(t: i64) -> int {
    t - (t as int) % 86400
}

/// The histogram bucket of a duration: below two minutes, below five,
/// below fifteen, or beyond; the lower bound of each bucket is inclusive.
pub open spec fn bucket_index_spec(d_ms: u64) -> int {
    if d_ms < 120000 {
        0
    } else if d_ms < 300000 {
        1
    } else if d_ms < 900000 {
        2
    } else {
        3
    }
}

/// The grouping key of an item in the file-type distribution: the
/// extension lower-cased, or `unknown` when there is none or it is empty.
pub open spec fn ext_key_spec(p: Seq<char>) -> Seq<char> {
    match extension_spec(p) {
        Some(e) => if ascii_lower_spec(e).len() == 0 {
            "unknown"@
        } else {
            ascii_lower_spec(e)
        },
        None => "unknown"@,
    }
}

/// Computes the file-type grouping key of a path.
pub fn ext_key_of(p: &str) -> (r: String)
    ensures
        r@ == ext_key_spec(p@),
{
    match extension_of(p) {
        Some(e) => {
            let l = ascii_lower(e.as_str());
            if l.as_str().unicode_len() == 0 {
                String::from_str("unknown")
            } else {
                l
            }
        },
        None => String::from_str("unknown"),
    }
}

/// Whether a scanned file's extension makes it part of the audio library:
/// `mp3`, `m4a` or `wav`, compared case-insensitively.
pub open spec fn is_library_audio_file_spec(p: Seq<char>) -> bool {
    match extension_spec(p) {
        Some(e) => {
            let l = ascii_lower_spec(e);
            l == "mp3"@ || l == "m4a"@ || l == "wav"@
        },
        None => false,
    }
}

/// Decides whether a scanned file belongs to the audio library.
pub fn is_library_audio_file(path: &str) -> (r: bool)
    ensures
        r == is_library_audio_file_spec(path@),
{
    match extension_of(path) {
        Some(e) => {
            let l = ascii_lower(e.as_str());
            l == String::from_str("mp3") || l == String::from_str("m4a") || l == String::from_str(
                "wav",
            )
        },
        None => false,
    }
}

/// The preset's cutoff: seven, thirty or ninety days before now, no cutoff
/// for `all`, and nothing for an unrecognized preset.
pub open spec fn preset_cutoff_spec(preset: Seq<char>, now: int) -> Option<Option<int>> {
    if preset == "7d"@ {
        Some(Some(now - 604800))
    } else if preset == "30d"@ {
        Some(Some(now - 2592000))
    } else if preset == "90d"@ {
        Some(Some(now - 7776000))
    } else if preset == "all"@ {
        Some(None)
    } else {
        None
    }
}

/// Resolves a preset name to its modification-time cutoff relative to now.
pub fn preset_min_mtime(preset: &str, now: i64) -> (r: Result<Option<i64>, TranscriptionError>)
    requires
        now >= 0,
    ensures
        r matches Ok(mm) ==> Some(
            match mm {
                Some(mn) => Some(mn as int),
                None => None::<int>,
            },
        ) == preset_cutoff_spec(preset@, now as int),
        r matches Err(e) ==> preset_cutoff_spec(preset@, now as int) is None && (e matches
            TranscriptionError::InvalidPreset(s) && s@ == preset@),
{
    let p = String::from_str(preset);
    if p == String::from_str("7d") {
        Ok(Some(now - 604800))
    } else if p == String::from_str("30d") {
        Ok(Some(now - 2592000))
    } else if p == String::from_str("90d") {
        Ok(Some(now - 7776000))
    } else if p == String::from_str("all") {
        Ok(None)
    } else {
        Err(TranscriptionError::InvalidPreset(p))
    }
}

/// Relies on std::time::SystemTime::now and
/// SystemTime::duration_since(UNIX_EPOCH): the current Unix time in whole
/// seconds; a clock before the epoch, or beyond the signed range, yields
/// a clamped value, so the result is never negative.
#[verifier::external_body]
pub fn now_unix() -> (r: i64)
    ensures
        r >= 0,
{
    std::time::SystemTime::now()
        .duration_since(std::time::UNIX_EPOCH)
        .map(|d| i64::try_from(d.as_secs()).unwrap_or(i64::MAX))
        .unwrap_or(0)
}

/// Classifies a duration into its histogram bucket.
pub fn bucket_index(d_ms: u64) -> (r: usize)
    ensures
        r as int == bucket_index_spec(d_ms),
        r < 4,
{
    if d_ms < 120000 {
        0
    } else if d_ms < 300000 {
        1
    } else if d_ms < 900000 {
        2
    } else {
        3
    }
}

/// Looks up the first metadata entry for a path.
pub fn lookup_meta<'a>(
    meta: &'a Vec<(String, TranscriptionMetaItem)>,
    path: &str,
) -> (r: Option<&'a TranscriptionMetaItem>)
    ensures
        match r {
            Some(mi) => meta_lookup_spec(meta@, path@) == Some(*mi),
            None => meta_lookup_spec(meta@, path@) is None,
        },
{
    let mut i: usize = 0;
    while i < meta.len()
        invariant
            i <= meta@.len(),
            forall|j: int| 0 <= j < i ==> meta@[j].0@ != path@,
        decreases meta@.len() - i,
    {
        if meta[i].0 == String::from_str(path) {
            proof {
                lemma_meta_lookup_at(meta@, path@, i as int);
            }
            return Some(&meta[i].1);
        }
        i = i + 1;
    }
    proof {
        lemma_meta_lookup_at(meta@, path@, meta@.len() as int);
    }
    None
}

proof fn lemma_meta_lookup_at(m: Seq<(String, TranscriptionMetaItem)>, path: Seq<char>, k: int)
    requires
        0 <= k <= m.len(),
        forall|j: int| 0 <= j < k ==> m[j].0@ != path,
        k < m.len() ==> m[k].0@ == path,
    ensures
        meta_lookup_spec(m, path) == if k < m.len() {
            Some(m[k].1)
        } else {
            None::<TranscriptionMetaItem>
        },
    decreases m.len(),
{
    if m.len() == 0 {
    } else if m[0].0@ == path {
        assert(k == 0);
    } else {
        let t = m.drop_first();
        assert(forall|j: int| 0 <= j < k - 1 ==> t[j].0@ != path);
        lemma_meta_lookup_at(t, path, k - 1);
    }
}

/// Preset filtering: a cutoff admits exactly the items whose modification
/// time is at or after it — with `now = T`, preset `7d` excludes exactly
/// the items with `mtime < T - 604800` — and `all` admits everything.
pub proof fn lemma_preset_filter(rec: ScannedRecording, now: i64, mn: int)
    ensures
        passes_filter(rec, Some(mn)) <==> rec.item.mtime >= mn,
        passes_filter(rec, None),
        preset_cutoff_spec("7d"@, now as int) == Some(Some(now - 604800)),
        preset_cutoff_spec("all"@, now as int) == Some(None::<int>),
{
    reveal_strlit("7d");
    reveal_strlit("30d");
    reveal_strlit("90d");
    reveal_strlit("all");
    assert("all"@.len() == 3 && "7d"@.len() == 2);
    assert("all"@ != "7d"@);
    assert("all"@[0] == 'a' && "30d"@[0] == '3' && "90d"@[0] == '9');
    assert("all"@ != "30d"@);
    assert("all"@ != "90d"@);
}

/// Duration bucketing is total and boundary-inclusive at the low end:
/// a duration lands in the last bucket whose lower bound it reaches.
pub proof fn lemma_bucket_boundaries(d_ms: u64)
    ensures
        0 <= bucket_index_spec(d_ms) < 4,
        bucket_index_spec(d_ms) == 0 <==> d_ms < 120000,
        bucket_index_spec(d_ms) == 1 <==> 120000 <= d_ms < 300000,
        bucket_index_spec(d_ms) == 2 <==> 300000 <= d_ms < 900000,
        bucket_index_spec(d_ms) == 3 <==> d_ms >= 900000,
{
}

/// How many items pass the filter.
pub open spec fn count_passing(s: Seq<ScannedRecording>, min: Option<int>) -> int
    decreases s.len(),
{
    if s.len() == 0 {
        0
    } else {
        count_passing(s.drop_last(), min) + if passes_filter(s.last(), min) {
            1int
        } else {
            0int
        }
    }
}

/// The summed duration of the passing items.
pub open spec fn total_ms_sum(s: Seq<ScannedRecording>, min: Option<int>) -> int
    decreases s.len(),
{
    if s.len() == 0 {
        0
    } else {
        total_ms_sum(s.drop_last(), min) + if passes_filter(s.last(), min) {
            duration_ms_spec(s.last()) as int
        } else {
            0int
        }
    }
}

/// How many passing items have a transcript.
pub open spec fn transcribed_count(s: Seq<ScannedRecording>, min: Option<int>) -> int
    decreases s.len(),
{
    if s.len() == 0 {
        0
    } else {
        transcribed_count(s.drop_last(), min) + if passes_filter(s.last(), min)
            && s.last().has_transcript {
            1int
        } else {
            0int
        }
    }
}

/// The summed transcribed milliseconds of the passing items.
pub open spec fn transcribed_ms_sum(
    s: Seq<ScannedRecording>,
    min: Option<int>,
    m: Seq<(String, TranscriptionMetaItem)>,
) -> int
    decreases s.len(),
{
    if s.len() == 0 {
        0
    } else {
        transcribed_ms_sum(s.drop_last(), min, m) + if passes_filter(s.last(), min) {
            transcribed_ms_spec(s.last(), m) as int
        } else {
            0int
        }
    }
}

/// The days on which passing items fall, in first-occurrence order.
pub open spec fn distinct_days(s: Seq<ScannedRecording>, min: Option<int>) -> Seq<int>
    decreases s.len(),
{
    if s.len() == 0 {
        Seq::empty()
    } else {
        let p = distinct_days(s.drop_last(), min);
        if !passes_filter(s.last(), min) {
            p
        } else if p.contains(day_start_spec(s.last().item.mtime)) {
            p
        } else {
            p.push(day_start_spec(s.last().item.mtime))
        }
    }
}

/// The summed duration of the passing items of one day.
pub open spec fn day_rec_ms(s: Seq<ScannedRecording>, min: Option<int>, d: int) -> int
    decreases s.len(),
{
    if s.len() == 0 {
        0
    } else {
        day_rec_ms(s.drop_last(), min, d) + if passes_filter(s.last(), min) && day_start_spec(
            s.last().item.mtime,
        ) == d {
            duration_ms_spec(s.last()) as int
        } else {
            0int
        }
    }
}

/// The summed transcribed milliseconds of the passing items of one day.
pub open spec fn day_trans_ms(
    s: Seq<ScannedRecording>,
    min: Option<int>,
    m: Seq<(String, TranscriptionMetaItem)>,
    d: int,
) -> int
    decreases s.len(),
{
    if s.len() == 0 {
        0
    } else {
        day_trans_ms(s.drop_last(), min, m, d) + if passes_filter(s.last(), min)
            && day_start_spec(s.last().item.mtime) == d {
            transcribed_ms_spec(s.last(), m) as int
        } else {
            0int
        }
    }
}

/// How many passing items fall on one day.
pub open spec fn day_count(s: Seq<ScannedRecording>, min: Option<int>, d: int) -> int
    decreases s.len(),
{
    if s.len() == 0 {
        0
    } else {
        day_count(s.drop_last(), min, d) + if passes_filter(s.last(), min) && day_start_spec(
            s.last().item.mtime,
        ) == d {
            1int
        } else {
            0int
        }
    }
}

/// How many passing items fall in one histogram bucket.
pub open spec fn bucket_count(s: Seq<ScannedRecording>, min: Option<int>, k: int) -> int
    decreases s.len(),
{
    if s.len() == 0 {
        0
    } else {
        bucket_count(s.drop_last(), min, k) + if passes_filter(s.last(), min)
            && bucket_index_spec(duration_ms_spec(s.last())) == k {
            1int
        } else {
            0int
        }
    }
}

/// The summed duration of the passing items of one histogram bucket.
pub open spec fn bucket_ms(s: Seq<ScannedRecording>, min: Option<int>, k: int) -> int
    decreases s.len(),
{
    if s.len() == 0 {
        0
    } else {
        bucket_ms(s.drop_last(), min, k) + if passes_filter(s.last(), min) && bucket_index_spec(
            duration_ms_spec(s.last()),
        ) == k {
            duration_ms_spec(s.last()) as int
        } else {
            0int
        }
    }
}

/// The file-type keys of the passing items, in first-occurrence order.
pub open spec fn distinct_exts(s: Seq<ScannedRecording>, min: Option<int>) -> Seq<Seq<char>>
    decreases s.len(),
{
    if s.len() == 0 {
        Seq::empty()
    } else {
        let p = distinct_exts(s.drop_last(), min);
        if !passes_filter(s.last(), min) {
            p
        } else if p.contains(ext_key_spec(s.last().item.path@)) {
            p
        } else {
            p.push(ext_key_spec(s.last().item.path@))
        }
    }
}

/// How many passing items carry one file-type key.
pub open spec fn ext_count(s: Seq<ScannedRecording>, min: Option<int>, e: Seq<char>) -> int
    decreases s.len(),
{
    if s.len() == 0 {
        0
    } else {
        ext_count(s.drop_last(), min, e) + if passes_filter(s.last(), min) && ext_key_spec(
            s.last().item.path@,
        ) == e {
            1int
        } else {
            0int
        }
    }
}

/// The summed duration of the passing items of one file-type key.
pub open spec fn ext_ms(s: Seq<ScannedRecording>, min: Option<int>, e: Seq<char>) -> int
    decreases s.len(),
{
    if s.len() == 0 {
        0
    } else {
        ext_ms(s.drop_last(), min, e) + if passes_filter(s.last(), min) && ext_key_spec(
            s.last().item.path@,
        ) == e {
            duration_ms_spec(s.last()) as int
        } else {
            0int
        }
    }
}

/// The languages of the passing transcribed items, in first-occurrence
/// order.
pub open spec fn distinct_langs(
    s: Seq<ScannedRecording>,
    min: Option<int>,
    m: Seq<(String, TranscriptionMetaItem)>,
) -> Seq<Seq<char>>
    decreases s.len(),
{
    if s.len() == 0 {
        Seq::empty()
    } else {
        let p = distinct_langs(s.drop_last(), min, m);
        if !(passes_filter(s.last(), min) && s.last().has_transcript) {
            p
        } else if p.contains(language_spec(s.last(), m)) {
            p
        } else {
            p.push(language_spec(s.last(), m))
        }
    }
}

/// How many passing transcribed items carry one language.
pub open spec fn lang_count(
    s: Seq<ScannedRecording>,
    min: Option<int>,
    m: Seq<(String, TranscriptionMetaItem)>,
    l: Seq<char>,
) -> int
    decreases s.len(),
{
    if s.len() == 0 {
        0
    } else {
        lang_count(s.drop_last(), min, m, l) + if passes_filter(s.last(), min)
            && s.last().has_transcript && language_spec(s.last(), m) == l {
            1int
        } else {
            0int
        }
    }
}

/// The summed transcribed milliseconds of one language's passing items.
pub open spec fn lang_ms(
    s: Seq<ScannedRecording>,
    min: Option<int>,
    m: Seq<(String, TranscriptionMetaItem)>,
    l: Seq<char>,
) -> int
    decreases s.len(),
{
    if s.len() == 0 {
        0
    } else {
        lang_ms(s.drop_last(), min, m, l) + if passes_filter(s.last(), min)
            && s.last().has_transcript && language_spec(s.last(), m) == l {
            transcribed_ms_spec(s.last(), m) as int
        } else {
            0int
        }
    }
}

/// The row of one item.
pub open spec fn row_model(
    rec: ScannedRecording,
    m: Seq<(String, TranscriptionMetaItem)>,
) -> RowView {
    RowView {
        id: rec.item.id@,
        name: rec.item.name@,
        path: rec.item.path@,
        mtime_unix: rec.item.mtime as int,
        duration_ms: rec.item.duration_ms,
        has_transcript: rec.has_transcript,
        language: language_spec(rec, m),
    }
}

/// The rows of the passing items, in scan order.
pub open spec fn passing_rows(
    s: Seq<ScannedRecording>,
    min: Option<int>,
    m: Seq<(String, TranscriptionMetaItem)>,
) -> Seq<RowView>
    decreases s.len(),
{
    if s.len() == 0 {
        Seq::empty()
    } else {
        let p = passing_rows(s.drop_last(), min, m);
        if passes_filter(s.last(), min) {
            p.push(row_model(s.last(), m))
        } else {
            p
        }
    }
}

/// The daily series before sorting: one point per distinct day, in
/// first-occurrence order.
pub open spec fn series_points_spec(
    s: Seq<ScannedRecording>,
    min: Option<int>,
    m: Seq<(String, TranscriptionMetaItem)>,
) -> Seq<InsightsSeriesPoint> {
    Seq::new(
        distinct_days(s, min).len(),
        |k: int|
            InsightsSeriesPoint {
                day_start_unix: distinct_days(s, min)[k] as i64,
                recording_ms: day_rec_ms(s, min, distinct_days(s, min)[k]) as u64,
                transcribed_ms: day_trans_ms(s, min, m, distinct_days(s, min)[k]) as u64,
                recordings: day_count(s, min, distinct_days(s, min)[k]) as u64,
            },
    )
}

/// The file-type distribution before sorting, in first-occurrence order.
pub open spec fn ftd_views_spec(s: Seq<ScannedRecording>, min: Option<int>) -> Seq<FtdView> {
    Seq::new(
        distinct_exts(s, min).len(),
        |k: int|
            FtdView {
                ext: distinct_exts(s, min)[k],
                count: ext_count(s, min, distinct_exts(s, min)[k]),
                ms: ext_ms(s, min, distinct_exts(s, min)[k]),
            },
    )
}

/// The language distribution before sorting, in first-occurrence order.
pub open spec fn lang_views_spec(
    s: Seq<ScannedRecording>,
    min: Option<int>,
    m: Seq<(String, TranscriptionMetaItem)>,
) -> Seq<LangView> {
    Seq::new(
        distinct_langs(s, min, m).len(),
        |k: int|
            LangView {
                language: distinct_langs(s, min, m)[k],
                count: lang_count(s, min, m, distinct_langs(s, min, m)[k]),
                transcribed_ms: lang_ms(s, min, m, distinct_langs(s, min, m)[k]),
            },
    )
}

/// The coverage in hundredths of a percent: 10000 times the transcribed
/// time over the total, zero when nothing was recorded, clamped to `u64`.
pub open spec fn coverage_centi_spec(t: int, total: int) -> int {
    if total > 0 {
        if 10000 * t / total > u64::MAX as int {
            u64::MAX as int
        } else {
            10000 * t / total
        }
    } else {
        0
    }
}

/// Whether every scanned duration, metadata figure and modification time
/// is within the aggregator's machine limits.
pub open spec fn inputs_bounded(
    s: Seq<ScannedRecording>,
    m: Seq<(String, TranscriptionMetaItem)>,
) -> bool {
    &&& forall|i: int|
        0 <= i < s.len() ==> (match s[i].item.duration_ms {
            Some(d) => d <= MAX_TRACK_MS,
            None => true,
        }) && s[i].item.mtime >= 0
    &&& forall|j: int|
        0 <= j < m.len() ==> (match (#[trigger] m[j]).1.transcription_ms {
            Some(t) => t <= MAX_TRACK_MS,
            None => true,
        })
}

proof fn lemma_meta_lookup_bounded(m: Seq<(String, TranscriptionMetaItem)>, path: Seq<char>)
    requires
        forall|j: int|
            0 <= j < m.len() ==> (match (#[trigger] m[j]).1.transcription_ms {
                Some(t) => t <= MAX_TRACK_MS,
                None => true,
            }),
    ensures
        match meta_lookup_spec(m, path) {
            Some(mi) => match mi.transcription_ms {
                Some(t) => t <= MAX_TRACK_MS,
                None => true,
            },
            None => true,
        },
    decreases m.len(),
{
    if m.len() == 0 {
    } else if m[0].0@ == path {
    } else {
        let t = m.drop_first();
        lemma_meta_lookup_bounded(t, path);
    }
}

/// One item's contributions are within the machine limits.
proof fn lemma_item_bounded(
    rec: ScannedRecording,
    m: Seq<(String, TranscriptionMetaItem)>,
)
    requires
        match rec.item.duration_ms {
            Some(d) => d <= MAX_TRACK_MS,
            None => true,
        },
        forall|j: int|
            0 <= j < m.len() ==> (match (#[trigger] m[j]).1.transcription_ms {
                Some(t) => t <= MAX_TRACK_MS,
                None => true,
            }),
    ensures
        duration_ms_spec(rec) <= MAX_TRACK_MS,
        transcribed_ms_spec(rec, m) <= MAX_TRACK_MS,
{
    lemma_meta_lookup_bounded(m, rec.item.path@);
}

/// Every aggregate sum stays within the machine limits.
proof fn lemma_aggregate_bounds(
    s: Seq<ScannedRecording>,
    min: Option<int>,
    m: Seq<(String, TranscriptionMetaItem)>,
)
    requires
        inputs_bounded(s, m),
    ensures
        0 <= count_passing(s, min) <= s.len(),
        0 <= total_ms_sum(s, min) <= s.len() * (MAX_TRACK_MS as int),
        0 <= transcribed_count(s, min) <= s.len(),
        0 <= transcribed_ms_sum(s, min, m) <= s.len() * (MAX_TRACK_MS as int),
        forall|d: int| 0 <= #[trigger] day_rec_ms(s, min, d) <= s.len() * (MAX_TRACK_MS as int),
        forall|d: int|
            0 <= #[trigger] day_trans_ms(s, min, m, d) <= s.len() * (MAX_TRACK_MS as int),
        forall|d: int| 0 <= #[trigger] day_count(s, min, d) <= s.len(),
        forall|k: int| 0 <= #[trigger] bucket_count(s, min, k) <= s.len(),
        forall|k: int| 0 <= #[trigger] bucket_ms(s, min, k) <= s.len() * (MAX_TRACK_MS as int),
        forall|e: Seq<char>| 0 <= #[trigger] ext_count(s, min, e) <= s.len(),
        forall|e: Seq<char>| 0 <= #[trigger] ext_ms(s, min, e) <= s.len() * (MAX_TRACK_MS as int),
        forall|l: Seq<char>| 0 <= #[trigger] lang_count(s, min, m, l) <= s.len(),
        forall|l: Seq<char>|
            0 <= #[trigger] lang_ms(s, min, m, l) <= s.len() * (MAX_TRACK_MS as int),
    decreases s.len(),
{
    if s.len() == 0 {
    } else {
        let t = s.drop_last();
        assert(inputs_bounded(t, m));
        lemma_aggregate_bounds(t, min, m);
        lemma_item_bounded(s.last(), m);
        assert(t.len() * (MAX_TRACK_MS as int) + (MAX_TRACK_MS as int) == s.len() * (
        MAX_TRACK_MS as int)) by (nonlinear_arith)
            requires
                t.len() + 1 == s.len(),
        ;
        assert forall|d: int|
            0 <= #[trigger] day_rec_ms(s, min, d) <= s.len() * (MAX_TRACK_MS as int) by {
            assert(0 <= day_rec_ms(t, min, d) <= t.len() * (MAX_TRACK_MS as int));
        }
        assert forall|d: int|
            0 <= #[trigger] day_trans_ms(s, min, m, d) <= s.len() * (MAX_TRACK_MS as int) by {
            assert(0 <= day_trans_ms(t, min, m, d) <= t.len() * (MAX_TRACK_MS as int));
        }
        assert forall|k: int|
            0 <= #[trigger] bucket_ms(s, min, k) <= s.len() * (MAX_TRACK_MS as int) by {
            assert(0 <= bucket_ms(t, min, k) <= t.len() * (MAX_TRACK_MS as int));
        }
        assert forall|e: Seq<char>|
            0 <= #[trigger] ext_ms(s, min, e) <= s.len() * (MAX_TRACK_MS as int) by {
            assert(0 <= ext_ms(t, min, e) <= t.len() * (MAX_TRACK_MS as int));
        }
        assert forall|l: Seq<char>|
            0 <= #[trigger] lang_ms(s, min, m, l) <= s.len() * (MAX_TRACK_MS as int) by {
            assert(0 <= lang_ms(t, min, m, l) <= t.len() * (MAX_TRACK_MS as int));
        }
        assert forall|d: int| 0 <= #[trigger] day_count(s, min, d) <= s.len() by {
            assert(0 <= day_count(t, min, d) <= t.len());
        }
        assert forall|k: int| 0 <= #[trigger] bucket_count(s, min, k) <= s.len() by {
            assert(0 <= bucket_count(t, min, k) <= t.len());
        }
        assert forall|e: Seq<char>| 0 <= #[trigger] ext_count(s, min, e) <= s.len() by {
            assert(0 <= ext_count(t, min, e) <= t.len());
        }
        assert forall|l: Seq<char>| 0 <= #[trigger] lang_count(s, min, m, l) <= s.len() by {
            assert(0 <= lang_count(t, min, m, l) <= t.len());
        }
    }
}

/// The cutoff a valid preset resolves to; meaningless for an invalid one.
pub open spec fn preset_cutoff_value(preset: Seq<char>, now: int) -> Option<int> {
    match preset_cutoff_spec(preset, now) {
        Some(v) => v,
        None => None,
    }
}

proof fn lemma_distinct_days_nodup(s: Seq<ScannedRecording>, min: Option<int>)
    ensures
        forall|a: int, b: int|
            0 <= a < b < distinct_days(s, min).len() ==> distinct_days(s, min)[a]
                != distinct_days(s, min)[b],
    decreases s.len(),
{
    if s.len() == 0 {
    } else {
        let t = s.drop_last();
        lemma_distinct_days_nodup(t, min);
        let p = distinct_days(t, min);
        let d = distinct_days(s, min);
        if passes_filter(s.last(), min) && !p.contains(day_start_spec(s.last().item.mtime)) {
            assert forall|a: int, b: int| 0 <= a < b < d.len() implies d[a] != d[b] by {
                if b < d.len() - 1 {
                    assert(d[a] == p[a] && d[b] == p[b]);
                } else {
                    assert(d[a] == p[a]);
                    assert(!p.contains(d[b]));
                }
            }
        }
    }
}

proof fn lemma_day_absent_zero(s: Seq<ScannedRecording>, min: Option<int>, m: Seq<
    (String, TranscriptionMetaItem),
>, d: int)
    requires
        !distinct_days(s, min).contains(d),
    ensures
        day_rec_ms(s, min, d) == 0,
        day_trans_ms(s, min, m, d) == 0,
        day_count(s, min, d) == 0,
    decreases s.len(),
{
    if s.len() == 0 {
    } else {
        let t = s.drop_last();
        let p = distinct_days(t, min);
        let dd = distinct_days(s, min);
        assert forall|x: int| p.contains(x) implies dd.contains(x) by {
            let w = choose|w: int| 0 <= w < p.len() && p[w] == x;
            assert(dd[w] == x);
        }
        assert(!p.contains(d));
        lemma_day_absent_zero(t, min, m, d);
        if passes_filter(s.last(), min) && day_start_spec(s.last().item.mtime) == d {
            if p.contains(d) {
                assert(false);
            } else {
                assert(dd == p.push(d));
                assert(dd[dd.len() - 1] == d);
                assert(dd.contains(d));
                assert(false);
            }
        }
    }
}

proof fn lemma_distinct_exts_nodup(s: Seq<ScannedRecording>, min: Option<int>)
    ensures
        forall|a: int, b: int|
            0 <= a < b < distinct_exts(s, min).len() ==> distinct_exts(s, min)[a]
                != distinct_exts(s, min)[b],
    decreases s.len(),
{
    if s.len() == 0 {
    } else {
        let t = s.drop_last();
        lemma_distinct_exts_nodup(t, min);
        let p = distinct_exts(t, min);
        let d = distinct_exts(s, min);
        if passes_filter(s.last(), min) && !p.contains(ext_key_spec(s.last().item.path@)) {
            assert forall|a: int, b: int| 0 <= a < b < d.len() implies d[a] != d[b] by {
                if b < d.len() - 1 {
                    assert(d[a] == p[a] && d[b] == p[b]);
                } else {
                    assert(d[a] == p[a]);
                    assert(!p.contains(d[b]));
                }
            }
        }
    }
}

proof fn lemma_ext_absent_zero(s: Seq<ScannedRecording>, min: Option<int>, e: Seq<char>)
    requires
        !distinct_exts(s, min).contains(e),
    ensures
        ext_count(s, min, e) == 0,
        ext_ms(s, min, e) == 0,
    decreases s.len(),
{
    if s.len() == 0 {
    } else {
        let t = s.drop_last();
        let p = distinct_exts(t, min);
        let dd = distinct_exts(s, min);
        assert forall|x: Seq<char>| p.contains(x) implies dd.contains(x) by {
            let w = choose|w: int| 0 <= w < p.len() && p[w] == x;
            assert(dd[w] == x);
        }
        assert(!p.contains(e));
        lemma_ext_absent_zero(t, min, e);
        if passes_filter(s.last(), min) && ext_key_spec(s.last().item.path@) == e {
            if p.contains(e) {
                assert(false);
            } else {
                assert(dd == p.push(e));
                assert(dd[dd.len() - 1] == e);
                assert(dd.contains(e));
                assert(false);
            }
        }
    }
}

proof fn lemma_distinct_langs_nodup(s: Seq<ScannedRecording>, min: Option<int>, m: Seq<
    (String, TranscriptionMetaItem),
>)
    ensures
        forall|a: int, b: int|
            0 <= a < b < distinct_langs(s, min, m).len() ==> distinct_langs(s, min, m)[a]
                != distinct_langs(s, min, m)[b],
    decreases s.len(),
{
    if s.len() == 0 {
    } else {
        let t = s.drop_last();
        lemma_distinct_langs_nodup(t, min, m);
        let p = distinct_langs(t, min, m);
        let d = distinct_langs(s, min, m);
        if passes_filter(s.last(), min) && s.last().has_transcript && !p.contains(
            language_spec(s.last(), m),
        ) {
            assert forall|a: int, b: int| 0 <= a < b < d.len() implies d[a] != d[b] by {
                if b < d.len() - 1 {
                    assert(d[a] == p[a] && d[b] == p[b]);
                } else {
                    assert(d[a] == p[a]);
                    assert(!p.contains(d[b]));
                }
            }
        }
    }
}

proof fn lemma_lang_absent_zero(s: Seq<ScannedRecording>, min: Option<int>, m: Seq<
    (String, TranscriptionMetaItem),
>, l: Seq<char>)
    requires
        !distinct_langs(s, min, m).contains(l),
    ensures
        lang_count(s, min, m, l) == 0,
        lang_ms(s, min, m, l) == 0,
    decreases s.len(),
{
    if s.len() == 0 {
    } else {
        let t = s.drop_last();
        let p = distinct_langs(t, min, m);
        let dd = distinct_langs(s, min, m);
        assert forall|x: Seq<char>| p.contains(x) implies dd.contains(x) by {
            let w = choose|w: int| 0 <= w < p.len() && p[w] == x;
            assert(dd[w] == x);
        }
        assert(!p.contains(l));
        lemma_lang_absent_zero(t, min, m, l);
        if passes_filter(s.last(), min) && s.last().has_transcript && language_spec(s.last(), m)
            == l {
            if p.contains(l) {
                assert(false);
            } else {
                assert(dd == p.push(l));
                assert(dd[dd.len() - 1] == l);
                assert(dd.contains(l));
                assert(false);
            }
        }
    }
}

/// Sorting keeps the number of rows.
proof fn lemma_rows_insert_len(x: RowView, s: Seq<RowView>)
    ensures
        rows_insert_desc(x, s).len() == s.len() + 1,
    decreases s.len(),
{
    if s.len() == 0 {
    } else if x.mtime_unix > s[0].mtime_unix {
    } else {
        lemma_rows_insert_len(x, s.drop_first());
    }
}

proof fn lemma_rows_sort_len(s: Seq<RowView>)
    ensures
        rows_sort_desc(s).len() == s.len(),
    decreases s.len(),
{
    if s.len() == 0 {
    } else {
        lemma_rows_sort_len(s.drop_last());
        lemma_rows_insert_len(s.last(), rows_sort_desc(s.drop_last()));
    }
}

proof fn lemma_passing_rows_len(s: Seq<ScannedRecording>, min: Option<int>, m: Seq<
    (String, TranscriptionMetaItem),
>)
    ensures
        passing_rows(s, min, m).len() == count_passing(s, min),
    decreases s.len(),
{
    if s.len() == 0 {
    } else {
        lemma_passing_rows_len(s.drop_last(), min, m);
    }
}

proof fn lemma_step_bound(i: int, n: int)
    requires
        0 <= i < n,
        n <= MAX_LIBRARY_ITEMS as int,
    ensures
        (i + 1) * (MAX_TRACK_MS as int) == i * (MAX_TRACK_MS as int) + (MAX_TRACK_MS as int),
        (i + 1) * (MAX_TRACK_MS as int) <= 8000000000000000000,
{
    assert((i + 1) * (MAX_TRACK_MS as int) == i * (MAX_TRACK_MS as int) + (
    MAX_TRACK_MS as int)) by (nonlinear_arith);
    assert((i + 1) * (MAX_TRACK_MS as int) <= (MAX_LIBRARY_ITEMS as int) * (
    MAX_TRACK_MS as int)) by (nonlinear_arith)
        requires
            0 <= i,
            i + 1 <= MAX_LIBRARY_ITEMS as int,
    ;
    assert((MAX_LIBRARY_ITEMS as int) * (MAX_TRACK_MS as int)
        == 8000000000000000000) by (nonlinear_arith);
}

/// Whether a series vector carries exactly the per-day aggregates of a
/// prefix of the scan.
pub open spec fn series_ok(
    series: Seq<InsightsSeriesPoint>,
    s: Seq<ScannedRecording>,
    min: Option<int>,
    m: Seq<(String, TranscriptionMetaItem)>,
) -> bool {
    &&& series.len() == distinct_days(s, min).len()
    &&& forall|k: int|
        0 <= k < series.len() ==> {
            &&& (#[trigger] series[k]).day_start_unix as int == distinct_days(s, min)[k]
            &&& series[k].recording_ms as int == day_rec_ms(s, min, distinct_days(s, min)[k])
            &&& series[k].transcribed_ms as int == day_trans_ms(
                s,
                min,
                m,
                distinct_days(s, min)[k],
            )
            &&& series[k].recordings as int == day_count(s, min, distinct_days(s, min)[k])
        }
}

/// Whether a file-type vector carries exactly the per-extension aggregates
/// of a prefix of the scan.
pub open spec fn ftd_ok(
    ftd: Seq<FileTypeDistributionItem>,
    s: Seq<ScannedRecording>,
    min: Option<int>,
) -> bool {
    &&& ftd.len() == distinct_exts(s, min).len()
    &&& forall|k: int|
        0 <= k < ftd.len() ==> {
            &&& (#[trigger] ftd[k]).ext@ == distinct_exts(s, min)[k]
            &&& ftd[k].count as int == ext_count(s, min, distinct_exts(s, min)[k])
            &&& ftd[k].ms as int == ext_ms(s, min, distinct_exts(s, min)[k])
        }
}

/// Whether a language vector carries exactly the per-language aggregates
/// of a prefix of the scan.
pub open spec fn langs_ok(
    langs: Seq<LanguageDistributionItem>,
    s: Seq<ScannedRecording>,
    min: Option<int>,
    m: Seq<(String, TranscriptionMetaItem)>,
) -> bool {
    &&& langs.len() == distinct_langs(s, min, m).len()
    &&& forall|k: int|
        0 <= k < langs.len() ==> {
            &&& (#[trigger] langs[k]).language@ == distinct_langs(s, min, m)[k]
            &&& langs[k].count as int == lang_count(s, min, m, distinct_langs(s, min, m)[k])
            &&& langs[k].transcribed_ms as int == lang_ms(
                s,
                min,
                m,
                distinct_langs(s, min, m)[k],
            )
        }
}

/// Aggregates the scanned library. The host hands in the scanned items
/// (with their read-only transcript flags) and the caller's per-path
/// metadata; the result is a pure function of those inputs and `now`: the
/// KPIs with the coverage percentage, the daily series ascending by day,
/// the four duration buckets, the file-type and language distributions
/// descending by time, and the ten newest items.
pub fn get_library_insights(
    items: Vec<ScannedRecording>,
    preset: &str,
    now: i64,
    meta: Vec<(String, TranscriptionMetaItem)>,
) -> (r: Result<LibraryInsightsPayload, TranscriptionError>)
    requires
        now >= 0,
        inputs_bounded(items@, meta@),
        items@.len() <= MAX_LIBRARY_ITEMS,
    ensures
        r is Ok <==> preset_cutoff_spec(preset@, now as int) is Some,
        r matches Err(e) ==> (e matches TranscriptionError::InvalidPreset(s) && s@ == preset@),
        r matches Ok(p) ==> {
            let min = preset_cutoff_value(preset@, now as int);
            &&& p.preset@ == preset@
            &&& p.kpis.total_recordings as int == count_passing(items@, min)
            &&& p.kpis.total_recording_ms as int == total_ms_sum(items@, min)
            &&& p.kpis.transcribed_recordings as int == transcribed_count(items@, min)
            &&& p.kpis.transcribed_ms as int == transcribed_ms_sum(items@, min, meta@)
            &&& p.kpis.transcription_coverage_centi_pct as int == coverage_centi_spec(
                transcribed_ms_sum(items@, min, meta@),
                total_ms_sum(items@, min),
            )
            &&& p.series@ == series_sort_asc(series_points_spec(items@, min, meta@))
            &&& p.duration_buckets@.len() == 4
            &&& forall|k: int|
                0 <= k < 4 ==> (#[trigger] p.duration_buckets@[k]).count as int == bucket_count(
                    items@,
                    min,
                    k,
                ) && p.duration_buckets@[k].ms as int == bucket_ms(items@, min, k)
            &&& p.duration_buckets@[0].id@ == "0-2m"@ && p.duration_buckets@[0].label@ == "0-2m"@
            &&& p.duration_buckets@[1].id@ == "2-5m"@ && p.duration_buckets@[1].label@ == "2-5m"@
            &&& p.duration_buckets@[2].id@ == "5-15m"@ && p.duration_buckets@[2].label@
                == "5-15m"@
            &&& p.duration_buckets@[3].id@ == "15m+"@ && p.duration_buckets@[3].label@ == "15m+"@
            &&& p.file_type_distribution@.map_values(|q: FileTypeDistributionItem| ftd_view(q))
                == ftd_sort_desc(ftd_views_spec(items@, min))
            &&& p.language_distribution@.map_values(|q: LanguageDistributionItem| lang_view(q))
                == lang_sort_desc(lang_views_spec(items@, min, meta@))
            &&& p.recent@.map_values(|q: InsightsRecordingRow| row_view(q)) == rows_sort_desc(
                passing_rows(items@, min, meta@),
            ).take(
                if count_passing(items@, min) <= 10 {
                    count_passing(items@, min)
                } else {
                    10
                },
            )
        },
{
    let mm = match preset_min_mtime(preset, now) {
        Ok(v) => v,
        Err(e) => {
            return Err(e);
        },
    };
    let ghost min: Option<int> = preset_cutoff_value(preset@, now as int);
    proof {
        assert(min == match mm {
            Some(x) => Some(x as int),
            None => None::<int>,
        });
    }
    let ghost orig = items@;
    let mut items = items;
    let total_items = items.len();

    let mut total_recordings: u64 = 0;
    let mut total_ms: u64 = 0;
    let mut transcribed_recordings: u64 = 0;
    let mut transcribed_ms_total: u64 = 0;
    let mut series: Vec<InsightsSeriesPoint> = Vec::new();
    let mut bc0: u64 = 0;
    let mut bc1: u64 = 0;
    let mut bc2: u64 = 0;
    let mut bc3: u64 = 0;
    let mut bm0: u64 = 0;
    let mut bm1: u64 = 0;
    let mut bm2: u64 = 0;
    let mut bm3: u64 = 0;
    let mut ftd: Vec<FileTypeDistributionItem> = Vec::new();
    let mut langs: Vec<LanguageDistributionItem> = Vec::new();
    let mut rows: Vec<InsightsRecordingRow> = Vec::new();
    let mut i: usize = 0;

    while items.len() > 0
        invariant
            i + items@.len() == total_items,
            total_items == orig.len(),
            orig.len() <= MAX_LIBRARY_ITEMS,
            items@ =~= orig.skip(i as int),
            inputs_bounded(orig, meta@),
            min == (match mm {
                Some(x) => Some(x as int),
                None => None::<int>,
            }),
            total_recordings as int == count_passing(orig.take(i as int), min),
            total_ms as int == total_ms_sum(orig.take(i as int), min),
            transcribed_recordings as int == transcribed_count(orig.take(i as int), min),
            transcribed_ms_total as int == transcribed_ms_sum(orig.take(i as int), min, meta@),
            series_ok(series@, orig.take(i as int), min, meta@),
            bc0 as int == bucket_count(orig.take(i as int), min, 0),
            bc1 as int == bucket_count(orig.take(i as int), min, 1),
            bc2 as int == bucket_count(orig.take(i as int), min, 2),
            bc3 as int == bucket_count(orig.take(i as int), min, 3),
            bm0 as int == bucket_ms(orig.take(i as int), min, 0),
            bm1 as int == bucket_ms(orig.take(i as int), min, 1),
            bm2 as int == bucket_ms(orig.take(i as int), min, 2),
            bm3 as int == bucket_ms(orig.take(i as int), min, 3),
            ftd_ok(ftd@, orig.take(i as int), min),
            langs_ok(langs@, orig.take(i as int), min, meta@),
            rows@.map_values(|q: InsightsRecordingRow| row_view(q)) == passing_rows(
                orig.take(i as int),
                min,
                meta@,
            ),
        decreases items@.len(),
    {
        let ghost ti = orig.take(i as int);
        let ghost tj = orig.take(i as int + 1);
        let rec = items.remove(0);
        proof {
            assert(orig.skip(i as int)[0] == orig[i as int]);
            assert(rec == orig[i as int]);
            assert(items@ =~= orig.skip(i as int + 1));
            assert(tj.drop_last() =~= ti);
            assert(tj.last() == rec);
            assert(inputs_bounded(ti, meta@)) by {
                assert forall|q: int|
                    0 <= q < ti.len() implies (match (#[trigger] ti[q]).item.duration_ms {
                    Some(d) => d <= MAX_TRACK_MS,
                    None => true,
                }) && ti[q].item.mtime >= 0 by {
                    assert(ti[q] == orig[q]);
                }
            }
            lemma_aggregate_bounds(ti, min, meta@);
            lemma_item_bounded(rec, meta@);
            lemma_step_bound(i as int, orig.len() as int);
            lemma_distinct_days_nodup(ti, min);
            lemma_distinct_exts_nodup(ti, min);
            lemma_distinct_langs_nodup(ti, min, meta@);
        }
        let passes: bool = match mm {
            Some(mn) => rec.item.mtime >= mn,
            None => true,
        };
        proof {
            assert(passes == passes_filter(rec, min));
        }
        if passes {
            let dur: u64 = match rec.item.duration_ms {
                Some(d) => d,
                None => 0,
            };
            proof {
                assert(dur == duration_ms_spec(rec));
            }
            let mi = lookup_meta(&meta, rec.item.path.as_str());
            let t_ms: u64 = if rec.has_transcript {
                match mi {
                    Some(found) => match found.transcription_ms {
                        Some(t) => t,
                        None => dur,
                    },
                    None => dur,
                }
            } else {
                0
            };
            proof {
                assert(t_ms == transcribed_ms_spec(rec, meta@));
            }
            let language: String = if rec.has_transcript {
                match mi {
                    Some(found) => ascii_lower(found.language.as_str()),
                    None => String::from_str("unknown"),
                }
            } else {
                String::from_str("unknown")
            };
            proof {
                assert(language@ == language_spec(rec, meta@));
            }
            total_recordings = total_recordings + 1;
            total_ms = total_ms + dur;
            if rec.has_transcript {
                transcribed_recordings = transcribed_recordings + 1;
                transcribed_ms_total = transcribed_ms_total + t_ms;
            }
            proof {
                assert(total_recordings as int == count_passing(tj, min));
                assert(total_ms as int == total_ms_sum(tj, min));
                assert(transcribed_recordings as int == transcribed_count(tj, min));
                assert(transcribed_ms_total as int == transcribed_ms_sum(tj, min, meta@));
            }
            let day: i64 = rec.item.mtime - rec.item.mtime % 86400;
            proof {
                assert(rec.item.mtime >= 0);
                assert(day as int == day_start_spec(rec.item.mtime));
            }
            let mut k: usize = 0;
            while k < series.len() && series[k].day_start_unix != day
                invariant
                    k <= series@.len(),
                    forall|kk: int| 0 <= kk < k ==> (#[trigger] series@[kk]).day_start_unix != day,
                decreases series@.len() - k,
            {
                k = k + 1;
            }
            let ghost dd_ti = distinct_days(ti, min);
            let ghost dd_tj = distinct_days(tj, min);
            if k < series.len() {
                proof {
                    assert(dd_ti[k as int] == day as int);
                    assert(dd_ti.contains(day as int));
                    assert(dd_tj =~= dd_ti);
                }
                let p = series[k];
                let np = InsightsSeriesPoint {
                    day_start_unix: p.day_start_unix,
                    recording_ms: p.recording_ms + dur,
                    transcribed_ms: p.transcribed_ms + t_ms,
                    recordings: p.recordings + 1,
                };
                let ghost old_series = series@;
                series.remove(k);
                series.insert(k, np);
                proof {
                    assert(series@ =~= old_series.update(k as int, np));
                    assert(series_ok(series@, tj, min, meta@)) by {
                        assert forall|kk: int| 0 <= kk < series@.len() implies {
                            &&& (#[trigger] series@[kk]).day_start_unix as int == dd_tj[kk]
                            &&& series@[kk].recording_ms as int == day_rec_ms(tj, min, dd_tj[kk])
                            &&& series@[kk].transcribed_ms as int == day_trans_ms(
                                tj,
                                min,
                                meta@,
                                dd_tj[kk],
                            )
                            &&& series@[kk].recordings as int == day_count(tj, min, dd_tj[kk])
                        } by {
                            if kk != k as int {
                                assert(dd_ti[kk] != dd_ti[k as int]);
                            }
                        }
                    }
                }
            } else {
                proof {
                    assert(!dd_ti.contains(day as int)) by {
                        assert forall|kk: int| 0 <= kk < dd_ti.len() implies dd_ti[kk]
                            != day as int by {
                            assert(series@[kk].day_start_unix != day);
                        }
                    }
                    assert(dd_tj =~= dd_ti.push(day as int));
                    lemma_day_absent_zero(ti, min, meta@, day as int);
                }
                series.push(
                    InsightsSeriesPoint {
                        day_start_unix: day,
                        recording_ms: dur,
                        transcribed_ms: t_ms,
                        recordings: 1,
                    },
                );
                proof {
                    assert(series_ok(series@, tj, min, meta@)) by {
                        assert forall|kk: int| 0 <= kk < series@.len() implies {
                            &&& (#[trigger] series@[kk]).day_start_unix as int == dd_tj[kk]
                            &&& series@[kk].recording_ms as int == day_rec_ms(tj, min, dd_tj[kk])
                            &&& series@[kk].transcribed_ms as int == day_trans_ms(
                                tj,
                                min,
                                meta@,
                                dd_tj[kk],
                            )
                            &&& series@[kk].recordings as int == day_count(tj, min, dd_tj[kk])
                        } by {
                            if kk < series@.len() - 1 {
                                assert(dd_ti[kk] != day as int);
                            }
                        }
                    }
                }
            }
            let bi = bucket_index(dur);
            if bi == 0 {
                bc0 = bc0 + 1;
                bm0 = bm0 + dur;
            } else if bi == 1 {
                bc1 = bc1 + 1;
                bm1 = bm1 + dur;
            } else if bi == 2 {
                bc2 = bc2 + 1;
                bm2 = bm2 + dur;
            } else {
                bc3 = bc3 + 1;
                bm3 = bm3 + dur;
            }
            proof {
                assert(bc0 as int == bucket_count(tj, min, 0));
                assert(bc1 as int == bucket_count(tj, min, 1));
                assert(bc2 as int == bucket_count(tj, min, 2));
                assert(bc3 as int == bucket_count(tj, min, 3));
                assert(bm0 as int == bucket_ms(tj, min, 0));
                assert(bm1 as int == bucket_ms(tj, min, 1));
                assert(bm2 as int == bucket_ms(tj, min, 2));
                assert(bm3 as int == bucket_ms(tj, min, 3));
            }
            let ekey = ext_key_of(rec.item.path.as_str());
            let mut f: usize = 0;
            while f < ftd.len() && !(ftd[f].ext == ekey)
                invariant
                    f <= ftd@.len(),
                    forall|kk: int| 0 <= kk < f ==> (#[trigger] ftd@[kk]).ext@ != ekey@,
                decreases ftd@.len() - f,
            {
                f = f + 1;
            }
            let ghost de_ti = distinct_exts(ti, min);
            let ghost de_tj = distinct_exts(tj, min);
            if f < ftd.len() {
                proof {
                    assert(de_ti[f as int] == ekey@);
                    assert(de_ti.contains(ekey@));
                    assert(de_tj =~= de_ti);
                }
                let ghost old_ftd = ftd@;
                let e = ftd.remove(f);
                let ne = FileTypeDistributionItem { ext: e.ext, count: e.count + 1, ms: e.ms + dur };
                ftd.insert(f, ne);
                proof {
                    assert(ftd@ =~= old_ftd.update(f as int, ne));
                    assert(ftd_ok(ftd@, tj, min)) by {
                        assert forall|kk: int| 0 <= kk < ftd@.len() implies {
                            &&& (#[trigger] ftd@[kk]).ext@ == de_tj[kk]
                            &&& ftd@[kk].count as int == ext_count(tj, min, de_tj[kk])
                            &&& ftd@[kk].ms as int == ext_ms(tj, min, de_tj[kk])
                        } by {
                            if kk != f as int {
                                assert(de_ti[kk] != de_ti[f as int]);
                            }
                        }
                    }
                }
            } else {
                proof {
                    assert(!de_ti.contains(ekey@)) by {
                        assert forall|kk: int| 0 <= kk < de_ti.len() implies de_ti[kk]
                            != ekey@ by {
                            assert(ftd@[kk].ext@ != ekey@);
                        }
                    }
                    assert(de_tj =~= de_ti.push(ekey@));
                    lemma_ext_absent_zero(ti, min, ekey@);
                }
                ftd.push(FileTypeDistributionItem { ext: ekey, count: 1, ms: dur });
                proof {
                    assert(ftd_ok(ftd@, tj, min)) by {
                        assert forall|kk: int| 0 <= kk < ftd@.len() implies {
                            &&& (#[trigger] ftd@[kk]).ext@ == de_tj[kk]
                            &&& ftd@[kk].count as int == ext_count(tj, min, de_tj[kk])
                            &&& ftd@[kk].ms as int == ext_ms(tj, min, de_tj[kk])
                        } by {
                            if kk < ftd@.len() - 1 {
                                assert(de_ti[kk] != ekey@);
                            }
                        }
                    }
                }
            }
            let ghost dl_ti = distinct_langs(ti, min, meta@);
            let ghost dl_tj = distinct_langs(tj, min, meta@);
            if rec.has_transcript {
                let lkey = language.clone();
                let mut g: usize = 0;
                while g < langs.len() && !(langs[g].language == lkey)
                    invariant
                        g <= langs@.len(),
                        forall|kk: int| 0 <= kk < g ==> (#[trigger] langs@[kk]).language@ != lkey@,
                    decreases langs@.len() - g,
                {
                    g = g + 1;
                }
                if g < langs.len() {
                    proof {
                        assert(dl_ti[g as int] == lkey@);
                        assert(dl_ti.contains(lkey@));
                        assert(dl_tj =~= dl_ti);
                    }
                    let ghost old_langs = langs@;
                    let e = langs.remove(g);
                    let ne = LanguageDistributionItem {
                        language: e.language,
                        count: e.count + 1,
                        transcribed_ms: e.transcribed_ms + t_ms,
                    };
                    langs.insert(g, ne);
                    proof {
                        assert(langs@ =~= old_langs.update(g as int, ne));
                        assert(langs_ok(langs@, tj, min, meta@)) by {
                            assert forall|kk: int| 0 <= kk < langs@.len() implies {
                                &&& (#[trigger] langs@[kk]).language@ == dl_tj[kk]
                                &&& langs@[kk].count as int == lang_count(tj, min, meta@, dl_tj[kk])
                                &&& langs@[kk].transcribed_ms as int == lang_ms(
                                    tj,
                                    min,
                                    meta@,
                                    dl_tj[kk],
                                )
                            } by {
                                if kk != g as int {
                                    assert(dl_ti[kk] != dl_ti[g as int]);
                                }
                            }
                        }
                    }
                } else {
                    proof {
                        assert(!dl_ti.contains(lkey@)) by {
                            assert forall|kk: int| 0 <= kk < dl_ti.len() implies dl_ti[kk]
                                != lkey@ by {
                                assert(langs@[kk].language@ != lkey@);
                            }
                        }
                        assert(dl_tj =~= dl_ti.push(lkey@));
                        lemma_lang_absent_zero(ti, min, meta@, lkey@);
                    }
                    langs.push(
                        LanguageDistributionItem { language: lkey, count: 1, transcribed_ms: t_ms },
                    );
                    proof {
                        assert(langs_ok(langs@, tj, min, meta@)) by {
                            assert forall|kk: int| 0 <= kk < langs@.len() implies {
                                &&& (#[trigger] langs@[kk]).language@ == dl_tj[kk]
                                &&& langs@[kk].count as int == lang_count(tj, min, meta@, dl_tj[kk])
                                &&& langs@[kk].transcribed_ms as int == lang_ms(
                                    tj,
                                    min,
                                    meta@,
                                    dl_tj[kk],
                                )
                            } by {
                                if kk < langs@.len() - 1 {
                                    assert(dl_ti[kk] != lkey@);
                                }
                            }
                        }
                    }
                }
            } else {
                proof {
                    assert(dl_tj =~= dl_ti);
                    assert(langs_ok(langs@, tj, min, meta@)) by {
                        assert forall|kk: int| 0 <= kk < langs@.len() implies {
                            &&& (#[trigger] langs@[kk]).language@ == dl_tj[kk]
                            &&& langs@[kk].count as int == lang_count(tj, min, meta@, dl_tj[kk])
                            &&& langs@[kk].transcribed_ms as int == lang_ms(
                                tj,
                                min,
                                meta@,
                                dl_tj[kk],
                            )
                        } by {
                        }
                    }
                }
            }
            let new_row = InsightsRecordingRow {
                id: rec.item.id,
                name: rec.item.name,
                path: rec.item.path,
                mtime_unix: rec.item.mtime,
                duration_ms: rec.item.duration_ms,
                has_transcript: rec.has_transcript,
                language,
            };
            proof {
                assert(row_view(new_row) == row_model(rec, meta@));
            }
            rows.push(new_row);
            proof {
                assert(rows@.map_values(|q: InsightsRecordingRow| row_view(q)) =~= passing_rows(
                    tj,
                    min,
                    meta@,
                ));
            }
        } else {
            proof {
                assert(count_passing(tj, min) == count_passing(ti, min));
                assert(total_ms_sum(tj, min) == total_ms_sum(ti, min));
                assert(transcribed_count(tj, min) == transcribed_count(ti, min));
                assert(transcribed_ms_sum(tj, min, meta@) == transcribed_ms_sum(ti, min, meta@));
                assert(distinct_days(tj, min) == distinct_days(ti, min));
                assert(distinct_exts(tj, min) == distinct_exts(ti, min));
                assert(distinct_langs(tj, min, meta@) == distinct_langs(ti, min, meta@));
                assert(series_ok(series@, tj, min, meta@)) by {
                    assert forall|kk: int| 0 <= kk < series@.len() implies {
                        &&& (#[trigger] series@[kk]).day_start_unix as int == distinct_days(
                            tj,
                            min,
                        )[kk]
                        &&& series@[kk].recording_ms as int == day_rec_ms(
                            tj,
                            min,
                            distinct_days(tj, min)[kk],
                        )
                        &&& series@[kk].transcribed_ms as int == day_trans_ms(
                            tj,
                            min,
                            meta@,
                            distinct_days(tj, min)[kk],
                        )
                        &&& series@[kk].recordings as int == day_count(
                            tj,
                            min,
                            distinct_days(tj, min)[kk],
                        )
                    } by {
                    }
                }
                assert(ftd_ok(ftd@, tj, min)) by {
                    assert forall|kk: int| 0 <= kk < ftd@.len() implies {
                        &&& (#[trigger] ftd@[kk]).ext@ == distinct_exts(tj, min)[kk]
                        &&& ftd@[kk].count as int == ext_count(tj, min, distinct_exts(tj, min)[kk])
                        &&& ftd@[kk].ms as int == ext_ms(tj, min, distinct_exts(tj, min)[kk])
                    } by {
                    }
                }
                assert(langs_ok(langs@, tj, min, meta@)) by {
                    assert forall|kk: int| 0 <= kk < langs@.len() implies {
                        &&& (#[trigger] langs@[kk]).language@ == distinct_langs(tj, min, meta@)[kk]
                        &&& langs@[kk].count as int == lang_count(
                            tj,
                            min,
                            meta@,
                            distinct_langs(tj, min, meta@)[kk],
                        )
                        &&& langs@[kk].transcribed_ms as int == lang_ms(
                            tj,
                            min,
                            meta@,
                            distinct_langs(tj, min, meta@)[kk],
                        )
                    } by {
                    }
                }
                assert(passing_rows(tj, min, meta@) =~= passing_rows(ti, min, meta@));
            }
        }
        i = i + 1;
    }
    proof {
        assert(orig.take(orig.len() as int) =~= orig);
    }

    let cov: u64 = if total_ms > 0 {
        let c: u128 = 10000u128 * (transcribed_ms_total as u128) / (total_ms as u128);
        if c > (u64::MAX as u128) {
            u64::MAX
        } else {
            c as u64
        }
    } else {
        0
    };
    proof {
        assert(cov as int == coverage_centi_spec(
            transcribed_ms_sum(orig, min, meta@),
            total_ms_sum(orig, min),
        ));
    }

    proof {
        assert(series@ =~= series_points_spec(orig, min, meta@));
    }
    let series_sorted = sort_series(series);

    let mut duration_buckets: Vec<InsightsBucket> = Vec::new();
    duration_buckets.push(
        InsightsBucket {
            id: String::from_str("0-2m"),
            label: String::from_str("0-2m"),
            count: bc0,
            ms: bm0,
        },
    );
    duration_buckets.push(
        InsightsBucket {
            id: String::from_str("2-5m"),
            label: String::from_str("2-5m"),
            count: bc1,
            ms: bm1,
        },
    );
    duration_buckets.push(
        InsightsBucket {
            id: String::from_str("5-15m"),
            label: String::from_str("5-15m"),
            count: bc2,
            ms: bm2,
        },
    );
    duration_buckets.push(
        InsightsBucket {
            id: String::from_str("15m+"),
            label: String::from_str("15m+"),
            count: bc3,
            ms: bm3,
        },
    );

    proof {
        assert(ftd@.map_values(|q: FileTypeDistributionItem| ftd_view(q)) =~= ftd_views_spec(
            orig,
            min,
        ));
        assert(langs@.map_values(|q: LanguageDistributionItem| lang_view(q)) =~= lang_views_spec(
            orig,
            min,
            meta@,
        ));
    }
    let ftd_sorted = sort_ftd_desc(ftd);
    let lang_sorted = sort_lang_desc(langs);

    proof {
        lemma_passing_rows_len(orig, min, meta@);
        lemma_rows_sort_len(passing_rows(orig, min, meta@));
    }
    let mut recent = sort_rows_desc(rows);
    if recent.len() > 10 {
        let ghost before = recent@;
        recent.truncate(10);
        proof {
            assert(recent@.map_values(|q: InsightsRecordingRow| row_view(q)) =~= before.map_values(
                |q: InsightsRecordingRow| row_view(q),
            ).take(10));
        }
    } else {
        proof {
            assert(recent@.map_values(|q: InsightsRecordingRow| row_view(q)) =~= recent@.map_values(
                |q: InsightsRecordingRow| row_view(q),
            ).take(recent@.len() as int));
        }
    }

    Ok(
        LibraryInsightsPayload {
            preset: String::from_str(preset),
            kpis: InsightsKpis {
                total_recordings,
                total_recording_ms: total_ms,
                transcribed_recordings,
                transcribed_ms: transcribed_ms_total,
                transcription_coverage_centi_pct: cov,
            },
            series: series_sorted,
            duration_buckets,
            language_distribution: lang_sorted,
            file_type_distribution: ftd_sorted,
            recent,
        },
    )
}

/// Inserts a point into a day-ascending sequence, after any equal day.
pub open spec fn series_insert_asc(
    x: InsightsSeriesPoint,
    s: Seq<InsightsSeriesPoint>,
) -> Seq<InsightsSeriesPoint>
    decreases s.len(),
{
    if s.len() == 0 {
        seq![x]
    } else if x.day_start_unix < s[0].day_start_unix {
        seq![x] + s
    } else {
        seq![s[0]] + series_insert_asc(x, s.drop_first())
    }
}

/// Sorts the series ascending by day; stable.
pub open spec fn series_sort_asc(s: Seq<InsightsSeriesPoint>) -> Seq<InsightsSeriesPoint>
    decreases s.len(),
{
    if s.len() == 0 {
        s
    } else {
        series_insert_asc(s.last(), series_sort_asc(s.drop_last()))
    }
}

proof fn lemma_series_insert_at(x: InsightsSeriesPoint, s: Seq<InsightsSeriesPoint>, j: int)
    requires
        0 <= j <= s.len(),
        forall|k: int| 0 <= k < j ==> !(x.day_start_unix < s[k].day_start_unix),
        j < s.len() ==> x.day_start_unix < s[j].day_start_unix,
    ensures
        series_insert_asc(x, s) =~= s.take(j) + seq![x] + s.skip(j),
    decreases s.len(),
{
    if j == 0 {
    } else {
        lemma_series_insert_at(x, s.drop_first(), j - 1);
        assert(s.drop_first().take(j - 1) =~= s.take(j).drop_first());
        assert(s.drop_first().skip(j - 1) =~= s.skip(j));
    }
}

/// Sorts the daily series ascending by day.
pub fn sort_series(v: Vec<InsightsSeriesPoint>) -> (r: Vec<InsightsSeriesPoint>)
    ensures
        r@ == series_sort_asc(v@),
{
    let mut r: Vec<InsightsSeriesPoint> = Vec::new();
    let mut i: usize = 0;
    while i < v.len()
        invariant
            i <= v@.len(),
            r@ == series_sort_asc(v@.take(i as int)),
            r@.len() == i,
        decreases v@.len() - i,
    {
        let x = v[i];
        let mut j: usize = 0;
        while j < r.len() && !(x.day_start_unix < r[j].day_start_unix)
            invariant
                j <= r@.len(),
                forall|k: int| 0 <= k < j ==> !(x.day_start_unix < r@[k].day_start_unix),
            decreases r@.len() - j,
        {
            j = j + 1;
        }
        proof {
            lemma_series_insert_at(x, r@, j as int);
        }
        let ghost old_r = r@;
        r.insert(j, x);
        i = i + 1;
        proof {
            assert(r@ =~= old_r.take(j as int) + seq![x] + old_r.skip(j as int));
            assert(v@.take(i as int).drop_last() =~= v@.take(i as int - 1));
            assert(v@.take(i as int).last() == x);
            assert(r@ == series_sort_asc(v@.take(i as int)));
        }
    }
    proof {
        assert(v@.take(v@.len() as int) =~= v@);
    }
    r
}

/// Inserts a row into an mtime-descending sequence, after any equal mtime.
pub open spec fn rows_insert_desc(x: RowView, s: Seq<RowView>) -> Seq<RowView>
    decreases s.len(),
{
    if s.len() == 0 {
        seq![x]
    } else if x.mtime_unix > s[0].mtime_unix {
        seq![x] + s
    } else {
        seq![s[0]] + rows_insert_desc(x, s.drop_first())
    }
}

/// Sorts rows descending by modification time; stable, so items of one
/// mtime keep their scan order.
pub open spec fn rows_sort_desc(s: Seq<RowView>) -> Seq<RowView>
    decreases s.len(),
{
    if s.len() == 0 {
        s
    } else {
        rows_insert_desc(s.last(), rows_sort_desc(s.drop_last()))
    }
}

proof fn lemma_rows_insert_at(x: RowView, s: Seq<RowView>, j: int)
    requires
        0 <= j <= s.len(),
        forall|k: int| 0 <= k < j ==> !(x.mtime_unix > s[k].mtime_unix),
        j < s.len() ==> x.mtime_unix > s[j].mtime_unix,
    ensures
        rows_insert_desc(x, s) =~= s.take(j) + seq![x] + s.skip(j),
    decreases s.len(),
{
    if j == 0 {
    } else {
        lemma_rows_insert_at(x, s.drop_first(), j - 1);
        assert(s.drop_first().take(j - 1) =~= s.take(j).drop_first());
        assert(s.drop_first().skip(j - 1) =~= s.skip(j));
    }
}

/// Sorts the recent rows descending by modification time.
pub fn sort_rows_desc(v: Vec<InsightsRecordingRow>) -> (r: Vec<InsightsRecordingRow>)
    ensures
        r@.map_values(|q: InsightsRecordingRow| row_view(q)) == rows_sort_desc(
            v@.map_values(|q: InsightsRecordingRow| row_view(q)),
        ),
{
    let ghost orig = v@.map_values(|q: InsightsRecordingRow| row_view(q));
    let mut v = v;
    let total = v.len();
    let mut r: Vec<InsightsRecordingRow> = Vec::new();
    let mut i: usize = 0;
    while v.len() > 0
        invariant
            i + v@.len() == total,
            total == orig.len(),
            v@.map_values(|q: InsightsRecordingRow| row_view(q)) =~= orig.skip(i as int),
            r@.map_values(|q: InsightsRecordingRow| row_view(q)) == rows_sort_desc(
                orig.take(i as int),
            ),
            r@.len() == i,
        decreases v@.len(),
    {
        let ghost old_vmap = v@.map_values(|q: InsightsRecordingRow| row_view(q));
        let x = v.remove(0);
        proof {
            assert(row_view(x) == old_vmap[0]);
            assert(row_view(x) == orig[i as int]);
            assert(v@.map_values(|q: InsightsRecordingRow| row_view(q)) =~= old_vmap.drop_first());
            assert(old_vmap.drop_first() =~= orig.skip(i as int + 1));
        }
        let mut j: usize = 0;
        while j < r.len() && !(x.mtime_unix > r[j].mtime_unix)
            invariant
                j <= r@.len(),
                forall|k: int| 0 <= k < j ==> !(x.mtime_unix > r@[k].mtime_unix),
            decreases r@.len() - j,
        {
            j = j + 1;
        }
        let ghost old_map = r@.map_values(|q: InsightsRecordingRow| row_view(q));
        proof {
            assert(forall|k: int| 0 <= k < r@.len() ==> old_map[k] == row_view(r@[k]));
            lemma_rows_insert_at(row_view(x), old_map, j as int);
        }
        r.insert(j, x);
        i = i + 1;
        proof {
            let f = |q: InsightsRecordingRow| row_view(q);
            assert(r@.map_values(f) =~= old_map.take(j as int) + seq![row_view(x)]
                + old_map.skip(j as int));
            assert(orig.take(i as int).drop_last() =~= orig.take(i as int - 1));
            assert(orig.take(i as int).last() == row_view(x));
            assert(r@.map_values(f) == rows_sort_desc(orig.take(i as int)));
        }
    }
    proof {
        assert(orig.take(orig.len() as int) =~= orig);
    }
    r
}

/// Inserts a file-type entry into a time-descending sequence, after any
/// equal time.
pub open spec fn ftd_insert_desc(x: FtdView, s: Seq<FtdView>) -> Seq<FtdView>
    decreases s.len(),
{
    if s.len() == 0 {
        seq![x]
    } else if x.ms > s[0].ms {
        seq![x] + s
    } else {
        seq![s[0]] + ftd_insert_desc(x, s.drop_first())
    }
}

/// Sorts the file-type distribution descending by summed time; stable.
pub open spec fn ftd_sort_desc(s: Seq<FtdView>) -> Seq<FtdView>
    decreases s.len(),
{
    if s.len() == 0 {
        s
    } else {
        ftd_insert_desc(s.last(), ftd_sort_desc(s.drop_last()))
    }
}

proof fn lemma_ftd_insert_at(x: FtdView, s: Seq<FtdView>, j: int)
    requires
        0 <= j <= s.len(),
        forall|k: int| 0 <= k < j ==> !(x.ms > s[k].ms),
        j < s.len() ==> x.ms > s[j].ms,
    ensures
        ftd_insert_desc(x, s) =~= s.take(j) + seq![x] + s.skip(j),
    decreases s.len(),
{
    if j == 0 {
    } else {
        lemma_ftd_insert_at(x, s.drop_first(), j - 1);
        assert(s.drop_first().take(j - 1) =~= s.take(j).drop_first());
        assert(s.drop_first().skip(j - 1) =~= s.skip(j));
    }
}

/// Sorts the file-type distribution descending by summed time.
pub fn sort_ftd_desc(v: Vec<FileTypeDistributionItem>) -> (r: Vec<FileTypeDistributionItem>)
    ensures
        r@.map_values(|q: FileTypeDistributionItem| ftd_view(q)) == ftd_sort_desc(
            v@.map_values(|q: FileTypeDistributionItem| ftd_view(q)),
        ),
{
    let ghost orig = v@.map_values(|q: FileTypeDistributionItem| ftd_view(q));
    let mut v = v;
    let total = v.len();
    let mut r: Vec<FileTypeDistributionItem> = Vec::new();
    let mut i: usize = 0;
    while v.len() > 0
        invariant
            i + v@.len() == total,
            total == orig.len(),
            v@.map_values(|q: FileTypeDistributionItem| ftd_view(q)) =~= orig.skip(i as int),
            r@.map_values(|q: FileTypeDistributionItem| ftd_view(q)) == ftd_sort_desc(
                orig.take(i as int),
            ),
            r@.len() == i,
        decreases v@.len(),
    {
        let ghost old_vmap = v@.map_values(|q: FileTypeDistributionItem| ftd_view(q));
        let x = v.remove(0);
        proof {
            assert(ftd_view(x) == old_vmap[0]);
            assert(ftd_view(x) == orig[i as int]);
            assert(v@.map_values(|q: FileTypeDistributionItem| ftd_view(q)) =~= old_vmap.drop_first());
            assert(old_vmap.drop_first() =~= orig.skip(i as int + 1));
        }
        let mut j: usize = 0;
        while j < r.len() && !(x.ms > r[j].ms)
            invariant
                j <= r@.len(),
                forall|k: int| 0 <= k < j ==> !(x.ms > r@[k].ms),
            decreases r@.len() - j,
        {
            j = j + 1;
        }
        let ghost old_map = r@.map_values(|q: FileTypeDistributionItem| ftd_view(q));
        proof {
            assert(forall|k: int| 0 <= k < r@.len() ==> old_map[k] == ftd_view(r@[k]));
            lemma_ftd_insert_at(ftd_view(x), old_map, j as int);
        }
        r.insert(j, x);
        i = i + 1;
        proof {
            let f = |q: FileTypeDistributionItem| ftd_view(q);
            assert(r@.map_values(f) =~= old_map.take(j as int) + seq![ftd_view(x)]
                + old_map.skip(j as int));
            assert(orig.take(i as int).drop_last() =~= orig.take(i as int - 1));
            assert(orig.take(i as int).last() == ftd_view(x));
            assert(r@.map_values(f) == ftd_sort_desc(orig.take(i as int)));
        }
    }
    proof {
        assert(orig.take(orig.len() as int) =~= orig);
    }
    r
}

/// Inserts a language entry into a time-descending sequence, after any
/// equal time.
pub open spec fn lang_insert_desc(x: LangView, s: Seq<LangView>) -> Seq<LangView>
    decreases s.len(),
{
    if s.len() == 0 {
        seq![x]
    } else if x.transcribed_ms > s[0].transcribed_ms {
        seq![x] + s
    } else {
        seq![s[0]] + lang_insert_desc(x, s.drop_first())
    }
}

/// Sorts the language distribution descending by transcribed time; stable.
pub open spec fn lang_sort_desc(s: Seq<LangView>) -> Seq<LangView>
    decreases s.len(),
{
    if s.len() == 0 {
        s
    } else {
        lang_insert_desc(s.last(), lang_sort_desc(s.drop_last()))
    }
}

proof fn lemma_lang_insert_at(x: LangView, s: Seq<LangView>, j: int)
    requires
        0 <= j <= s.len(),
        forall|k: int| 0 <= k < j ==> !(x.transcribed_ms > s[k].transcribed_ms),
        j < s.len() ==> x.transcribed_ms > s[j].transcribed_ms,
    ensures
        lang_insert_desc(x, s) =~= s.take(j) + seq![x] + s.skip(j),
    decreases s.len(),
{
    if j == 0 {
    } else {
        lemma_lang_insert_at(x, s.drop_first(), j - 1);
        assert(s.drop_first().take(j - 1) =~= s.take(j).drop_first());
        assert(s.drop_first().skip(j - 1) =~= s.skip(j));
    }
}

/// Sorts the language distribution descending by transcribed time.
pub fn sort_lang_desc(v: Vec<LanguageDistributionItem>) -> (r: Vec<LanguageDistributionItem>)
    ensures
        r@.map_values(|q: LanguageDistributionItem| lang_view(q)) == lang_sort_desc(
            v@.map_values(|q: LanguageDistributionItem| lang_view(q)),
        ),
{
    let ghost orig = v@.map_values(|q: LanguageDistributionItem| lang_view(q));
    let mut v = v;
    let total = v.len();
    let mut r: Vec<LanguageDistributionItem> = Vec::new();
    let mut i: usize = 0;
    while v.len() > 0
        invariant
            i + v@.len() == total,
            total == orig.len(),
            v@.map_values(|q: LanguageDistributionItem| lang_view(q)) =~= orig.skip(i as int),
            r@.map_values(|q: LanguageDistributionItem| lang_view(q)) == lang_sort_desc(
                orig.take(i as int),
            ),
            r@.len() == i,
        decreases v@.len(),
    {
        let ghost old_vmap = v@.map_values(|q: LanguageDistributionItem| lang_view(q));
        let x = v.remove(0);
        proof {
            assert(lang_view(x) == old_vmap[0]);
            assert(lang_view(x) == orig[i as int]);
            assert(v@.map_values(|q: LanguageDistributionItem| lang_view(q)) =~= old_vmap.drop_first());
            assert(old_vmap.drop_first() =~= orig.skip(i as int + 1));
        }
        let mut j: usize = 0;
        while j < r.len() && !(x.transcribed_ms > r[j].transcribed_ms)
            invariant
                j <= r@.len(),
                forall|k: int| 0 <= k < j ==> !(x.transcribed_ms > r@[k].transcribed_ms),
            decreases r@.len() - j,
        {
            j = j + 1;
        }
        let ghost old_map = r@.map_values(|q: LanguageDistributionItem| lang_view(q));
        proof {
            assert(forall|k: int| 0 <= k < r@.len() ==> old_map[k] == lang_view(r@[k]));
            lemma_lang_insert_at(lang_view(x), old_map, j as int);
        }
        r.insert(j, x);
        i = i + 1;
        proof {
            let f = |q: LanguageDistributionItem| lang_view(q);
            assert(r@.map_values(f) =~= old_map.take(j as int) + seq![lang_view(x)]
                + old_map.skip(j as int));
            assert(orig.take(i as int).drop_last() =~= orig.take(i as int - 1));
            assert(orig.take(i as int).last() == lang_view(x));
            assert(r@.map_values(f) == lang_sort_desc(orig.take(i as int)));
        }
    }
    proof {
        assert(orig.take(orig.len() as int) =~= orig);
    }
    r
}

} // verus!
