//! The insights record and its orchestration: which derived fields are
//! missing, how freshly fetched fields merge with the cache, the cache
//! key, the prompt templates, and the parsing of model responses.

use vstd::prelude::*;
use vstd::string::*;
use crate::errors::TranscriptionError;
use crate::fingerprint::{fingerprint_hex, hex_of, md5_of};
use crate::jsontext::{parse_actions_doc, parse_insights_doc, parse_topics_doc};
use crate::jsontext::{sp_actions_doc, sp_insights_doc, sp_topics_doc};
use crate::textutil::{find_char, first_index_of, last_index_of, rfind_char, str_to_chars};
use crate::textutil::{string_from_range, trim_spec, trim_text};

verus! {

/// One follow-up action recommended from a transcript.
#[derive(Debug, Clone, PartialEq, Eq)]
pub struct RecommendedAction {
    /// A short imperative title.
    pub title: String,
    /// A one-line description.
    pub description: String,
}

/// The partial, mergeable insights record cached per transcript
/// fingerprint. Each field is independently present or absent.
#[derive(Debug, Clone, PartialEq, Eq)]
pub struct TranscriptInsights {
    /// The transcript's summary.
    pub summary: Option<String>,
    /// The recommended follow-up actions.
    pub actions: Option<Vec<RecommendedAction>>,
    /// The key topic tags.
    pub topics: Option<Vec<String>>,
}

/// The ghost shape of an insights record.
pub ghost struct InsightsView {
    /// The summary text, when present.
    pub summary: Option<Seq<char>>,
    /// The actions as title/description pairs, when present.
    pub actions: Option<Seq<(Seq<char>, Seq<char>)>>,
    /// The topic tags, when present.
    pub topics: Option<Seq<Seq<char>>>,
}

/// The ghost shape of one action.
pub open spec fn action_view(a: RecommendedAction) -> (Seq<char>, Seq<char>) {
    (a.title@, a.description@)
}

/// The ghost shape of an insights record value.
pub open spec fn insights_view(r: TranscriptInsights) -> InsightsView {
    InsightsView {
        summary: match r.summary {
            Some(s) => Some(s@),
            None => None,
        },
        actions: match r.actions {
            Some(v) => Some(v@.map_values(|a: RecommendedAction| action_view(a))),
            None => None,
        },
        topics: match r.topics {
            Some(v) => Some(v@.map_values(|t: String| t@)),
            None => None,
        },
    }
}

/// The record with nothing known yet.
pub open spec fn empty_insights_view() -> InsightsView {
    InsightsView { summary: None, actions: None, topics: None }
}

/// Whether all three derived fields are known.
pub open spec fn insights_complete_spec(c: TranscriptInsights) -> bool {
    c.summary is Some && c.actions is Some && c.topics is Some
}

/// Whether the summary must be fetched, given what the cache held.
pub open spec fn needs_summary_spec(existing: Option<TranscriptInsights>) -> bool {
    !(existing matches Some(c) && c.summary is Some)
}

/// Whether the actions must be fetched, given what the cache held.
pub open spec fn needs_actions_spec(existing: Option<TranscriptInsights>) -> bool {
    !(existing matches Some(c) && c.actions is Some)
}

/// Whether the topics must be fetched, given what the cache held.
pub open spec fn needs_topics_spec(existing: Option<TranscriptInsights>) -> bool {
    !(existing matches Some(c) && c.topics is Some)
}

/// Decides whether a record is complete for all three fields.
pub fn insights_complete(c: &TranscriptInsights) -> (r: bool)
    ensures
        r == insights_complete_spec(*c),
{
    c.summary.is_some() && c.actions.is_some() && c.topics.is_some()
}

/// Which of the three derived fields are missing and must be fetched.
#[derive(Debug, Clone, Copy, PartialEq, Eq, Structural)]
pub struct FieldNeeds {
    /// Whether the summary is missing.
    pub summary: bool,
    /// Whether the actions are missing.
    pub actions: bool,
    /// Whether the topics are missing.
    pub topics: bool,
}

/// Computes which fields are missing from the cached record; each field
/// is judged independently.
pub fn insight_needs(existing: &Option<TranscriptInsights>) -> (r: FieldNeeds)
    ensures
        r.summary == needs_summary_spec(*existing),
        r.actions == needs_actions_spec(*existing),
        r.topics == needs_topics_spec(*existing),
{
    match existing {
        Some(c) => FieldNeeds {
            summary: c.summary.is_none(),
            actions: c.actions.is_none(),
            topics: c.topics.is_none(),
        },
        None => FieldNeeds { summary: true, actions: true, topics: true },
    }
}

/// A record already complete for all three fields needs nothing: the
/// orchestrator plans no external call for it, so serving it performs
/// zero fetches.
pub proof fn lemma_complete_needs_no_fetch(c: TranscriptInsights)
    requires
        insights_complete_spec(c),
    ensures
        !needs_summary_spec(Some(c)),
        !needs_actions_spec(Some(c)),
        !needs_topics_spec(Some(c)),
{
}

/// A freshly computed summary merged over the cached record.
pub open spec fn merge_summary_view(v: InsightsView, s: Seq<char>) -> InsightsView {
    InsightsView { summary: Some(s), ..v }
}

/// The cached record's ghost shape, the empty one when nothing was cached.
pub open spec fn existing_view(existing: Option<TranscriptInsights>) -> InsightsView {
    match existing {
        Some(c) => insights_view(c),
        None => empty_insights_view(),
    }
}

/// Merges a freshly computed summary into the cached record, keeping any
/// cached actions and topics.
pub fn merge_summary(existing: Option<TranscriptInsights>, summary: String) -> (r:
    TranscriptInsights)
    ensures
        insights_view(r) == merge_summary_view(existing_view(existing), summary@),
        r.summary == Some(summary),
{
    match existing {
        Some(c) => TranscriptInsights { summary: Some(summary), actions: c.actions, topics: c.topics },
        None => TranscriptInsights { summary: Some(summary), actions: None, topics: None },
    }
}

/// Writes into the cache never discard: merging a new summary keeps the
/// cached actions and topics exactly as they were, and a field once
/// populated stays populated.
pub proof fn lemma_merge_preserves_fields(v: InsightsView, s: Seq<char>)
    ensures
        merge_summary_view(v, s).summary == Some(s),
        merge_summary_view(v, s).actions == v.actions,
        merge_summary_view(v, s).topics == v.topics,
{
}

/// Assembles the complete record after a fan-out fetch: each field takes
/// the freshly fetched value when one came back, else the cached one.
/// The host fetches exactly the missing fields, so the result is
/// complete whenever every missing field was fetched.
pub fn merge_fetched(
    existing: Option<TranscriptInsights>,
    fetched_summary: Option<String>,
    fetched_actions: Option<Vec<RecommendedAction>>,
    fetched_topics: Option<Vec<String>>,
) -> (r: TranscriptInsights)
    ensures
        r.summary == (match fetched_summary {
            Some(s) => Some(s),
            None => match existing {
                Some(c) => c.summary,
                None => None,
            },
        }),
        r.actions == (match fetched_actions {
            Some(a) => Some(a),
            None => match existing {
                Some(c) => c.actions,
                None => None,
            },
        }),
        r.topics == (match fetched_topics {
            Some(t) => Some(t),
            None => match existing {
                Some(c) => c.topics,
                None => None,
            },
        }),
{
    let (ca, ct, cs) = match existing {
        Some(c) => (c.actions, c.topics, c.summary),
        None => (None, None, None),
    };
    let summary = match fetched_summary {
        Some(s) => Some(s),
        None => cs,
    };
    let actions = match fetched_actions {
        Some(a) => Some(a),
        None => ca,
    };
    let topics = match fetched_topics {
        Some(t) => Some(t),
        None => ct,
    };
    TranscriptInsights { summary, actions, topics }
}

/// The cached summary, when the cache already held one; the orchestrator
/// returns it without any external call.
pub fn cached_summary(existing: &Option<TranscriptInsights>) -> (r: Option<String>)
    ensures
        r is Some <==> (existing matches Some(c) && c.summary is Some),
        r matches Some(s) ==> (existing matches Some(c) && c.summary == Some(s)),
{
    match existing {
        Some(c) => match &c.summary {
            Some(s) => Some(s.clone()),
            None => None,
        },
        None => None,
    }
}

/// Computes the cache key of a transcript: the fingerprint of the trimmed
/// text, so that texts differing only in surrounding whitespace share an
/// entry. Empty trimmed text is rejected before anything else happens.
pub fn insights_cache_key(text: &str) -> (r: Result<String, TranscriptionError>)
    ensures
        r is Ok <==> trim_spec(text@).len() > 0,
        r matches Ok(h) ==> h@ == hex_of(md5_of(trim_spec(text@))) && h@.len() == 32,
        r matches Err(e) ==> e == TranscriptionError::EmptyInput,
{
    let t = trim_text(text);
    if t.as_str().unicode_len() == 0 {
        Err(TranscriptionError::EmptyInput)
    } else {
        Ok(fingerprint_hex(t.as_str()))
    }
}

/// The prompt asking the model for a summary; the raw text is embedded
/// untrimmed.
pub fn summary_prompt(text: &str) -> (r: String)
    ensures
        r@
            == "Summarize the following transcript in 3‑5 bullet points. Focus on key points, decisions, and action items. Transcript:\n\n"@
            + text@,
{
    String::from_str(
        "Summarize the following transcript in 3‑5 bullet points. Focus on key points, decisions, and action items. Transcript:\n\n",
    ).concat(text)
}

/// The prompt asking the model for follow-up actions as a JSON array.
pub fn actions_prompt(text: &str) -> (r: String)
    ensures
        r@
            == "From the transcript below, generate 3-5 concise follow-up action items. Each title should be <= 7 words, description <= 16 words. Respond ONLY with a JSON array of objects with keys 'title' and 'description'. No extra text. Transcript:\n\n"@
            + text@,
{
    String::from_str(
        "From the transcript below, generate 3-5 concise follow-up action items. Each title should be <= 7 words, description <= 16 words. Respond ONLY with a JSON array of objects with keys 'title' and 'description'. No extra text. Transcript:\n\n",
    ).concat(text)
}

/// The prompt asking the model for key topics as a JSON array.
pub fn topics_prompt(text: &str) -> (r: String)
    ensures
        r@
            == "Extract 6-10 key topics from the transcript below. Return short tags (1-3 words), no sentences, no verbs. Respond ONLY with a JSON array of strings. No extra text. Transcript:\n\n"@
            + text@,
{
    String::from_str(
        "Extract 6-10 key topics from the transcript below. Return short tags (1-3 words), no sentences, no verbs. Respond ONLY with a JSON array of strings. No extra text. Transcript:\n\n",
    ).concat(text)
}


/// What a cache file holds: either the structured record, or — when the
/// content is not a readable record — legacy raw text, the whole content
/// taken as a plain summary.
#[derive(Debug, Clone, PartialEq, Eq)]
pub enum CacheFileContent {
    /// The structured JSON record.
    Structured(TranscriptInsights),
    /// The content of a legacy plain-text cache file.
    LegacyText(String),
}

/// Classifies a cache file's content: structured when it reads as the
/// record, legacy raw text otherwise.
pub fn classify_cache_content(content: &str) -> (r: CacheFileContent)
    ensures
        r is Structured <==> sp_insights_doc(content@) is Some,
        r matches CacheFileContent::Structured(rec) ==> sp_insights_doc(content@) == Some(
            insights_view(rec),
        ),
        r matches CacheFileContent::LegacyText(t) ==> t@ == content@,
{
    match parse_insights_doc(content) {
        Some(rec) => CacheFileContent::Structured(rec),
        None => CacheFileContent::LegacyText(String::from_str(content)),
    }
}

/// Reads a cache file's content as a record: the structured record when
/// it parses, else a record holding the whole content as the summary,
/// with actions and topics absent.
pub fn decode_cache_content(content: &str) -> (r: TranscriptInsights)
    ensures
        sp_insights_doc(content@) matches Some(v) ==> insights_view(r) == v,
        sp_insights_doc(content@) is None ==> (r.summary matches Some(s) && s@ == content@)
            && r.actions is None && r.topics is None,
{
    match classify_cache_content(content) {
        CacheFileContent::Structured(rec) => rec,
        CacheFileContent::LegacyText(t) => TranscriptInsights {
            summary: Some(t),
            actions: None,
            topics: None,
        },
    }
}

/// What parsing a model's actions response yields: the strict parse of
/// the trimmed response when it is exactly a JSON array, else the parse
/// of the slice from the first `[` to the last `]`, else nothing.
pub open spec fn actions_response_spec(content: Seq<char>) -> Option<Seq<(Seq<char>, Seq<char>)>> {
    let t = trim_spec(content);
    match sp_actions_doc(t) {
        Some(v) => Some(v),
        None => match (first_index_of(t, '['), last_index_of(t, ']')) {
            (Some(a), Some(b)) => if a <= b {
                sp_actions_doc(t.subrange(a, b + 1))
            } else {
                None
            },
            _ => None,
        },
    }
}

/// What parsing a model's topics response yields, by the same strategy.
pub open spec fn topics_response_spec(content: Seq<char>) -> Option<Seq<Seq<char>>> {
    let t = trim_spec(content);
    match sp_topics_doc(t) {
        Some(v) => Some(v),
        None => match (first_index_of(t, '['), last_index_of(t, ']')) {
            (Some(a), Some(b)) => if a <= b {
                sp_topics_doc(t.subrange(a, b + 1))
            } else {
                None
            },
            _ => None,
        },
    }
}

/// Parses the model's response to the actions prompt: a strict parse of
/// the trimmed response first, then one more try on the slice between
/// the first `[` and the last `]`; anything else fails as a malformed
/// model response rather than crashing.
pub fn parse_actions_response(content: &str) -> (r: Result<
    Vec<RecommendedAction>,
    TranscriptionError,
>)
    ensures
        r is Ok <==> actions_response_spec(content@) is Some,
        r matches Ok(v) ==> actions_response_spec(content@) == Some(
            v@.map_values(|a: RecommendedAction| action_view(a)),
        ),
        r matches Err(e) ==> (e matches TranscriptionError::MalformedModelResponse(m) && m@
            == "no valid JSON array in model response"@),
{
    let t = trim_text(content);
    match parse_actions_doc(t.as_str()) {
        Some(v) => Ok(v),
        None => {
            let chars = str_to_chars(t.as_str());
            let start = find_char(&chars, '[');
            let end = rfind_char(&chars, ']');
            match (start, end) {
                (Some(a), Some(b)) => {
                    if a <= b {
                        let slice = string_from_range(&chars, a, b + 1);
                        match parse_actions_doc(slice.as_str()) {
                            Some(v) => Ok(v),
                            None => Err(
                                TranscriptionError::MalformedModelResponse(
                                    String::from_str("no valid JSON array in model response"),
                                ),
                            ),
                        }
                    } else {
                        Err(
                            TranscriptionError::MalformedModelResponse(
                                String::from_str("no valid JSON array in model response"),
                            ),
                        )
                    }
                },
                _ => Err(
                    TranscriptionError::MalformedModelResponse(
                        String::from_str("no valid JSON array in model response"),
                    ),
                ),
            }
        },
    }
}

/// Parses the model's response to the topics prompt, by the same
/// strategy as the actions response.
pub fn parse_topics_response(content: &str) -> (r: Result<Vec<String>, TranscriptionError>)
    ensures
        r is Ok <==> topics_response_spec(content@) is Some,
        r matches Ok(v) ==> topics_response_spec(content@) == Some(
            v@.map_values(|t: String| t@),
        ),
        r matches Err(e) ==> (e matches TranscriptionError::MalformedModelResponse(m) && m@
            == "no valid JSON array in model response"@),
{
    let t = trim_text(content);
    match parse_topics_doc(t.as_str()) {
        Some(v) => Ok(v),
        None => {
            let chars = str_to_chars(t.as_str());
            let start = find_char(&chars, '[');
            let end = rfind_char(&chars, ']');
            match (start, end) {
                (Some(a), Some(b)) => {
                    if a <= b {
                        let slice = string_from_range(&chars, a, b + 1);
                        match parse_topics_doc(slice.as_str()) {
                            Some(v) => Ok(v),
                            None => Err(
                                TranscriptionError::MalformedModelResponse(
                                    String::from_str("no valid JSON array in model response"),
                                ),
                            ),
                        }
                    } else {
                        Err(
                            TranscriptionError::MalformedModelResponse(
                                String::from_str("no valid JSON array in model response"),
                            ),
                        )
                    }
                },
                _ => Err(
                    TranscriptionError::MalformedModelResponse(
                        String::from_str("no valid JSON array in model response"),
                    ),
                ),
            }
        },
    }
}

} // verus!
