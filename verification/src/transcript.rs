//! Transcript resolution and transcription-request validation.
//!
//! Reading a transcript is backward compatible: the managed location wins,
//! and a legacy sidecar transcript found beside the source file is migrated
//! into managed storage on the way out. Writing is forward-only: new
//! transcripts go to the managed location alone.

use vstd::prelude::*;
use vstd::string::*;
use crate::errors::TranscriptionError;
use crate::storage::extension_spec;
use crate::storage::extension_of;
use crate::textutil::{ascii_lower, ascii_lower_spec};

verus! {

/// The transcription size limit in bytes (25 MB).
pub const MAX_TRANSCRIBE_BYTES: u64 = 26214400;

/// Whether a path's extension, lower-cased, is an audio format the
/// transcription service accepts.
pub open spec fn is_supported_format_spec(p: Seq<char>) -> bool {
    match extension_spec(p) {
        Some(e) => {
            let l = ascii_lower_spec(e);
            l == "mp3"@ || l == "m4a"@ || l == "wav"@ || l == "flac"@ || l == "ogg"@ || l
                == "aac"@
        },
        None => false,
    }
}

/// Decides whether a source file's format is supported for transcription.
pub fn is_supported_format(path: &str) -> (r: bool)
    ensures
        r == is_supported_format_spec(path@),
{
    match extension_of(path) {
        Some(e) => {
            let l = ascii_lower(e.as_str());
            l == String::from_str("mp3") || l == String::from_str("m4a") || l == String::from_str(
                "wav",
            ) || l == String::from_str("flac") || l == String::from_str("ogg") || l
                == String::from_str("aac")
        },
        None => false,
    }
}

/// Validates a transcription request before any external call or copy:
/// the file must be within the size limit and of a supported format.
/// The file's existence was already checked by whoever read its length.
pub fn validate_transcription_request(source_path: &str, file_len: u64) -> (r: Result<
    (),
    TranscriptionError,
>)
    ensures
        r is Ok <==> file_len <= MAX_TRANSCRIBE_BYTES && is_supported_format_spec(source_path@),
        file_len > MAX_TRANSCRIBE_BYTES ==> (r matches Err(e) && e matches
            TranscriptionError::FileTooLarge(s) && s@ == source_path@),
        file_len <= MAX_TRANSCRIBE_BYTES && !is_supported_format_spec(source_path@) ==> r == Err::<
            (),
            TranscriptionError,
        >(TranscriptionError::UnsupportedFormat),
{
    if file_len > MAX_TRANSCRIBE_BYTES {
        return Err(TranscriptionError::FileTooLarge(String::from_str(source_path)));
    }
    if !is_supported_format(source_path) {
        return Err(TranscriptionError::UnsupportedFormat);
    }
    Ok(())
}

/// The read-only transcript existence check used by analytics scans: a
/// transcript is present when either the managed file or the legacy
/// sidecar exists. No migration happens here.
pub fn has_transcript(managed_exists: bool, sidecar_exists: bool) -> (r: bool)
    ensures
        r == (managed_exists || sidecar_exists),
{
    managed_exists || sidecar_exists
}

/// The text a resolve returns: the managed transcript when present, else
/// the sidecar's.
pub open spec fn resolve_text_spec(
    managed: Option<Seq<char>>,
    sidecar: Option<Seq<char>>,
) -> Option<Seq<char>> {
    if managed is Some {
        managed
    } else {
        sidecar
    }
}

/// The content a resolve writes into the managed transcript location:
/// nothing when the managed transcript already exists, else the migrated
/// sidecar content.
pub open spec fn resolve_writes_spec(
    managed: Option<Seq<char>>,
    sidecar: Option<Seq<char>>,
) -> Option<Seq<char>> {
    if managed is Some {
        None
    } else {
        sidecar
    }
}

/// Resolves a transcript from the two places it may live. The host hands in
/// the managed transcript's content (when the managed file exists) and the
/// legacy sidecar's content (when that file exists); the result carries the
/// text to return and, on migration, the text the host must write to the
/// managed transcript location. The sidecar is never a write target.
pub fn resolve_transcript(
    managed: Option<String>,
    sidecar: Option<String>,
    source_path: &str,
) -> (r: Result<(String, Option<String>), TranscriptionError>)
    ensures
        r is Ok <==> (managed is Some || sidecar is Some),
        r matches Ok(p) ==> Some(p.0@) == resolve_text_spec(
            managed.deep_view(),
            sidecar.deep_view(),
        ),
        r matches Ok(p) ==> p.1.deep_view() == resolve_writes_spec(
            managed.deep_view(),
            sidecar.deep_view(),
        ),
        r matches Err(e) ==> (e matches TranscriptionError::FileNotFound(m) && m@
            == "Transcript file not found for "@ + source_path@),
{
    match managed {
        Some(t) => Ok((t, None)),
        None => match sidecar {
            Some(t) => {
                let copy = t.clone();
                Ok((copy, Some(t)))
            },
            None => Err(
                TranscriptionError::FileNotFound(
                    String::from_str("Transcript file not found for ").concat(source_path),
                ),
            ),
        },
    }
}

/// Migration: with a legacy sidecar transcript and no managed transcript,
/// a resolve returns exactly the sidecar's content and writes exactly that
/// content to the managed transcript location; the sidecar itself is never
/// written, so it remains untouched.
pub proof fn lemma_resolve_migrates(sidecar: Seq<char>)
    ensures
        resolve_text_spec(None, Some(sidecar)) == Some(sidecar),
        resolve_writes_spec(None, Some(sidecar)) == Some(sidecar),
{
}

} // verus!
