//! Error taxonomy of the engine.
//!
//! Validation failures are detected before any external call or filesystem
//! mutation; cache read/write failures are degraded by the callers rather
//! than surfaced; every error can be rendered as a flat descriptive string.

use vstd::prelude::*;
use vstd::string::*;

verus! {

/// All failures the engine can report.
#[derive(Debug, Clone, PartialEq, Eq)]
pub enum TranscriptionError {
    /// The completion/transcription credential is not configured.
    MissingCredential,
    /// A source file (or a transcript for it) no longer exists.
    FileNotFound(String),
    /// The source file exceeds the transcription size limit.
    FileTooLarge(String),
    /// The source file's extension is not a supported audio format.
    UnsupportedFormat,
    /// The network layer failed before the service answered.
    NetworkError(String),
    /// The upstream completion/transcription service failed.
    ServiceError(String),
    /// The model's reply could not be parsed as the expected JSON array.
    MalformedModelResponse(String),
    /// The transcript text was empty after trimming.
    EmptyInput,
    /// The analytics preset is not one of the recognized names.
    InvalidPreset(String),
    /// The host could not resolve its local application data directory.
    HostUnavailable(String),
    /// A read, write or copy failed for any other reason.
    StorageIOError(String),
}

/// The flat string a given error renders to.
pub open spec fn error_message_spec(e: TranscriptionError) -> Seq<char> {
    match e {
        TranscriptionError::MissingCredential =>
            "Missing API key: OPENAI_API_KEY environment variable not set"@,
        TranscriptionError::FileNotFound(s) => "File not found: "@ + s@,
        TranscriptionError::FileTooLarge(s) => "File too large: "@ + s@ + " (max 25 MB)"@,
        TranscriptionError::UnsupportedFormat =>
            "Unsupported audio format. Supported: mp3, m4a, wav, flac, ogg, aac"@,
        TranscriptionError::NetworkError(s) => "Network error: "@ + s@,
        TranscriptionError::ServiceError(s) => "OpenAI API error: "@ + s@,
        TranscriptionError::MalformedModelResponse(s) => "Malformed model response: "@ + s@,
        TranscriptionError::EmptyInput => "Transcript text is empty"@,
        TranscriptionError::InvalidPreset(s) => "Invalid preset: "@ + s@,
        TranscriptionError::HostUnavailable(s) => "Host unavailable: "@ + s@,
        TranscriptionError::StorageIOError(s) => "Storage error: "@ + s@,
    }
}

impl TranscriptionError {
    /// Renders the error as the flat descriptive string other layers show.
    pub fn message(&self) -> (r: String)
        ensures
            r@ == error_message_spec(*self),
    {
        match self {
            TranscriptionError::MissingCredential => String::from_str(
                "Missing API key: OPENAI_API_KEY environment variable not set",
            ),
            TranscriptionError::FileNotFound(s) => String::from_str("File not found: ").concat(
                s.as_str(),
            ),
            TranscriptionError::FileTooLarge(s) => String::from_str("File too large: ").concat(
                s.as_str(),
            ).concat(" (max 25 MB)"),
            TranscriptionError::UnsupportedFormat => String::from_str(
                "Unsupported audio format. Supported: mp3, m4a, wav, flac, ogg, aac",
            ),
            TranscriptionError::NetworkError(s) => String::from_str("Network error: ").concat(
                s.as_str(),
            ),
            TranscriptionError::ServiceError(s) => String::from_str("OpenAI API error: ").concat(
                s.as_str(),
            ),
            TranscriptionError::MalformedModelResponse(s) => String::from_str(
                "Malformed model response: ",
            ).concat(s.as_str()),
            TranscriptionError::EmptyInput => String::from_str("Transcript text is empty"),
            TranscriptionError::InvalidPreset(s) => String::from_str("Invalid preset: ").concat(
                s.as_str(),
            ),
            TranscriptionError::HostUnavailable(s) => String::from_str("Host unavailable: ").concat(
                s.as_str(),
            ),
            TranscriptionError::StorageIOError(s) => String::from_str("Storage error: ").concat(
                s.as_str(),
            ),
        }
    }
}

} // verus!
