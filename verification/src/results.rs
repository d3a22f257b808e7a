//! Structured results returned across the boundary: every operation ends in
//! a value whose `success` flag, payload and error message are mutually
//! consistent, never in a panic.

use vstd::prelude::*;
use vstd::string::*;

verus! {

/// The classes of failure an operation can report.
#[derive(Clone, Copy, PartialEq, Eq, Structural, Debug)]
pub enum FailureKind {
    /// The base64 payload was malformed.
    DecodeError,
    /// The temporary file could not be created or written.
    StagingError,
    /// The resolved helper path does not exist.
    HelperNotFound,
    /// The external process could not be started.
    SpawnError,
    /// The process ran but exited non-zero, or the native call failed.
    InvocationFailure,
    /// Expected markers were absent from the helper output.
    ProtocolError,
}

/// The human-readable prefix of the message reported for each failure kind.
pub open spec fn failure_prefix(kind: FailureKind) -> Seq<char> {
    match kind {
        FailureKind::DecodeError => "Failed to decode base64 image data: "@,
        FailureKind::StagingError => "Failed to stage image data: "@,
        FailureKind::HelperNotFound => "OCR executable not found at: "@,
        FailureKind::SpawnError => "Failed to start process: "@,
        FailureKind::InvocationFailure => "Operation failed: "@,
        FailureKind::ProtocolError => "Failed to parse expected markers from output: "@,
    }
}

/// The full message for a failure of the given kind: its prefix followed by
/// the diagnostic detail.
pub open spec fn failure_message(kind: FailureKind, detail: Seq<char>) -> Seq<char> {
    failure_prefix(kind) + detail
}

proof fn lemma_failure_prefix_nonempty(kind: FailureKind)
    ensures
        failure_prefix(kind).len() > 0,
{
    reveal_strlit("Failed to decode base64 image data: ");
    reveal_strlit("Failed to stage image data: ");
    reveal_strlit("OCR executable not found at: ");
    reveal_strlit("Failed to start process: ");
    reveal_strlit("Operation failed: ");
    reveal_strlit("Failed to parse expected markers from output: ");
}

/// Builds the error message for a failure: the kind's prefix, then the detail.
pub fn describe_failure(kind: FailureKind, detail: &str) -> (r: String)
    ensures
        r@ == failure_message(kind, detail@),
        r@.len() > 0,
{
    proof {
        lemma_failure_prefix_nonempty(kind);
    }
    let prefix = match kind {
        FailureKind::DecodeError => "Failed to decode base64 image data: ",
        FailureKind::StagingError => "Failed to stage image data: ",
        FailureKind::HelperNotFound => "OCR executable not found at: ",
        FailureKind::SpawnError => "Failed to start process: ",
        FailureKind::InvocationFailure => "Operation failed: ",
        FailureKind::ProtocolError => "Failed to parse expected markers from output: ",
    };
    let mut msg = String::from_str(prefix);
    msg.append(detail);
    msg
}

/// Outcome of a text-recognition request.
#[derive(Debug)]
pub struct OcrResult {
    pub text: String,
    pub success: bool,
    pub error_message: Option<String>,
}

/// A text-recognition request: a base64-encoded image and an optional
/// ordered list of language tags.
#[derive(Debug)]
pub struct OcrRequest {
    pub image_data: String,
    pub languages: Option<Vec<String>>,
}

/// Outcome of asking which languages recognition supports.
#[derive(Debug)]
pub struct SupportedLanguagesResult {
    pub languages: Vec<String>,
    pub success: bool,
    pub error_message: Option<String>,
}

/// Outcome of a speech request: on success, the handle of the speaking
/// process.
#[derive(Debug)]
pub struct TtsResult {
    pub success: bool,
    pub process_id: Option<String>,
    pub error_message: Option<String>,
}

/// Outcome of asking which languages speech synthesis supports.
#[derive(Debug)]
pub struct LanguageResult {
    pub languages: Vec<String>,
    pub success: bool,
    pub error_message: Option<String>,
}

/// Outcome of asking which voices serve a language.
#[derive(Debug)]
pub struct VoiceResult {
    pub voices: Vec<VoiceInfo>,
    pub success: bool,
    pub error_message: Option<String>,
}

/// One voice from the platform voice listing.
#[derive(Clone, Debug)]
pub struct VoiceInfo {
    pub name: String,
    pub identifier: String,
}

impl OcrResult {
    /// A successful result carries no error message; a failed one carries an
    /// empty text and a non-empty message.
    pub open spec fn wf(self) -> bool {
        &&& self.success ==> self.error_message is None
        &&& !self.success ==> self.text@.len() == 0 && self.error_message is Some
            && self.error_message->0@.len() > 0
    }

    /// A successful recognition result with the given text.
    pub fn ok(text: String) -> (r: OcrResult)
        ensures
            r.wf(),
            r.success,
            r.text == text,
            r.error_message is None,
    {
        OcrResult { text, success: true, error_message: None }
    }

    /// A failed recognition result for the given kind of failure.
    pub fn failure(kind: FailureKind, detail: &str) -> (r: OcrResult)
        ensures
            r.wf(),
            !r.success,
            r.text@.len() == 0,
            r.error_message matches Some(m) && m@ == failure_message(kind, detail@),
    {
        OcrResult {
            text: String::new(),
            success: false,
            error_message: Some(describe_failure(kind, detail)),
        }
    }
}

impl SupportedLanguagesResult {
    /// A successful result carries no error message; a failed one carries an
    /// empty language list and a non-empty message.
    pub open spec fn wf(self) -> bool {
        &&& self.success ==> self.error_message is None
        &&& !self.success ==> self.languages@.len() == 0 && self.error_message is Some
            && self.error_message->0@.len() > 0
    }

    /// A successful listing of supported recognition languages.
    pub fn ok(languages: Vec<String>) -> (r: SupportedLanguagesResult)
        ensures
            r.wf(),
            r.success,
            r.languages == languages,
            r.error_message is None,
    {
        SupportedLanguagesResult { languages, success: true, error_message: None }
    }

    /// A failed listing for the given kind of failure.
    pub fn failure(kind: FailureKind, detail: &str) -> (r: SupportedLanguagesResult)
        ensures
            r.wf(),
            !r.success,
            r.languages@.len() == 0,
            r.error_message matches Some(m) && m@ == failure_message(kind, detail@),
    {
        SupportedLanguagesResult {
            languages: Vec::new(),
            success: false,
            error_message: Some(describe_failure(kind, detail)),
        }
    }
}

impl TtsResult {
    /// A successful result carries no error message; a failed one carries no
    /// handle and a non-empty message.
    pub open spec fn wf(self) -> bool {
        &&& self.success ==> self.error_message is None
        &&& !self.success ==> self.process_id is None && self.error_message is Some
            && self.error_message->0@.len() > 0
    }

    /// A successful speech start, carrying the handle of the new process.
    pub fn started(handle: String) -> (r: TtsResult)
        ensures
            r.wf(),
            r.success,
            r.process_id matches Some(h) && h == handle,
            r.error_message is None,
    {
        TtsResult { success: true, process_id: Some(handle), error_message: None }
    }

    /// A successful operation that yields no handle, such as a stop request.
    pub fn done() -> (r: TtsResult)
        ensures
            r.wf(),
            r.success,
            r.process_id is None,
            r.error_message is None,
    {
        TtsResult { success: true, process_id: None, error_message: None }
    }

    /// A failed speech operation of the given kind.
    pub fn failure(kind: FailureKind, detail: &str) -> (r: TtsResult)
        ensures
            r.wf(),
            !r.success,
            r.process_id is None,
            r.error_message matches Some(m) && m@ == failure_message(kind, detail@),
    {
        TtsResult {
            success: false,
            process_id: None,
            error_message: Some(describe_failure(kind, detail)),
        }
    }
}

impl LanguageResult {
    /// A successful result carries no error message; a failed one carries an
    /// empty language list and a non-empty message.
    pub open spec fn wf(self) -> bool {
        &&& self.success ==> self.error_message is None
        &&& !self.success ==> self.languages@.len() == 0 && self.error_message is Some
            && self.error_message->0@.len() > 0
    }

    /// A successful listing of supported speech languages.
    pub fn ok(languages: Vec<String>) -> (r: LanguageResult)
        ensures
            r.wf(),
            r.success,
            r.languages == languages,
            r.error_message is None,
    {
        LanguageResult { languages, success: true, error_message: None }
    }

    /// A failed listing for the given kind of failure.
    pub fn failure(kind: FailureKind, detail: &str) -> (r: LanguageResult)
        ensures
            r.wf(),
            !r.success,
            r.languages@.len() == 0,
            r.error_message matches Some(m) && m@ == failure_message(kind, detail@),
    {
        LanguageResult {
            languages: Vec::new(),
            success: false,
            error_message: Some(describe_failure(kind, detail)),
        }
    }
}

impl VoiceResult {
    /// A successful result carries no error message; a failed one carries an
    /// empty voice list and a non-empty message.
    pub open spec fn wf(self) -> bool {
        &&& self.success ==> self.error_message is None
        &&& !self.success ==> self.voices@.len() == 0 && self.error_message is Some
            && self.error_message->0@.len() > 0
    }

    /// A successful listing of matching voices.
    pub fn ok(voices: Vec<VoiceInfo>) -> (r: VoiceResult)
        ensures
            r.wf(),
            r.success,
            r.voices == voices,
            r.error_message is None,
    {
        VoiceResult { voices, success: true, error_message: None }
    }

    /// A failed listing for the given kind of failure.
    pub fn failure(kind: FailureKind, detail: &str) -> (r: VoiceResult)
        ensures
            r.wf(),
            !r.success,
            r.voices@.len() == 0,
            r.error_message matches Some(m) && m@ == failure_message(kind, detail@),
    {
        VoiceResult {
            voices: Vec::new(),
            success: false,
            error_message: Some(describe_failure(kind, detail)),
        }
    }
}

} // verus!
