//! The desktop app's view of the local service: the messages it reads and
//! the bodies it sends.
use vstd::prelude::*;
use crate::text_util::{chars_of, trim, trim_chars};

verus! {

/// The runtime a load request names when it names none: the id of the
/// Blue runtime, the one runtime the service ships (the model sources list
/// it as `"blue"`).
pub const DEFAULT_RUNTIME_ID: &'static str = "blue";

/// The line the service prints once it listens.
#[derive(Clone, Debug, PartialEq, Eq)]
pub struct ReadySignal {
    pub status: String,
    pub port: u16,
}

/// An error answer of the service.
#[derive(Clone, Debug, PartialEq, Eq)]
pub struct ErrorResponse {
    pub error: ErrorBody,
}

/// The code and message of an error answer.
#[derive(Clone, Debug, PartialEq, Eq)]
pub struct ErrorBody {
    pub code: String,
    pub message: String,
}

/// Where the desktop app reaches the service.
#[derive(Clone, Debug, PartialEq, Eq)]
pub struct RunnerInfo {
    pub base_url: String,
}

/// The languages the service offers.
#[derive(Clone, Debug, PartialEq, Eq)]
pub struct LanguagesResponse {
    pub languages: Vec<String>,
}

/// The voices the service offers.
#[derive(Clone, Debug, PartialEq, Eq)]
pub struct VoicesResponse {
    pub voices: Vec<String>,
}

/// A model load asked for by the user interface.
#[derive(Clone, Debug, PartialEq, Eq)]
pub struct LoadModelRequest {
    pub runtime: String,
    pub model_path: String,
    pub renikud_path: String,
}

/// A synthesis asked for by the user interface.
#[derive(Clone, Debug, PartialEq, Eq)]
pub struct SpeechRequest {
    pub input: String,
    pub voice_reference: Option<String>,
    pub voice: Option<String>,
    pub output_path: Option<String>,
    pub language: Option<String>,
}

/// The runtime of a load request that names none.
pub fn default_runtime() -> (r: String)
    ensures
        r@ == DEFAULT_RUNTIME_ID@,
{
    DEFAULT_RUNTIME_ID.to_owned()
}

/// The body sent to load a model.
#[derive(Clone, Debug, PartialEq, Eq)]
pub struct LoadPayload {
    pub model_path: String,
    pub renikud_path: String,
}

/// The body of `POST /v1/models/load` for a request: its two paths.
pub fn load_payload(request: &LoadModelRequest) -> (r: LoadPayload)
    ensures
        r.model_path@ == request.model_path@,
        r.renikud_path@ == request.renikud_path@,
{
    LoadPayload {
        model_path: request.model_path.clone(),
        renikud_path: request.renikud_path.clone(),
    }
}

/// The body sent to synthesize speech.
#[derive(Clone, Debug, PartialEq, Eq)]
pub struct SpeechPayload {
    pub input: String,
    pub voice_reference: String,
    pub voice: String,
    pub response_format: String,
    pub language: String,
}

/// The characters of an optional string, `default` when absent.
pub open spec fn or_default(s: Option<String>, default: Seq<char>) -> Seq<char> {
    match s {
        Some(v) => v@,
        None => default,
    }
}

fn unwrap_or_owned(s: &Option<String>, default: &str) -> (r: String)
    ensures
        r@ == or_default(*s, default@),
{
    match s {
        Some(v) => v.clone(),
        None => default.to_owned(),
    }
}

/// The body of `POST /v1/audio/speech` for a request: WAV output, an empty
/// voice and voice reference when absent, and `auto` language when absent.
pub fn speech_payload(request: &SpeechRequest) -> (r: SpeechPayload)
    ensures
        r.input@ == request.input@,
        r.voice_reference@ == or_default(request.voice_reference, Seq::empty()),
        r.voice@ == or_default(request.voice, Seq::empty()),
        r.response_format@ == "wav"@,
        r.language@ == or_default(request.language, "auto"@),
{
    proof {
        reveal_strlit("");
        assert(""@ =~= Seq::<char>::empty());
    }
    SpeechPayload {
        input: request.input.clone(),
        voice_reference: unwrap_or_owned(&request.voice_reference, ""),
        voice: unwrap_or_owned(&request.voice, ""),
        response_format: "wav".to_owned(),
        language: unwrap_or_owned(&request.language, "auto"),
    }
}

/// Whether a request carries a voice reference that is not blank.
pub fn has_voice_reference(request: &SpeechRequest) -> (b: bool)
    ensures
        b == (request.voice_reference matches Some(v) && trim(v@).len() > 0),
{
    match &request.voice_reference {
        Some(v) => {
            let c = chars_of(v.as_str());
            let t = trim_chars(c.as_slice());
            t.len() > 0
        },
        None => false,
    }
}

} // verus!
