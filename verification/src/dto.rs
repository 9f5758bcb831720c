//! Request and response bodies of the local HTTP service.
use vstd::prelude::*;
use crate::server::RuntimeLanguage;

verus! {

/// `GET /health`.
#[derive(Clone, Debug, PartialEq, Eq)]
pub struct HealthResponse {
    pub status: String,
    pub loaded: bool,
    pub model: String,
    pub runtime: String,
}

/// `GET /v1/models`.
#[derive(Clone, Debug, PartialEq, Eq)]
pub struct ModelsResponse {
    pub loaded: bool,
    pub runtime: String,
    pub model: String,
    pub path: String,
    pub codec: String,
}

/// `GET /v1/languages`.
#[derive(Clone, Debug, PartialEq, Eq)]
pub struct LanguagesResponse {
    pub languages: Vec<String>,
    pub items: Vec<RuntimeLanguage>,
}

/// `GET /v1/voices`.
#[derive(Clone, Debug, PartialEq, Eq)]
pub struct VoicesResponse {
    pub runtime: String,
    pub voices: Vec<String>,
}

/// A bare status answer.
#[derive(Clone, Debug, PartialEq, Eq)]
pub struct StatusResponse {
    pub status: String,
}

/// `POST /v1/models/load` answer.
#[derive(Clone, Debug, PartialEq, Eq)]
pub struct LoadResponse {
    pub status: String,
    pub model: String,
}

/// `POST /v1/models/load` body; both paths default to empty.
#[derive(Clone, Debug, PartialEq, Eq)]
pub struct LoadBody {
    pub model_path: String,
    pub renikud_path: String,
}

impl Default for LoadBody {
    fn default() -> (r: Self)
        ensures
            r.model_path@ == Seq::<char>::empty(),
            r.renikud_path@ == Seq::<char>::empty(),
    {
        LoadBody { model_path: String::new(), renikud_path: String::new() }
    }
}

/// `POST /v1/audio/speech` body; every field but `input` defaults to empty
/// (or `false`).
#[derive(Clone, Debug, PartialEq, Eq)]
pub struct SpeechBody {
    pub input: String,
    pub voice_reference: String,
    pub voice: String,
    pub response_format: String,
    pub language: String,
    pub stream: bool,
}

} // verus!
