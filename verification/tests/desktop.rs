use blue_rs::desktop::{
    default_runtime, has_voice_reference, load_payload, speech_payload, LoadModelRequest,
    SpeechRequest,
};
use blue_rs::dto::LoadBody;

fn request(voice_reference: Option<&str>, voice: Option<&str>, language: Option<&str>) -> SpeechRequest {
    SpeechRequest {
        input: "שלום".to_owned(),
        voice_reference: voice_reference.map(str::to_owned),
        voice: voice.map(str::to_owned),
        output_path: None,
        language: language.map(str::to_owned),
    }
}

#[test]
fn load_requests_default_to_the_blue_runtime() {
    assert_eq!(default_runtime(), "blue");
    let req = LoadModelRequest {
        runtime: default_runtime(),
        model_path: "/models/blue".to_owned(),
        renikud_path: "/models/renikud.onnx".to_owned(),
    };
    let payload = load_payload(&req);
    assert_eq!(payload.model_path, "/models/blue");
    assert_eq!(payload.renikud_path, "/models/renikud.onnx");
}

#[test]
fn speech_payload_fills_in_defaults() {
    let payload = speech_payload(&request(None, None, None));
    assert_eq!(payload.input, "שלום");
    assert_eq!(payload.voice_reference, "");
    assert_eq!(payload.voice, "");
    assert_eq!(payload.response_format, "wav");
    assert_eq!(payload.language, "auto");
}

#[test]
fn speech_payload_keeps_given_fields() {
    let payload = speech_payload(&request(Some("ref.wav"), Some("Roi"), Some("en")));
    assert_eq!(payload.voice_reference, "ref.wav");
    assert_eq!(payload.voice, "Roi");
    assert_eq!(payload.language, "en");
}

#[test]
fn blank_voice_references_do_not_count() {
    assert!(!has_voice_reference(&request(None, None, None)));
    assert!(!has_voice_reference(&request(Some("  \t"), None, None)));
    assert!(has_voice_reference(&request(Some(" ref.wav "), None, None)));
}

#[test]
fn load_body_defaults_to_empty_paths() {
    let body = LoadBody::default();
    assert_eq!(body.model_path, "");
    assert_eq!(body.renikud_path, "");
}
