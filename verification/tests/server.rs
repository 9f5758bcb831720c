use blue_rs::phonemize::Language;
use blue_rs::server::{
    blue_languages, blue_voices, language_for, normalize_voice, render_skill, resolve_synthesis,
    strip_language_tags, voice_file, SynthesisError,
};
use blue_rs::sources::model_sources;

#[test]
fn detects_hebrew_and_rejects_unsupported_languages() {
    assert_eq!(language_for("שלום", "auto").unwrap().1, "he");
    assert_eq!(language_for("Hello", "auto").unwrap().1, "en");
    assert!(language_for("Hola", "es").is_err());
    assert!(language_for("Bonjour", "fr").is_err());
}

#[test]
fn strips_internal_language_tags_from_preview_ipa() {
    assert_eq!(
        strip_language_tags("<he>ʃalˈom</he> , <en>həlˈoʊ</en>".into()),
        "ʃalˈom , həlˈoʊ"
    );
}

#[test]
fn advertises_one_complete_blue_bundle() {
    let sources = model_sources();
    assert_eq!(sources.runtimes.len(), 1);
    let blue = &sources.runtimes[0];
    assert_eq!(blue.id, "blue");
    assert!(blue.files.iter().any(|file| file.name == "voices/female1.json"));
    assert!(blue.files.iter().any(|file| file.name == "voices/male1.json"));
    assert!(blue.files.iter().any(|file| file.name == "renikud.onnx"));
}

#[test]
fn language_requests_are_trimmed_and_lowercased() {
    let (language, code) = language_for("שלום", "  EN-US ").unwrap();
    assert_eq!(language, Language::English);
    assert_eq!(code, "en");
    let (language, code) = language_for("Hello", "").unwrap();
    assert_eq!(language, Language::English);
    assert_eq!(code, "en");
    let (language, _) = language_for("abc", "He").unwrap();
    assert_eq!(language, Language::Hebrew);
    let err = language_for("Hola", " ES ").unwrap_err();
    assert_eq!(err.code, "es");
}

#[test]
fn other_tags_are_left_alone() {
    assert_eq!(strip_language_tags("<fr>hola</fr>".into()), "<fr>hola</fr>");
    assert_eq!(strip_language_tags("<es>hola</es> <it>ciao</it>".into()), "hola ciao");
    assert_eq!(strip_language_tags("<he></en>x".into()), "x");
}

#[test]
fn legacy_voice_ids_map_to_current_voices() {
    assert_eq!(normalize_voice(" female1 "), "Rotem");
    assert_eq!(normalize_voice("male1"), "Roi");
    assert_eq!(normalize_voice(" Roi"), "Roi");
    assert_eq!(normalize_voice(&normalize_voice("female1")), "Rotem");
    assert_eq!(voice_file("Rotem"), Some("female1.json"));
    assert_eq!(voice_file("Roi"), Some("male1.json"));
    assert_eq!(voice_file("female1"), None);
}

#[test]
fn runtime_offers_two_languages_and_two_voices() {
    let languages = blue_languages();
    assert_eq!(languages.len(), 2);
    assert_eq!((languages[0].name.as_str(), languages[0].id), ("en", 0));
    assert_eq!((languages[1].name.as_str(), languages[1].id), ("he", 1));
    assert_eq!(blue_voices(), vec!["Rotem".to_owned(), "Roi".to_owned()]);
}

#[test]
fn skill_document_names_the_host() {
    let doc = render_skill("127.0.0.1:8000");
    assert!(doc.contains("curl http://127.0.0.1:8000/health"), "{doc}");
    assert!(doc.contains("http://127.0.0.1:8000/v1/audio/speech"), "{doc}");
    assert!(!doc.contains("{{base_url}}"));
}

#[test]
fn blue_bundle_files_point_at_the_release() {
    let sources = model_sources();
    let blue = &sources.runtimes[0];
    assert_eq!(blue.files.len(), 9);
    let renikud = blue.files.iter().find(|file| file.name == "renikud.onnx").unwrap();
    assert!(renikud.url.contains("renikud"));
    let vocab = blue.files.iter().find(|file| file.name == "vocab.json").unwrap();
    assert!(vocab.url.ends_with("/vocab.json"), "{}", vocab.url);
}

#[test]
fn synthesis_requests_resolve_language_then_voice() {
    let setup = resolve_synthesis("שלום", None, "auto").unwrap();
    assert_eq!(setup.language, Language::Hebrew);
    assert_eq!(setup.language_code, "he");
    assert_eq!(setup.voice, "Rotem");
    assert_eq!(setup.style_file, "female1.json");
    let setup = resolve_synthesis("Hello", Some(" male1 "), "en-us").unwrap();
    assert_eq!(setup.language_code, "en");
    assert_eq!(setup.voice, "Roi");
    assert_eq!(setup.style_file, "male1.json");
    assert_eq!(
        resolve_synthesis("Hello", Some("Dana"), "en"),
        Err(SynthesisError::UnknownVoice("Dana".to_owned()))
    );
    assert_eq!(
        resolve_synthesis("Hello", Some("Dana"), "fr"),
        Err(SynthesisError::UnsupportedLanguage("fr".to_owned()))
    );
}
