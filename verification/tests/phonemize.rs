use blue_rs::phonemize::{finish_phonemes, latin_pattern, plan_phonemes, G2pTask, Language};

#[test]
fn language_codes_and_voices() {
    assert_eq!(Language::Hebrew.code(), "he");
    assert_eq!(Language::English.code(), "en");
    assert_eq!(Language::German.code(), "de");
    assert_eq!(Language::Hebrew.espeak_voice(), None);
    assert_eq!(Language::English.espeak_voice(), Some("en-us"));
    assert_eq!(Language::Italian.espeak_voice(), Some("it"));
}

#[test]
fn language_codes_parse_back() {
    for language in [
        Language::Hebrew,
        Language::English,
        Language::Spanish,
        Language::German,
        Language::Italian,
    ] {
        assert_eq!(Language::from_code(language.code()).unwrap(), language);
    }
    assert_eq!(Language::from_code("en-us").unwrap(), Language::English);
    assert_eq!(Language::from_code("ge").unwrap(), Language::German);
    let err = Language::from_code("fr").unwrap_err();
    assert_eq!(err.code, "fr");
    assert!(Language::from_code("EN").is_err());
}

#[test]
fn text_without_hebrew_goes_to_espeak_whole() {
    let latin = latin_pattern().unwrap();
    let plan = plan_phonemes(&latin, "Hello, world", Language::Spanish, false);
    assert_eq!(plan.tasks, vec![G2pTask::Espeak("Hello, world".to_owned(), Language::Spanish)]);
    assert!(!plan.normalize);
}

#[test]
fn mixed_text_routes_latin_words_to_english() {
    let latin = latin_pattern().unwrap();
    let plan = plan_phonemes(&latin, "שלום Hello עולם", Language::Hebrew, false);
    assert_eq!(
        plan.tasks,
        vec![
            G2pTask::PlainHebrew("שלום ".to_owned()),
            G2pTask::Espeak("Hello".to_owned(), Language::English),
            G2pTask::PlainHebrew(" עולם".to_owned()),
        ]
    );
    assert!(plan.normalize);
}

#[test]
fn latin_words_keep_the_requested_language_beside_hebrew() {
    let latin = latin_pattern().unwrap();
    let plan = plan_phonemes(&latin, "don't שלום", Language::German, false);
    assert_eq!(
        plan.tasks,
        vec![
            G2pTask::Espeak("don't".to_owned(), Language::German),
            G2pTask::PlainHebrew(" שלום".to_owned()),
        ]
    );
}

#[test]
fn vocalized_words_take_the_niqqud_path_only_with_an_engine() {
    let latin = latin_pattern().unwrap();
    let with_engine = plan_phonemes(&latin, "הַמְּנוֹרָה מאירה", Language::Hebrew, true);
    assert_eq!(
        with_engine.tasks,
        vec![
            G2pTask::VocalizedWord("הַמְּנוֹרָה".to_owned()),
            G2pTask::Keep(" ".to_owned()),
            G2pTask::PlainHebrew("מאירה".to_owned()),
        ]
    );
    let without = plan_phonemes(&latin, "הַמְּנוֹרָה מאירה", Language::Hebrew, false);
    assert_eq!(without.tasks, vec![G2pTask::PlainHebrew("המנורה מאירה".to_owned())]);
}

#[test]
fn results_are_joined_and_normalized() {
    let parts = vec!["ʃalom  ".to_owned(), "həloʊ".to_owned(), " ".to_owned(), " olam ".to_owned()];
    assert_eq!(finish_phonemes(&parts, true), "ʃalom həloʊ olam");
    assert_eq!(finish_phonemes(&parts, false), "ʃalom  həloʊ  olam ");
    assert_eq!(finish_phonemes(&Vec::new(), true), "");
}
