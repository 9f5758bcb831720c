use blue_rs::handling::{
    apply_vowel_stress, contains_nikud, phonemize_nikud_word, prepare_text, replace_nikud_words,
    strip_nikud,
    transfer_stress, vowel_stress_index, HandlingError, InputMode, NikudPhonemizer,
    PlainHebrewPhonemizer,
};
use blue_rs::speech::normalize_for_speech;


/// Answers `ipa:` followed by the word.
struct PrefixIpa;

impl NikudPhonemizer for PrefixIpa {
    fn phonemize_nikud(&mut self, vocalized: &str) -> Result<String, String> {
        Ok(format!("ipa:{vocalized}"))
    }
}

/// Always answers the same IPA.
struct FixedIpa(&'static str);

impl NikudPhonemizer for FixedIpa {
    fn phonemize_nikud(&mut self, _vocalized: &str) -> Result<String, String> {
        Ok(self.0.to_owned())
    }
}

impl PlainHebrewPhonemizer for FixedIpa {
    fn phonemize_plain(&mut self, unvocalized: &str) -> Result<String, String> {
        assert!(!contains_nikud(unvocalized));
        Ok(self.0.to_owned())
    }
}

/// Always fails.
struct Failing;

impl NikudPhonemizer for Failing {
    fn phonemize_nikud(&mut self, _vocalized: &str) -> Result<String, String> {
        Err("engine down".to_owned())
    }
}

impl PlainHebrewPhonemizer for Failing {
    fn phonemize_plain(&mut self, _unvocalized: &str) -> Result<String, String> {
        Err("engine down".to_owned())
    }
}

/// Answers with fixed IPA and records what it was asked.
struct Recording {
    answer: Result<&'static str, &'static str>,
    asked: Vec<String>,
}

impl Recording {
    fn new(answer: Result<&'static str, &'static str>) -> Self {
        Self { answer, asked: Vec::new() }
    }

    fn reply(&mut self, text: &str) -> Result<String, String> {
        self.asked.push(text.to_owned());
        self.answer.map(str::to_owned).map_err(str::to_owned)
    }
}

impl NikudPhonemizer for Recording {
    fn phonemize_nikud(&mut self, vocalized: &str) -> Result<String, String> {
        self.reply(vocalized)
    }
}

impl PlainHebrewPhonemizer for Recording {
    fn phonemize_plain(&mut self, unvocalized: &str) -> Result<String, String> {
        self.reply(unvocalized)
    }
}

#[test]
fn keeps_nikud_in_text_path() {
    let mut phonikud = PrefixIpa;
    let prepared =
        prepare_text("הַמְּנוֹרָה מאירה.", Some(&mut phonikud), None::<&mut FixedIpa>, true).unwrap();
    assert!(contains_nikud(&prepared.text));
    assert_eq!(prepared.for_input(InputMode::Text), "הַמְּנוֹרָה מאירה.");
    assert_eq!(prepared.phonetic_text, "ipa:הַמְּנוֹרָה מאירה.");
}

#[test]
fn transfers_phonikud_stress_onto_renikud_ipa() {
    let merged = transfer_stress("ʃalˈom", "ʃalom");
    assert_eq!(merged, "ʃalˈom");

    let merged = transfer_stress("haˈir", "heir");
    assert_eq!(merged, "heˈir");
}

#[test]
fn hybrid_word_uses_renikud_base_and_phonikud_stress() {
    let mut phonikud = FixedIpa("menˈora");
    let mut renikud = FixedIpa("menora");
    let span = phonemize_nikud_word("מְנוֹרָה", &mut phonikud, Some(&mut renikud)).unwrap();
    assert_eq!(span.phonikud_ipa, "menˈora");
    assert_eq!(span.renikud_ipa.as_deref(), Some("menora"));
    assert_eq!(span.ipa, "menˈora");
}

#[test]
fn strip_nikud_preserves_letters() {
    assert_eq!(strip_nikud("הַמְּנוֹרָה"), "המנורה");
}

#[test]
fn normalizes_reference_codes_and_phone_numbers() {
    let text = normalize_for_speech("מספר TKT-90254, טלפון 03-5551234.").unwrap();
    assert!(text.contains("T K T"));
    assert!(text.contains("אפס שלוש חמש חמש חמש"));
}

#[test]
fn stress_index_reads_the_mark_before_a_vowel() {
    assert_eq!(vowel_stress_index("ʃalˈom"), Some(1));
    assert_eq!(vowel_stress_index("ˈaba"), Some(0));
    assert_eq!(vowel_stress_index("ʃalom"), None);
    assert_eq!(vowel_stress_index("ʃaˈlom"), None);
}

#[test]
fn stress_is_clamped_to_the_last_vowel() {
    assert_eq!(apply_vowel_stress("ˈabc", 5), "ˈabc");
    assert_eq!(apply_vowel_stress("ˈaba", 5), "abˈa");
    assert_eq!(apply_vowel_stress("xyz", 0), "xyz");
    assert_eq!(vowel_stress_index(&apply_vowel_stress("menora", 2)), Some(2));
}

#[test]
fn transfer_without_stress_only_normalizes_spaces() {
    assert_eq!(transfer_stress("menora", "  me   nora "), "me nora");
}

#[test]
fn plain_text_mode_keeps_normalized_text() {
    let prepared =
        prepare_text("שָׁלוֹם", Some(&mut PrefixIpa), None::<&mut FixedIpa>, false).unwrap();
    assert_eq!(prepared.phonetic_text, "שָׁלוֹם");
    assert!(prepared.phonetic_spans.is_empty());
    assert_eq!(prepared.for_input(InputMode::Phonemes), "שָׁלוֹם");
}

#[test]
fn niqqud_without_engine_is_refused() {
    let r = prepare_text("שָׁלוֹם", None::<&mut PrefixIpa>, None::<&mut FixedIpa>, true);
    assert_eq!(r, Err(HandlingError::MissingPhonikud));
}

#[test]
fn word_without_niqqud_is_refused() {
    let r = phonemize_nikud_word("שלום", &mut PrefixIpa, None::<&mut FixedIpa>);
    assert_eq!(r, Err(HandlingError::NotVocalized("שלום".to_owned())));
}

#[test]
fn blank_engine_answers_are_errors() {
    let r = phonemize_nikud_word("שָׁלוֹם", &mut FixedIpa("  "), None::<&mut FixedIpa>);
    assert_eq!(r, Err(HandlingError::EmptyPhonikud("שָׁלוֹם".to_owned())));
    let r = phonemize_nikud_word("שָׁלוֹם", &mut FixedIpa("ʃaˈlom"), Some(&mut FixedIpa(" ")));
    assert_eq!(r, Err(HandlingError::EmptyRenikud("שלום".to_owned())));
}

#[test]
fn engine_failures_are_passed_on() {
    let r = phonemize_nikud_word("שָׁלוֹם", &mut Failing, None::<&mut FixedIpa>);
    assert_eq!(r, Err(HandlingError::Engine("engine down".to_owned())));
    let r = phonemize_nikud_word("שָׁלוֹם", &mut FixedIpa("ʃaˈlom"), Some(&mut Failing));
    assert_eq!(r, Err(HandlingError::Engine("engine down".to_owned())));
}

#[test]
fn only_vocalized_words_are_replaced() {
    let prepared =
        prepare_text("שלום שָׁלוֹם abc", Some(&mut PrefixIpa), None::<&mut FixedIpa>, true).unwrap();
    assert_eq!(prepared.phonetic_text, "שלום ipa:שָׁלוֹם abc");
    assert_eq!(prepared.phonetic_spans.len(), 1);
    assert_eq!(prepared.phonetic_spans[0].source, "שָׁלוֹם");
}

#[test]
fn text_without_niqqud_asks_no_engine() {
    let (out, spans) =
        replace_nikud_words("שלום עולם, hi", &mut Failing, Some(&mut Failing)).unwrap();
    assert_eq!(out, "שלום עולם, hi");
    assert!(spans.is_empty());
    let r = replace_nikud_words("שלום שָׁלוֹם", &mut Failing, Some(&mut Failing));
    assert_eq!(r, Err(HandlingError::Engine("engine down".to_owned())));
}

#[test]
fn engines_receive_the_word_and_its_stripped_form() {
    let mut phonikud = Recording::new(Ok(" menˈora "));
    let mut renikud = Recording::new(Ok("menora"));
    let span = phonemize_nikud_word("מְנוֹרָה", &mut phonikud, Some(&mut renikud)).unwrap();
    assert_eq!(phonikud.asked, vec!["מְנוֹרָה".to_owned()]);
    assert_eq!(renikud.asked, vec!["מנורה".to_owned()]);
    assert_eq!(span.phonikud_ipa, "menˈora");
    assert_eq!(span.renikud_ipa.as_deref(), Some("menora"));
    assert_eq!(span.ipa, "menˈora");
}

#[test]
fn engines_are_not_asked_without_need() {
    let mut phonikud = Recording::new(Ok("x"));
    let mut renikud = Recording::new(Ok("y"));
    let r = phonemize_nikud_word("מנורה", &mut phonikud, Some(&mut renikud));
    assert_eq!(r, Err(HandlingError::NotVocalized("מנורה".to_owned())));
    assert!(phonikud.asked.is_empty() && renikud.asked.is_empty());

    let mut phonikud = Recording::new(Err("down"));
    let r = phonemize_nikud_word("מְנוֹרָה", &mut phonikud, Some(&mut renikud));
    assert_eq!(r, Err(HandlingError::Engine("down".to_owned())));
    let mut phonikud = Recording::new(Ok("  "));
    let r = phonemize_nikud_word("מְנוֹרָה", &mut phonikud, Some(&mut renikud));
    assert_eq!(r, Err(HandlingError::EmptyPhonikud("מְנוֹרָה".to_owned())));
    assert!(renikud.asked.is_empty());

    let mut phonikud = Recording::new(Ok("x"));
    let r = prepare_text("שָׁלוֹם", None::<&mut Recording>, Some(&mut renikud), true);
    assert_eq!(r, Err(HandlingError::MissingPhonikud));
    let r = prepare_text("שָׁלוֹם", Some(&mut phonikud), Some(&mut renikud), false);
    assert!(r.is_ok());
    assert!(phonikud.asked.is_empty() && renikud.asked.is_empty());
}

#[test]
fn blank_plain_answer_names_the_stripped_word() {
    let mut phonikud = Recording::new(Ok("ʃaˈlom"));
    let mut renikud = Recording::new(Ok(" "));
    let r = phonemize_nikud_word("שָׁלוֹם", &mut phonikud, Some(&mut renikud));
    assert_eq!(r, Err(HandlingError::EmptyRenikud("שלום".to_owned())));
}

#[test]
fn each_vocalized_word_is_asked_once_in_order() {
    let mut phonikud = Recording::new(Ok("av"));
    let (out, spans) = replace_nikud_words("אָב|גד גד.", &mut phonikud, None::<&mut Recording>).unwrap();
    assert_eq!(out, "av גד.");
    assert_eq!(spans.len(), 1);
    assert_eq!(spans[0].source, "אָב|גד");
    assert_eq!(spans[0].phonikud_ipa, "av");
    assert_eq!(spans[0].renikud_ipa, None);
    assert_eq!(spans[0].ipa, "av");
    assert_eq!(phonikud.asked, vec!["אָב|גד".to_owned()]);

    let mut phonikud = Recording::new(Ok("x"));
    let (out, spans) =
        replace_nikud_words("אָב גד דָּג", &mut phonikud, None::<&mut Recording>).unwrap();
    assert_eq!(out, "x גד x");
    assert_eq!(spans.len(), 2);
    assert_eq!(phonikud.asked, vec!["אָב".to_owned(), "דָּג".to_owned()]);
}

#[test]
fn stress_is_placed_once_and_placing_it_again_changes_nothing() {
    let once = apply_vowel_stress("ʃaˈlo ˈm", 0);
    assert_eq!(once, "ʃˈalo m");
    assert_eq!(apply_vowel_stress(&once, 0), once);
    let clamped = apply_vowel_stress("ʃalom", 7);
    assert_eq!(clamped, "ʃalˈom");
    assert_eq!(clamped.matches('ˈ').count(), 1);
    assert_eq!(apply_vowel_stress("ʃˈlm", 1), "ʃlm");
}
