use blue_rs::tokenizer::{is_emoji, is_hebrew_nikud, preprocess_phonemes, TokenizeError, Tokenizer};

fn vocab(pad_id: Option<i64>) -> Tokenizer {
    let entries = vec![
        ("a".to_owned(), Some(1)),
        ("b".to_owned(), Some(2)),
        (".".to_owned(), Some(3)),
        ("!xyz".to_owned(), Some(4)),
        ("c".to_owned(), None),
        ("".to_owned(), Some(9)),
    ];
    Tokenizer::from_vocab(pad_id, Some(entries)).unwrap()
}

#[test]
fn preprocessing_cleans_phoneme_text() {
    assert_eq!(preprocess_phonemes("  a   b  ").unwrap(), "a b");
    assert_eq!(preprocess_phonemes("a—b").unwrap(), "a-b");
    assert_eq!(preprocess_phonemes("a_b|c").unwrap(), "a b c");
    assert_eq!(preprocess_phonemes("x@y").unwrap(), "x at y");
    assert_eq!(preprocess_phonemes("e.g., this").unwrap(), "for example, this");
    assert_eq!(preprocess_phonemes("i.e., that").unwrap(), "that is, that");
    assert_eq!(preprocess_phonemes("“q” ‘r’").unwrap(), "\"q\" 'r'");
    assert_eq!(preprocess_phonemes("hi 😀").unwrap(), "hi");
    assert_eq!(preprocess_phonemes("שָׁלוֹם").unwrap(), "שלום");
}

#[test]
fn compatibility_forms_are_decomposed() {
    assert_eq!(preprocess_phonemes("\u{fb01}ne").unwrap(), "fine");
    assert_eq!(preprocess_phonemes("x\u{00a0}\u{00a0}y").unwrap(), "x y");
    assert_eq!(preprocess_phonemes("\u{00e9}").unwrap(), "e\u{0301}");
}

#[test]
fn dashes_between_hebrew_and_latin_become_spaces() {
    assert_eq!(preprocess_phonemes("שלום-world").unwrap(), "שלום world");
    assert_eq!(preprocess_phonemes("A4—שלום").unwrap(), "A4 שלום");
    assert_eq!(preprocess_phonemes("a-b").unwrap(), "a-b");
}

#[test]
fn character_classes() {
    assert!(is_hebrew_nikud('\u{05b8}'));
    assert!(!is_hebrew_nikud('\u{05be}'));
    assert!(!is_hebrew_nikud('א'));
    assert!(is_emoji('😀'));
    assert!(is_emoji('\u{2600}'));
    assert!(!is_emoji('a'));
}

#[test]
fn encodes_one_text_with_a_closing_full_stop() {
    let tokenizer = vocab(None);
    assert_eq!(tokenizer.encode_one("ab", "en").unwrap(), vec![1, 2, 3]);
    assert_eq!(tokenizer.encode_one("ab!", "he").unwrap(), vec![1, 2, 4]);
    // `c` has no id of its own and `z` is not in the table: both get the padding id.
    assert_eq!(tokenizer.encode_one("cz", "it").unwrap(), vec![0, 0, 3]);
    assert_eq!(tokenizer.encode_one("", "de").unwrap(), vec![3]);
}

#[test]
fn padding_id_comes_from_the_vocabulary() {
    let tokenizer = vocab(Some(7));
    assert_eq!(tokenizer.encode_one("cz", "es").unwrap(), vec![7, 7, 3]);
}

#[test]
fn tags_inside_the_text_are_removed() {
    let tokenizer = vocab(None);
    assert_eq!(tokenizer.encode_one("<en>a</en>b", "en").unwrap(), vec![1, 2, 3]);
}

#[test]
fn rejects_unknown_languages() {
    let tokenizer = vocab(None);
    assert_eq!(
        tokenizer.encode_one("ab", "fr"),
        Err(TokenizeError::InvalidLanguage("fr".to_owned()))
    );
    assert_eq!(
        tokenizer.encode_one("ab", "EN"),
        Err(TokenizeError::InvalidLanguage("EN".to_owned()))
    );
}

#[test]
fn missing_table_is_an_error() {
    assert!(matches!(Tokenizer::from_vocab(Some(1), None), Err(TokenizeError::MissingTable)));
}

#[test]
fn batches_are_padded_to_the_longest_row() {
    let tokenizer = vocab(Some(0));
    let texts = vec!["a".to_owned(), "ab".to_owned()];
    let langs = vec!["en".to_owned(), "he".to_owned()];
    let batch = tokenizer.encode_batch(&texts, &langs).unwrap();
    assert_eq!(batch.width, 3);
    assert_eq!(batch.lengths, vec![2, 3]);
    assert_eq!(batch.ids, vec![vec![1, 3, 0], vec![1, 2, 3]]);
    let empty = tokenizer.encode_batch(&Vec::new(), &Vec::new()).unwrap();
    assert_eq!(empty.width, 0);
    assert!(empty.ids.is_empty());
}

#[test]
fn batch_errors() {
    let tokenizer = vocab(None);
    let texts = vec!["a".to_owned()];
    assert_eq!(
        tokenizer.encode_batch(&texts, &Vec::new()),
        Err(TokenizeError::LengthMismatch)
    );
    let langs = vec!["xx".to_owned()];
    assert_eq!(
        tokenizer.encode_batch(&texts, &langs),
        Err(TokenizeError::InvalidLanguage("xx".to_owned()))
    );
}

#[test]
fn reads_a_vocabulary_file() {
    let raw = br#"{"pad_id": 5, "char_to_id": {"a": 1, "b": 2, ".": 3, "c": "x", "": 9}}"#;
    let tokenizer = Tokenizer::from_json_bytes(raw).unwrap();
    assert_eq!(tokenizer.encode_one("abcz", "en").unwrap(), vec![1, 2, 5, 5, 3]);
    let raw = br#"{"char_to_id": {"a": 1}}"#;
    let tokenizer = Tokenizer::from_json_bytes(raw).unwrap();
    assert_eq!(tokenizer.encode_one("az", "en").unwrap(), vec![1, 0, 0]);
}

#[test]
fn vocabulary_errors() {
    assert!(matches!(Tokenizer::from_json_bytes(b"not json"), Err(TokenizeError::InvalidJson)));
    assert!(matches!(
        Tokenizer::from_json_bytes(br#"{"pad_id": 0}"#),
        Err(TokenizeError::MissingTable)
    ));
    assert!(matches!(
        Tokenizer::from_json_bytes(br#"{"char_to_id": [1, 2]}"#),
        Err(TokenizeError::MissingTable)
    ));
}

#[test]
fn vocabulary_values_that_are_not_integers_fall_back() {
    let raw = br#"{"pad_id": 1.5, "extra": [1, {"x": null}], "char_to_id": {"a": 2.0, "b": 18446744073709551615, "c": 4}}"#;
    let tokenizer = Tokenizer::from_json_bytes(raw).unwrap();
    // `pad_id` is not an integer, so padding is 0; `a` and `b` are no i64 ids.
    assert_eq!(tokenizer.encode_one("abc", "en").unwrap(), vec![0, 0, 4, 0]);
    let raw = br#"{"pad_id": -3, "char_to_id": {"a": 1}}"#;
    let tokenizer = Tokenizer::from_json_bytes(raw).unwrap();
    assert_eq!(tokenizer.encode_one("b", "en").unwrap(), vec![-3, -3]);
}
