use blue_rs::chunking::split_phonemes;

#[test]
fn returns_empty_for_empty_input() {
    assert!(split_phonemes("   ", Some(200)).is_empty());
}

#[test]
fn leaves_input_whole_without_a_limit() {
    assert_eq!(split_phonemes("a b c", None), ["a b c"]);
}

#[test]
fn splits_at_sentence_boundaries_first() {
    assert_eq!(
        split_phonemes("first sentence. second sentence!", Some(200)),
        ["first sentence.", "second sentence!"]
    );
}

#[test]
fn packs_whole_words_up_to_the_limit() {
    assert_eq!(
        split_phonemes("alpha beta gamma delta", Some(10)),
        ["alpha beta", "gamma", "delta"]
    );
}

#[test]
fn never_splits_a_word_just_to_fill_a_chunk() {
    assert_eq!(split_phonemes("aaaa bbbbb", Some(8)), ["aaaa", "bbbbb"]);
}

#[test]
fn preserves_language_tags_when_packing_words() {
    let chunks = split_phonemes("<en>həˈloʊ</en> <he>ʃaˈlom</he>", Some(18));
    assert_eq!(chunks, ["<en>həˈloʊ</en>", "<he>ʃaˈlom</he>"]);
    assert!(chunks
        .iter()
        .all(|chunk| chunk.matches('<').count() == chunk.matches('>').count()));
}

#[test]
fn hard_splits_an_overlong_word() {
    assert_eq!(split_phonemes("abcdefghij", Some(4)), ["abcd", "efgh", "ij"]);
}

#[test]
fn hard_split_never_cuts_inside_a_tag_literal() {
    let chunks = split_phonemes("aa<en>tag</en>bbbb", Some(5));
    assert_eq!(chunks, ["aa", "<en>t", "ag", "</en>", "bbbb"]);
    assert!(chunks
        .iter()
        .all(|chunk| !chunk.contains("<e") || chunk.contains("<en>")));
    assert!(chunks
        .iter()
        .all(|chunk| !chunk.contains("</e") || chunk.contains("</en>")));
}

#[test]
fn zero_limit_keeps_the_trimmed_input_whole() {
    assert_eq!(split_phonemes("  a. b  ", Some(0)), ["a. b"]);
}

#[test]
fn boundary_inside_a_tag_does_not_end_a_sentence() {
    assert_eq!(split_phonemes("<a.b> c. d", Some(50)), ["<a.b> c.", "d"]);
}

#[test]
fn overlong_tag_literal_stays_whole() {
    let chunks = split_phonemes("<english>abc", Some(3));
    assert_eq!(chunks, ["<english>", "abc"]);
}

#[test]
fn unclosed_tag_is_split_by_characters() {
    assert_eq!(split_phonemes("<abcd", Some(2)), ["<a", "bc", "d"]);
}

#[test]
fn every_chunk_respects_the_limit() {
    let input = "one two three four five six seven. eight nine ten eleven twelve?";
    for max in 1..20 {
        for chunk in split_phonemes(input, Some(max)) {
            assert!(!chunk.is_empty());
            assert!(chunk.chars().count() <= max);
        }
    }
}

#[test]
fn whitespace_set_matches_std() {
    for u in 0u32..=0x10ffff {
        if let Some(c) = char::from_u32(u) {
            assert_eq!(blue_rs::text_util::is_whitespace(c), c.is_whitespace(), "{u:#x}");
        }
    }
}

#[test]
fn trimming_matches_std() {
    let s = "\u{3000}\t a b \u{a0}\n";
    let v: Vec<char> = s.chars().collect();
    let t: String = blue_rs::text_util::trim_chars(&v).into_iter().collect();
    assert_eq!(t, s.trim());
}
