//! Model-independent handling for difficult Hebrew TTS input.
//!
//! Niqqud-bearing words are kept intact for a Phonikud-style engine
//! (grapheme-to-IPA). Separately, niqqud is stripped so a Renikud-style engine
//! can run on plain Hebrew, and the first engine's stress mark (`ˈ`) is then
//! copied onto the second engine's IPA.
use vstd::prelude::*;
use crate::text_util::{
    append_chars, chars_of, is_white_space, is_whitespace, join, normalize_spaces, seqs_of,
    split_whitespace_chars, string_of, trim, trim_chars, ws_words,
};
use crate::text_util::join_chars;
use crate::speech::{normalize_for_speech, normalize_for_speech_spec, speech_patterns_compile};

verus! {

/// Primary stress mark (`U+02C8`).
pub const STRESS_MARK: char = '\u{02c8}';

/// Destination representation expected by the selected synthesis model.
#[derive(Clone, Copy, Debug, PartialEq, Eq, Structural)]
pub enum InputMode {
    Text,
    Phonemes,
}

/// A vocalized Hebrew source word and its IPA stages.
#[derive(Clone, Debug, PartialEq, Eq)]
pub struct PhoneticSpan {
    /// Original word, including niqqud.
    pub source: String,
    /// IPA from the niqqud engine (stress included when present).
    pub phonikud_ipa: String,
    /// IPA of the stripped (plain) form, when available.
    pub renikud_ipa: Option<String>,
    /// Final IPA: the plain-form IPA with the niqqud engine's stress when
    /// both exist, otherwise the niqqud engine's IPA alone.
    pub ipa: String,
}

/// The characters of a [`PhoneticSpan`].
pub struct PhoneticSpanView {
    pub source: Seq<char>,
    pub phonikud_ipa: Seq<char>,
    pub renikud_ipa: Option<Seq<char>>,
    pub ipa: Seq<char>,
}

impl View for PhoneticSpan {
    type V = PhoneticSpanView;

    open spec fn view(&self) -> PhoneticSpanView {
        PhoneticSpanView {
            source: self.source@,
            phonikud_ipa: self.phonikud_ipa@,
            renikud_ipa: match self.renikud_ipa {
                Some(r) => Some(r@),
                None => None,
            },
            ipa: self.ipa@,
        }
    }
}

/// Safe text and phoneme-ready renderings of one original input.
#[derive(Clone, Debug, PartialEq, Eq)]
pub struct PreparedText {
    pub original: String,
    /// Normalized text with niqqud preserved (for text-native models).
    pub text: String,
    /// Same as `text`, but niqqud words replaced by final IPA.
    pub phonetic_text: String,
    pub phonetic_spans: Vec<PhoneticSpan>,
}

impl PreparedText {
    /// The rendering that a model of the given input kind consumes.
    pub fn for_input(&self, mode: InputMode) -> (r: &str)
        ensures
            r@ == match mode {
                InputMode::Text => self.text@,
                InputMode::Phonemes => self.phonetic_text@,
            },
    {
        match mode {
            InputMode::Text => self.text.as_str(),
            InputMode::Phonemes => self.phonetic_text.as_str(),
        }
    }
}

/// Why preparing Hebrew text failed.
#[derive(Clone, Debug, PartialEq, Eq)]
pub enum HandlingError {
    /// A word given to the niqqud path carries no niqqud.
    NotVocalized(String),
    /// The niqqud engine returned blank IPA for this word.
    EmptyPhonikud(String),
    /// The plain-Hebrew engine returned blank IPA for this stripped word.
    EmptyRenikud(String),
    /// Niqqud input met no niqqud engine.
    MissingPhonikud,
    /// An engine failed with this message.
    Engine(String),
    /// A text pattern did not compile.
    InvalidPattern(String),
}

/// The characters of a [`HandlingError`].
pub enum HandlingErrorView {
    NotVocalized(Seq<char>),
    EmptyPhonikud(Seq<char>),
    EmptyRenikud(Seq<char>),
    MissingPhonikud,
    Engine(Seq<char>),
    InvalidPattern(Seq<char>),
}

impl View for HandlingError {
    type V = HandlingErrorView;

    open spec fn view(&self) -> HandlingErrorView {
        match self {
            HandlingError::NotVocalized(w) => HandlingErrorView::NotVocalized(w@),
            HandlingError::EmptyPhonikud(w) => HandlingErrorView::EmptyPhonikud(w@),
            HandlingError::EmptyRenikud(w) => HandlingErrorView::EmptyRenikud(w@),
            HandlingError::MissingPhonikud => HandlingErrorView::MissingPhonikud,
            HandlingError::Engine(m) => HandlingErrorView::Engine(m@),
            HandlingError::InvalidPattern(p) => HandlingErrorView::InvalidPattern(p@),
        }
    }
}

/// The characters of an engine's answer.
pub open spec fn engine_view(r: Result<String, String>) -> Result<Seq<char>, Seq<char>> {
    match r {
        Ok(s) => Ok(s@),
        Err(e) => Err(e@),
    }
}

/// The characters of a span-or-error outcome.
pub open spec fn span_outcome_view(r: Result<PhoneticSpan, HandlingError>) -> Result<
    PhoneticSpanView,
    HandlingErrorView,
> {
    match r {
        Ok(s) => Ok(s@),
        Err(e) => Err(e@),
    }
}

/// Any function may be an engine's answer function.
pub open spec fn answer_function<E: ?Sized>(f: spec_fn(&E, Seq<char>) -> Result<Seq<char>, Seq<char>>) -> bool {
    true
}

/// Adapter for a niqqud → IPA engine (such as Phonikud).
///
/// Callers pass the vocalized word **with niqqud kept**; an engine answers
/// with IPA or with an error message. Implementations are the users'
/// engines and are not verified: the contract below is what the library
/// expects of them, namely that an engine's answer to a word is a fixed
/// function of the engine and the word (`nikud_answer`), and that asking it
/// does not change how it answers.
pub trait NikudPhonemizer {
    /// The engine's answer for a vocalized word: some fixed function of the
    /// engine and the word, which the library does not know.
    closed spec fn nikud_answer(&self, vocalized: Seq<char>) -> Result<Seq<char>, Seq<char>> {
        (choose|f: spec_fn(&Self, Seq<char>) -> Result<Seq<char>, Seq<char>>| answer_function(f))(
            self,
            vocalized,
        )
    }

    fn phonemize_nikud(&mut self, vocalized: &str) -> (r: Result<String, String>)
        requires
            contains_nikud_spec(vocalized@),
        ensures
            engine_view(r) == old(self).nikud_answer(vocalized@),
            forall|v: Seq<char>| #[trigger] final(self).nikud_answer(v) == old(self).nikud_answer(v),
    ;
}

/// Adapter for a plain-Hebrew → IPA engine (such as Renikud).
///
/// Callers pass Hebrew **without niqqud**. Implementations are the users'
/// engines and are not verified: the contract below is what the library
/// expects of them, namely that an engine's answer to a text is a fixed
/// function of the engine and the text (`plain_answer`), and that asking
/// it does not change how it answers.
pub trait PlainHebrewPhonemizer {
    /// The engine's answer for plain Hebrew text: some fixed function of the
    /// engine and the text, which the library does not know.
    closed spec fn plain_answer(&self, unvocalized: Seq<char>) -> Result<Seq<char>, Seq<char>> {
        (choose|f: spec_fn(&Self, Seq<char>) -> Result<Seq<char>, Seq<char>>| answer_function(f))(
            self,
            unvocalized,
        )
    }

    fn phonemize_plain(&mut self, unvocalized: &str) -> (r: Result<String, String>)
        requires
            !contains_nikud_spec(unvocalized@),
        ensures
            engine_view(r) == old(self).plain_answer(unvocalized@),
            forall|v: Seq<char>| #[trigger] final(self).plain_answer(v) == old(self).plain_answer(v),
    ;
}

/// The answers of a niqqud engine, as a function of the word.
pub open spec fn nikud_answers<P: NikudPhonemizer>(p: P) -> spec_fn(Seq<char>) -> Result<Seq<char>, Seq<char>> {
    |v: Seq<char>| p.nikud_answer(v)
}

/// The answers of a plain-Hebrew engine, as a function of the text.
pub open spec fn plain_answers<R: PlainHebrewPhonemizer>(r: R) -> spec_fn(Seq<char>) -> Result<Seq<char>, Seq<char>> {
    |v: Seq<char>| r.plain_answer(v)
}

/// The answers of an optional plain-Hebrew engine.
pub open spec fn opt_plain_answers<R: PlainHebrewPhonemizer>(r: Option<&mut R>) -> Option<
    spec_fn(Seq<char>) -> Result<Seq<char>, Seq<char>>,
> {
    match r {
        Some(e) => Some(plain_answers(*e)),
        None => None,
    }
}

/// Hebrew points and cantillation, including the Ole (hatama) and Meteg marks.
pub open spec fn is_nikud_spec(c: char) -> bool {
    0x0591 <= (c as u32) <= 0x05c7
}

/// A Hebrew letter, alef to tav.
pub open spec fn is_hebrew_letter_spec(c: char) -> bool {
    0x05d0 <= (c as u32) <= 0x05ea
}

/// A character that belongs to a Hebrew word: a letter, niqqud, geresh,
/// gershayim or `|`.
pub open spec fn is_hebrew_word_character_spec(c: char) -> bool {
    is_hebrew_letter_spec(c) || is_nikud_spec(c) || c == '׳' || c == '״' || c == '|'
}

/// A vowel of IPA as the engines write it.
pub open spec fn is_ipa_vowel_spec(c: char) -> bool {
    c == 'a' || c == 'e' || c == 'i' || c == 'o' || c == 'u' || c == 'ə' || c == 'ɑ' || c == 'ɛ'
        || c == 'ɔ' || c == 'ɪ' || c == 'ʊ' || c == 'ɐ' || c == 'æ' || c == 'ø' || c == 'œ' || c
        == 'ɨ' || c == 'ʉ'
}

/// `s` without its niqqud and cantillation.
pub open spec fn strip_nikud_spec(s: Seq<char>) -> Seq<char> {
    s.filter(|c: char| !is_nikud_spec(c))
}

/// Whether `s` holds a niqqud or cantillation mark.
pub open spec fn contains_nikud_spec(s: Seq<char>) -> bool {
    exists|i: int| 0 <= i < s.len() && is_nikud_spec(#[trigger] s[i])
}

/// Whether `s` holds a Hebrew letter.
pub open spec fn contains_hebrew_letter(s: Seq<char>) -> bool {
    exists|i: int| 0 <= i < s.len() && is_hebrew_letter_spec(#[trigger] s[i])
}

/// Whether `c` is niqqud or cantillation.
pub fn is_nikud(c: char) -> (b: bool)
    ensures
        b == is_nikud_spec(c),
{
    let u: u32 = c as u32;
    0x0591 <= u && u <= 0x05c7
}

/// Whether `c` is a Hebrew letter.
pub fn is_hebrew_letter(c: char) -> (b: bool)
    ensures
        b == is_hebrew_letter_spec(c),
{
    let u: u32 = c as u32;
    0x05d0 <= u && u <= 0x05ea
}

/// Whether `c` belongs to a Hebrew word.
pub fn is_hebrew_word_character(c: char) -> (b: bool)
    ensures
        b == is_hebrew_word_character_spec(c),
{
    is_hebrew_letter(c) || is_nikud(c) || c == '׳' || c == '״' || c == '|'
}

/// Whether `c` is an IPA vowel.
pub fn is_ipa_vowel(c: char) -> (b: bool)
    ensures
        b == is_ipa_vowel_spec(c),
{
    c == 'a' || c == 'e' || c == 'i' || c == 'o' || c == 'u' || c == 'ə' || c == 'ɑ' || c == 'ɛ'
        || c == 'ɔ' || c == 'ɪ' || c == 'ʊ' || c == 'ɐ' || c == 'æ' || c == 'ø' || c == 'œ' || c
        == 'ɨ' || c == 'ʉ'
}

/// The characters of `v` without niqqud.
pub fn strip_nikud_chars(v: &[char]) -> (out: Vec<char>)
    ensures
        out@ == strip_nikud_spec(v@),
{
    let mut out: Vec<char> = Vec::new();
    let mut i: usize = 0;
    while i < v.len()
        invariant
            i <= v@.len(),
            out@ == strip_nikud_spec(v@.take(i as int)),
        decreases v.len() - i,
    {
        let c = v[i];
        assert(v@.take(i + 1) == v@.take(i as int).push(c));
        proof {
            v@.take(i as int).lemma_filter_push(c, |c: char| !is_nikud_spec(c));
        }
        if !is_nikud(c) {
            out.push(c);
        }
        i += 1;
    }
    assert(v@.take(v.len() as int) == v@);
    out
}

/// Strips Hebrew niqqud and cantillation while keeping letters and geresh.
pub fn strip_nikud(text: &str) -> (out: String)
    ensures
        out@ == strip_nikud_spec(text@),
{
    let v = chars_of(text);
    let s = strip_nikud_chars(v.as_slice());
    string_of(s.as_slice())
}

/// Whether `v` holds niqqud.
pub fn contains_nikud_chars(v: &[char]) -> (b: bool)
    ensures
        b == contains_nikud_spec(v@),
{
    let mut i: usize = 0;
    while i < v.len()
        invariant
            i <= v@.len(),
            forall|k: int| 0 <= k < i ==> !is_nikud_spec(#[trigger] v@[k]),
        decreases v.len() - i,
    {
        if is_nikud(v[i]) {
            return true;
        }
        i += 1;
    }
    false
}

/// True when `text` contains any Hebrew niqqud or cantillation mark.
pub fn contains_nikud(text: &str) -> (b: bool)
    ensures
        b == contains_nikud_spec(text@),
{
    let v = chars_of(text);
    contains_nikud_chars(v.as_slice())
}

/// Whether `v` holds a Hebrew letter.
pub fn contains_hebrew_letter_chars(v: &[char]) -> (b: bool)
    ensures
        b == contains_hebrew_letter(v@),
{
    let mut i: usize = 0;
    while i < v.len()
        invariant
            i <= v@.len(),
            forall|k: int| 0 <= k < i ==> !is_hebrew_letter_spec(#[trigger] v@[k]),
        decreases v.len() - i,
    {
        if is_hebrew_letter(v[i]) {
            return true;
        }
        i += 1;
    }
    false
}

/// The index of the stressed vowel in `s`, scanning on with `vowel_index`
/// vowels seen so far and `pending` when a stress mark stands right before:
/// a stress mark counts only when it sits immediately before its vowel.
pub open spec fn stress_index_from(s: Seq<char>, vowel_index: nat, pending: bool) -> Option<nat>
    decreases s.len(),
{
    if s.len() == 0 {
        None
    } else {
        let c = s[0];
        if c == STRESS_MARK {
            stress_index_from(s.drop_first(), vowel_index, true)
        } else if is_ipa_vowel_spec(c) {
            if pending {
                Some(vowel_index)
            } else {
                stress_index_from(s.drop_first(), vowel_index + 1, false)
            }
        } else {
            stress_index_from(s.drop_first(), vowel_index, false)
        }
    }
}

/// The index (`0` = first vowel) of the vowel that a stress mark directly
/// precedes, if any.
pub open spec fn vowel_stress_index_spec(ipa: Seq<char>) -> Option<nat> {
    stress_index_from(ipa, 0, false)
}

/// Index of the stressed vowel in IPA (`0` = first vowel), if any.
pub fn vowel_stress_index(ipa: &str) -> (r: Option<usize>)
    ensures
        match r {
            Some(k) => vowel_stress_index_spec(ipa@) == Some(k as nat),
            None => vowel_stress_index_spec(ipa@) is None,
        },
{
    let v = chars_of(ipa);
    let mut vowel_index: usize = 0;
    let mut pending = false;
    let mut i: usize = 0;
    assert(v@.skip(0) == v@);
    while i < v.len()
        invariant
            i <= v@.len() == ipa@.len(),
            v@ == ipa@,
            vowel_index <= i,
            stress_index_from(v@.skip(i as int), vowel_index as nat, pending)
                == vowel_stress_index_spec(ipa@),
        decreases v.len() - i,
    {
        let c = v[i];
        assert(v@.skip(i as int).drop_first() == v@.skip(i + 1));
        assert(v@.skip(i as int)[0] == c);
        if c == STRESS_MARK {
            pending = true;
        } else if is_ipa_vowel(c) {
            if pending {
                return Some(vowel_index);
            }
            vowel_index += 1;
        } else {
            pending = false;
        }
        i += 1;
    }
    None
}

/// `s` without stress marks.
pub open spec fn remove_stress(s: Seq<char>) -> Seq<char> {
    s.filter(|c: char| c != STRESS_MARK)
}

/// The number of IPA vowels in `s`.
pub open spec fn vowel_count(s: Seq<char>) -> nat
    decreases s.len(),
{
    if s.len() == 0 {
        0
    } else {
        vowel_count(s.drop_last()) + if is_ipa_vowel_spec(s.last()) {
            1nat
        } else {
            0nat
        }
    }
}

/// The position of the vowel with index `k` in `s`.
pub open spec fn vowel_pos(s: Seq<char>, k: nat) -> int
    decreases s.len(),
{
    if s.len() == 0 {
        0
    } else if is_ipa_vowel_spec(s[0]) {
        if k == 0 {
            0
        } else {
            1 + vowel_pos(s.drop_first(), (k - 1) as nat)
        }
    } else {
        1 + vowel_pos(s.drop_first(), k)
    }
}

/// `s` with a stress mark inserted before its vowel with index `k`.
pub open spec fn stress_before_vowel(s: Seq<char>, k: nat) -> Seq<char> {
    s.take(vowel_pos(s, k)) + seq![STRESS_MARK] + s.skip(vowel_pos(s, k))
}

/// What `apply_vowel_stress` returns: the stress-free IPA with one stress
/// mark before vowel `vowel_index`, or before the last vowel when there are
/// fewer vowels, and unchanged when there is no vowel at all.
pub open spec fn apply_vowel_stress_spec(ipa: Seq<char>, vowel_index: nat) -> Seq<char> {
    let plain = remove_stress(ipa);
    let n = vowel_count(plain);
    if vowel_index < n {
        stress_before_vowel(plain, vowel_index)
    } else if n == 0 {
        plain
    } else {
        stress_before_vowel(plain, (n - 1) as nat)
    }
}

proof fn lemma_vowel_pos_bounds(s: Seq<char>, k: nat)
    requires
        k < vowel_count(s),
    ensures
        0 <= vowel_pos(s, k) < s.len(),
        is_ipa_vowel_spec(s[vowel_pos(s, k)]),
        vowel_count(s.take(vowel_pos(s, k))) == k,
    decreases s.len(),
{
    lemma_vowel_count_front(s);
    let rest = s.drop_first();
    if is_ipa_vowel_spec(s[0]) {
        if k == 0 {
            assert(s.take(0) == Seq::<char>::empty());
        } else {
            lemma_vowel_pos_bounds(rest, (k - 1) as nat);
            let p = vowel_pos(rest, (k - 1) as nat);
            assert(s.take(p + 1).drop_first() == rest.take(p));
            lemma_vowel_count_front(s.take(p + 1));
        }
    } else {
        lemma_vowel_pos_bounds(rest, k);
        let p = vowel_pos(rest, k);
        assert(s.take(p + 1).drop_first() == rest.take(p));
        lemma_vowel_count_front(s.take(p + 1));
    }
}

/// Counting vowels from the front.
proof fn lemma_vowel_count_front(s: Seq<char>)
    requires
        s.len() > 0,
    ensures
        vowel_count(s) == vowel_count(s.drop_first()) + if is_ipa_vowel_spec(s[0]) {
            1nat
        } else {
            0nat
        },
    decreases s.len(),
{
    if s.len() > 1 {
        lemma_vowel_count_front(s.drop_last());
        assert(s.drop_last().drop_first() == s.drop_first().drop_last());
        assert(s.drop_first().last() == s.last());
        assert(vowel_count(s.drop_first()) == vowel_count(s.drop_first().drop_last()) + if is_ipa_vowel_spec(s.last()) {
            1nat
        } else {
            0nat
        });
    } else {
        assert(s.drop_first().len() == 0);
        assert(s.drop_last().len() == 0);
        assert(vowel_count(s.drop_last()) == 0);
    }
}

/// Finds where vowel `target` of `plain` stands.
fn find_vowel_pos(plain: &[char], target: usize) -> (pos: usize)
    requires
        target < vowel_count(plain@),
    ensures
        pos == vowel_pos(plain@, target as nat),
        pos < plain@.len(),
{
    proof {
        lemma_vowel_pos_bounds(plain@, target as nat);
    }
    let mut i: usize = 0;
    let mut seen: usize = 0;
    assert(plain@.skip(0) == plain@);
    while i < plain.len()
        invariant
            i <= plain@.len(),
            seen <= target,
            target < vowel_count(plain@),
            vowel_pos(plain@, target as nat) == i + vowel_pos(
                plain@.skip(i as int),
                (target - seen) as nat,
            ),
            vowel_pos(plain@, target as nat) < plain@.len(),
        decreases plain.len() - i,
    {
        let c = plain[i];
        assert(plain@.skip(i as int).drop_first() == plain@.skip(i + 1));
        assert(plain@.skip(i as int)[0] == c);
        if is_ipa_vowel(c) {
            if seen == target {
                return i;
            }
            seen += 1;
        }
        i += 1;
    }
    assert(plain@.skip(i as int).len() == 0);
    i
}

/// The number of vowels in `v`.
fn count_vowels(v: &[char]) -> (n: usize)
    ensures
        n == vowel_count(v@),
{
    let mut n: usize = 0;
    let mut i: usize = 0;
    while i < v.len()
        invariant
            i <= v@.len(),
            n == vowel_count(v@.take(i as int)),
            n <= i,
        decreases v.len() - i,
    {
        assert(v@.take(i + 1).drop_last() == v@.take(i as int));
        if is_ipa_vowel(v[i]) {
            n += 1;
        }
        i += 1;
    }
    assert(v@.take(v.len() as int) == v@);
    n
}

/// The characters of `v` without stress marks.
fn remove_stress_chars(v: &[char]) -> (out: Vec<char>)
    ensures
        out@ == remove_stress(v@),
{
    let mut out: Vec<char> = Vec::new();
    let mut i: usize = 0;
    while i < v.len()
        invariant
            i <= v@.len(),
            out@ == remove_stress(v@.take(i as int)),
        decreases v.len() - i,
    {
        let c = v[i];
        assert(v@.take(i + 1) == v@.take(i as int).push(c));
        proof {
            v@.take(i as int).lemma_filter_push(c, |c: char| c != STRESS_MARK);
        }
        if c != STRESS_MARK {
            out.push(c);
        }
        i += 1;
    }
    assert(v@.take(v.len() as int) == v@);
    out
}

/// `plain` with a stress mark before position `pos`.
fn insert_stress_at(plain: &[char], pos: usize) -> (out: Vec<char>)
    requires
        pos <= plain@.len(),
    ensures
        out@ == plain@.take(pos as int) + seq![STRESS_MARK] + plain@.skip(pos as int),
{
    let mut out: Vec<char> = Vec::new();
    let mut i: usize = 0;
    while i < pos
        invariant
            i <= pos <= plain@.len(),
            out@ == plain@.take(i as int),
        decreases pos - i,
    {
        out.push(plain[i]);
        i += 1;
        assert(out@ == plain@.take(i as int));
    }
    out.push(STRESS_MARK);
    while i < plain.len()
        invariant
            pos <= i <= plain@.len(),
            out@ == plain@.take(pos as int) + seq![STRESS_MARK] + plain@.subrange(
                pos as int,
                i as int,
            ),
        decreases plain.len() - i,
    {
        out.push(plain[i]);
        i += 1;
        assert(out@ == plain@.take(pos as int) + seq![STRESS_MARK] + plain@.subrange(
            pos as int,
            i as int,
        ));
    }
    assert(plain@.subrange(pos as int, plain@.len() as int) == plain@.skip(pos as int));
    out
}

/// `apply_vowel_stress` on characters.
pub fn apply_vowel_stress_chars(ipa: &[char], vowel_index: usize) -> (out: Vec<char>)
    ensures
        out@ == apply_vowel_stress_spec(ipa@, vowel_index as nat),
{
    let plain = remove_stress_chars(ipa);
    let n = count_vowels(plain.as_slice());
    if vowel_index < n {
        let pos = find_vowel_pos(plain.as_slice(), vowel_index);
        insert_stress_at(plain.as_slice(), pos)
    } else if n == 0 {
        plain
    } else {
        let pos = find_vowel_pos(plain.as_slice(), n - 1);
        insert_stress_at(plain.as_slice(), pos)
    }
}

/// Inserts `ˈ` immediately before the vowel at `vowel_index`, replacing any
/// existing stress marks; the last vowel is stressed when there are fewer
/// vowels.
pub fn apply_vowel_stress(ipa: &str, vowel_index: usize) -> (out: String)
    ensures
        out@ == apply_vowel_stress_spec(ipa@, vowel_index as nat),
{
    let v = chars_of(ipa);
    let r = apply_vowel_stress_chars(v.as_slice(), vowel_index);
    string_of(r.as_slice())
}

/// What `transfer_stress` returns: the space-normalized plain-form IPA with
/// the niqqud engine's stress placement, or unchanged when that has none.
pub open spec fn transfer_stress_spec(phonikud_ipa: Seq<char>, renikud_ipa: Seq<char>) -> Seq<char> {
    let renikud = normalize_spaces(renikud_ipa);
    match vowel_stress_index_spec(phonikud_ipa) {
        Some(k) => apply_vowel_stress_spec(renikud, k),
        None => renikud,
    }
}

/// Copies the stress placement of `phonikud_ipa` onto `renikud_ipa`.
///
/// When `phonikud_ipa` has no stress mark the other IPA is returned
/// unchanged, aside from white-space normalization.
pub fn transfer_stress(phonikud_ipa: &str, renikud_ipa: &str) -> (out: String)
    ensures
        out@ == transfer_stress_spec(phonikud_ipa@, renikud_ipa@),
{
    let rv = chars_of(renikud_ipa);
    let words = split_whitespace_chars(rv.as_slice());
    let renikud = join_chars(&words, &[' ']);
    assert(seq![' '] =~= [' ']@);
    match vowel_stress_index(phonikud_ipa) {
        Some(index) => {
            let r = apply_vowel_stress_chars(renikud.as_slice(), index);
            string_of(r.as_slice())
        },
        None => string_of(renikud.as_slice()),
    }
}



/// The characters of an optional engine answer.
pub open spec fn opt_engine_view(r: Option<Result<String, String>>) -> Option<
    Result<Seq<char>, Seq<char>>,
> {
    match r {
        Some(x) => Some(engine_view(x)),
        None => None,
    }
}

/// A span built from its parts.
pub open spec fn span_view(
    source: Seq<char>,
    phonikud_ipa: Seq<char>,
    renikud_ipa: Option<Seq<char>>,
    ipa: Seq<char>,
) -> PhoneticSpanView {
    PhoneticSpanView { source, phonikud_ipa, renikud_ipa, ipa }
}

/// What phonemizing the vocalized `word` gives, for each answer of the
/// niqqud engine (`phonikud`) and, when it was consulted, of the plain-Hebrew
/// engine on the stripped word (`renikud`): answers are trimmed, blank IPA is
/// an error, and with both answers the final IPA is the plain-form IPA with
/// the niqqud engine's stress.
pub open spec fn nikud_word_outcome(
    word: Seq<char>,
    phonikud: Result<Seq<char>, Seq<char>>,
    renikud: Option<Result<Seq<char>, Seq<char>>>,
) -> Result<PhoneticSpanView, HandlingErrorView> {
    if !contains_nikud_spec(word) {
        Err(HandlingErrorView::NotVocalized(word))
    } else {
        match phonikud {
            Err(e) => Err(HandlingErrorView::Engine(e)),
            Ok(raw) => {
                let ph = trim(raw);
                if ph.len() == 0 {
                    Err(HandlingErrorView::EmptyPhonikud(word))
                } else {
                    match renikud {
                        Some(Err(e)) => Err(HandlingErrorView::Engine(e)),
                        Some(Ok(raw2)) => {
                            let re = trim(raw2);
                            if re.len() == 0 {
                                Err(HandlingErrorView::EmptyRenikud(strip_nikud_spec(word)))
                            } else {
                                Ok(span_view(word, ph, Some(re), transfer_stress_spec(ph, re)))
                            }
                        },
                        None => Ok(span_view(word, ph, None, ph)),
                    }
                }
            },
        }
    }
}

/// What phonemizing the vocalized `word` gives with engines that answer as
/// `nikud` and (when present) `plain` do.
pub open spec fn word_outcome(
    word: Seq<char>,
    nikud: spec_fn(Seq<char>) -> Result<Seq<char>, Seq<char>>,
    plain: Option<spec_fn(Seq<char>) -> Result<Seq<char>, Seq<char>>>,
) -> Result<PhoneticSpanView, HandlingErrorView> {
    let a = nikud(word);
    nikud_word_outcome(
        word,
        a,
        if consults_renikud(word, a, plain is Some) {
            Some((plain->0)(strip_nikud_spec(word)))
        } else {
            None
        },
    )
}

/// Whether the plain-Hebrew engine is consulted for `word`: the word is
/// vocalized, the niqqud engine gave non-blank IPA, the stripped word has a
/// Hebrew letter, and such an engine is present.
pub open spec fn consults_renikud(
    word: Seq<char>,
    phonikud: Result<Seq<char>, Seq<char>>,
    has_renikud: bool,
) -> bool {
    &&& contains_nikud_spec(word)
    &&& phonikud matches Ok(raw) && trim(raw).len() > 0
    &&& contains_hebrew_letter(strip_nikud_spec(word))
    &&& has_renikud
}

/// Builds the span of the vocalized `word` from the engines' answers.
pub fn nikud_word_span(
    word: &str,
    phonikud: Result<String, String>,
    renikud: Option<Result<String, String>>,
) -> (r: Result<PhoneticSpan, HandlingError>)
    ensures
        span_outcome_view(r) == nikud_word_outcome(
            word@,
            engine_view(phonikud),
            opt_engine_view(renikud),
        ),
{
    if !contains_nikud(word) {
        return Err(HandlingError::NotVocalized(word.to_owned()));
    }
    let raw = match phonikud {
        Err(e) => {
            return Err(HandlingError::Engine(e));
        },
        Ok(raw) => raw,
    };
    let raw_chars = chars_of(raw.as_str());
    let ph = trim_chars(raw_chars.as_slice());
    if ph.len() == 0 {
        return Err(HandlingError::EmptyPhonikud(word.to_owned()));
    }
    let phonikud_ipa = string_of(ph.as_slice());
    match renikud {
        Some(Err(e)) => Err(HandlingError::Engine(e)),
        Some(Ok(raw2)) => {
            let raw2_chars = chars_of(raw2.as_str());
            let re = trim_chars(raw2_chars.as_slice());
            if re.len() == 0 {
                return Err(HandlingError::EmptyRenikud(strip_nikud(word)));
            }
            let renikud_ipa = string_of(re.as_slice());
            let ipa = transfer_stress(phonikud_ipa.as_str(), renikud_ipa.as_str());
            Ok(
                PhoneticSpan {
                    source: word.to_owned(),
                    phonikud_ipa,
                    renikud_ipa: Some(renikud_ipa),
                    ipa,
                },
            )
        },
        None => {
            let ipa = string_of(ph.as_slice());
            Ok(PhoneticSpan { source: word.to_owned(), phonikud_ipa, renikud_ipa: None, ipa })
        },
    }
}

/// Phonemizes one vocalized Hebrew word:
/// 1. the niqqud engine on the word **with niqqud**,
/// 2. when given, the plain-Hebrew engine on the **stripped** form,
/// 3. the niqqud engine's stress merged onto the plain-form IPA.
///
/// The outcome is `word_outcome` of the engines' answers: the niqqud
/// engine is asked about `word` itself, and the plain-Hebrew engine about
/// `strip_nikud(word)`, only when `consults_renikud` holds. An unvocalized
/// word asks no engine.
pub fn phonemize_nikud_word<P: NikudPhonemizer, R: PlainHebrewPhonemizer>(
    word: &str,
    phonikud: &mut P,
    renikud: Option<&mut R>,
) -> (r: Result<PhoneticSpan, HandlingError>)
    ensures
        span_outcome_view(r) == word_outcome(
            word@,
            nikud_answers(*old(phonikud)),
            opt_plain_answers(renikud),
        ),
        nikud_answers(*final(phonikud)) == nikud_answers(*old(phonikud)),
        !contains_nikud_spec(word@) ==> *final(phonikud) == *old(phonikud),
        renikud matches Some(e) ==> plain_answers(*final(e)) == plain_answers(*e),
        renikud matches Some(e) ==> (!consults_renikud(
            word@,
            old(phonikud).nikud_answer(word@),
            true,
        ) ==> *final(e) == *e),
{
    let has_renikud = renikud.is_some();
    if !contains_nikud(word) {
        return Err(HandlingError::NotVocalized(word.to_owned()));
    }
    let ph = phonikud.phonemize_nikud(word);
    assert(nikud_answers(*phonikud) =~= nikud_answers(*old(phonikud)));
    let ghost p = engine_view(ph);
    let mut ask = false;
    let mut plain = String::new();
    if let Ok(raw) = &ph {
        let raw_chars = chars_of(raw.as_str());
        let t = trim_chars(raw_chars.as_slice());
        let word_chars = chars_of(word);
        let plain_chars = strip_nikud_chars(word_chars.as_slice());
        if t.len() > 0 && contains_hebrew_letter_chars(plain_chars.as_slice()) && has_renikud {
            ask = true;
            plain = string_of(plain_chars.as_slice());
        }
    }
    assert(ask == consults_renikud(word@, p, has_renikud));
    proof {
        law_strip_nikud(word@);
    }
    let re = match renikud {
        Some(engine) => {
            if ask {
                Some(engine.phonemize_plain(plain.as_str()))
            } else {
                None
            }
        },
        None => None,
    };
    let r = nikud_word_span(word, ph, re);
    r
}

/// Adds the pending Hebrew `word` to `out`: a vocalized word becomes
/// replacement `j` (or stays itself when there is none) and advances `j`.
pub open spec fn flush_hebrew(out: Seq<char>, word: Seq<char>, reps: Seq<Seq<char>>, j: nat) -> (
    Seq<char>,
    nat,
) {
    if word.len() == 0 {
        (out, j)
    } else if contains_nikud_spec(word) {
        (
            out + if j < reps.len() {
                reps[j as int]
            } else {
                word
            },
            j + 1,
        )
    } else {
        (out + word, j)
    }
}

/// `s` with its vocalized Hebrew words replaced in order by `reps`,
/// continuing from output `out`, pending word `word` and replacement `j`.
pub open spec fn substitute_from(
    s: Seq<char>,
    out: Seq<char>,
    word: Seq<char>,
    reps: Seq<Seq<char>>,
    j: nat,
) -> Seq<char>
    decreases s.len(),
{
    if s.len() == 0 {
        flush_hebrew(out, word, reps, j).0
    } else if is_hebrew_word_character_spec(s[0]) {
        substitute_from(s.drop_first(), out, word.push(s[0]), reps, j)
    } else {
        let f = flush_hebrew(out, word, reps, j);
        substitute_from(s.drop_first(), f.0.push(s[0]), Seq::empty(), reps, f.1)
    }
}

/// `text` with its vocalized Hebrew words (maximal runs of Hebrew word
/// characters that hold niqqud) replaced in order by `reps`; a word beyond
/// the replacements stays as it is.
pub open spec fn substitute_nikud_words_spec(text: Seq<char>, reps: Seq<Seq<char>>) -> Seq<char> {
    substitute_from(text, Seq::empty(), Seq::empty(), reps, 0)
}

/// The vocalized Hebrew words of `s`, continuing from `acc` and the pending
/// word.
pub open spec fn nikud_words_from(s: Seq<char>, acc: Seq<Seq<char>>, word: Seq<char>) -> Seq<
    Seq<char>,
>
    decreases s.len(),
{
    if s.len() == 0 {
        if contains_nikud_spec(word) {
            acc.push(word)
        } else {
            acc
        }
    } else if is_hebrew_word_character_spec(s[0]) {
        nikud_words_from(s.drop_first(), acc, word.push(s[0]))
    } else {
        nikud_words_from(
            s.drop_first(),
            if contains_nikud_spec(word) {
                acc.push(word)
            } else {
                acc
            },
            Seq::empty(),
        )
    }
}

/// The vocalized Hebrew words of `text`, in order.
pub open spec fn nikud_words(text: Seq<char>) -> Seq<Seq<char>> {
    nikud_words_from(text, Seq::empty(), Seq::empty())
}

/// Replaces the vocalized Hebrew words of `text`, in order, by
/// `replacements`.
pub fn substitute_nikud_words(text: &str, replacements: &Vec<String>) -> (out: String)
    ensures
        out@ == substitute_nikud_words_spec(
            text@,
            replacements@.map_values(|r: String| r@),
        ),
{
    let v = chars_of(text);
    let ghost reps = replacements@.map_values(|r: String| r@);
    let mut out: Vec<char> = Vec::new();
    let mut word: Vec<char> = Vec::new();
    let mut j: usize = 0;
    let mut i: usize = 0;
    assert(v@.skip(0) == v@);
    while i < v.len()
        invariant
            i <= v@.len(),
            v@ == text@,
            j <= i,
            reps == replacements@.map_values(|r: String| r@),
            substitute_from(v@.skip(i as int), out@, word@, reps, j as nat)
                == substitute_nikud_words_spec(text@, reps),
        decreases v.len() - i,
    {
        let c = v[i];
        assert(v@.skip(i as int).drop_first() == v@.skip(i + 1));
        assert(v@.skip(i as int)[0] == c);
        if is_hebrew_word_character(c) {
            word.push(c);
        } else {
            if word.len() > 0 {
                if contains_nikud_chars(word.as_slice()) {
                    if j < replacements.len() {
                        let r = chars_of(replacements[j].as_str());
                        append_chars(&mut out, r.as_slice());
                    } else {
                        append_chars(&mut out, word.as_slice());
                    }
                    j += 1;
                } else {
                    append_chars(&mut out, word.as_slice());
                }
            }
            out.push(c);
            word = Vec::new();
            assert(word@ == Seq::<char>::empty());
        }
        i += 1;
    }
    if word.len() > 0 {
        if contains_nikud_chars(word.as_slice()) {
            if j < replacements.len() {
                let r = chars_of(replacements[j].as_str());
                append_chars(&mut out, r.as_slice());
            } else {
                append_chars(&mut out, word.as_slice());
            }
        } else {
            append_chars(&mut out, word.as_slice());
        }
    }
    string_of(out.as_slice())
}


/// The final IPA of each span.
pub open spec fn span_ipas(spans: Seq<PhoneticSpan>) -> Seq<Seq<char>> {
    spans.map_values(|s: PhoneticSpan| s.ipa@)
}

/// The source word of each span.
pub open spec fn span_sources(spans: Seq<PhoneticSpan>) -> Seq<Seq<char>> {
    spans.map_values(|s: PhoneticSpan| s.source@)
}

/// A span that the engines could have produced for its source word.
pub open spec fn is_engine_span(span: PhoneticSpanView) -> bool {
    exists|p: Result<Seq<char>, Seq<char>>, q: Option<Result<Seq<char>, Seq<char>>>|
        #[trigger] nikud_word_outcome(span.source, p, q) == Ok::<
            PhoneticSpanView,
            HandlingErrorView,
        >(span)
}

/// An error that phonemizing a vocalized word can give.
pub open spec fn is_word_error(e: HandlingErrorView) -> bool {
    e is Engine || e is EmptyPhonikud || e is EmptyRenikud
}

/// Flushes the pending Hebrew `word` into `out`: a vocalized word goes
/// through the engines and its span is recorded, any other word is copied.
fn flush_hebrew_word<P: NikudPhonemizer, R: PlainHebrewPhonemizer>(
    word: &mut Vec<char>,
    out: &mut Vec<char>,
    spans: &mut Vec<PhoneticSpan>,
    phonikud: &mut P,
    renikud: &mut Option<&mut R>,
) -> (r: Result<(), HandlingError>)
    ensures
        r matches Ok(_) ==> {
            &&& final(word)@ == Seq::<char>::empty()
            &&& if old(word)@.len() == 0 {
                &&& final(out)@ == old(out)@
                &&& final(spans)@ == old(spans)@
            } else if contains_nikud_spec(old(word)@) {
                &&& final(spans)@.len() == old(spans)@.len() + 1
                &&& final(spans)@.take(old(spans)@.len() as int) == old(spans)@
                &&& final(spans)@.last().source@ == old(word)@
                &&& is_engine_span(final(spans)@.last()@)
                &&& final(out)@ == old(out)@ + final(spans)@.last().ipa@
            } else {
                &&& final(out)@ == old(out)@ + old(word)@
                &&& final(spans)@ == old(spans)@
            }
        },
        r matches Err(e) ==> is_word_error(e@),
        !contains_nikud_spec(old(word)@) ==> r is Ok,
        nikud_answers(*final(phonikud)) == nikud_answers(*old(phonikud)),
        opt_plain_answers(*final(renikud)) == opt_plain_answers(*old(renikud)),
        !contains_nikud_spec(old(word)@) ==> *final(phonikud) == *old(phonikud),
        !contains_nikud_spec(old(word)@) ==> *final(renikud) == *old(renikud),
        contains_nikud_spec(old(word)@) ==> match r {
            Ok(_) => Ok::<PhoneticSpanView, HandlingErrorView>(final(spans)@.last()@)
                == word_outcome(
                old(word)@,
                nikud_answers(*old(phonikud)),
                opt_plain_answers(*old(renikud)),
            ),
            Err(e) => Err::<PhoneticSpanView, HandlingErrorView>(e@) == word_outcome(
                old(word)@,
                nikud_answers(*old(phonikud)),
                opt_plain_answers(*old(renikud)),
            ),
        },
{
    if word.len() == 0 {
        return Ok(());
    }
    if contains_nikud_chars(word.as_slice()) {
        let w = string_of(word.as_slice());
        let re: Option<&mut R> = match renikud {
            Some(r) => Some(&mut **r),
            None => None,
        };
        let has_re = re.is_some();
        let res = phonemize_nikud_word(w.as_str(), phonikud, re);
        match res {
            Ok(span) => {
                let ghost sv = span@;
                proof {
                    let (p, q) = choose|
                        p: Result<Seq<char>, Seq<char>>,
                        q: Option<Result<Seq<char>, Seq<char>>>,
                    |
                        {
                            &&& span_outcome_view(Ok::<PhoneticSpan, HandlingError>(span))
                                == #[trigger] nikud_word_outcome(w@, p, q)
                            &&& (q is Some <==> consults_renikud(w@, p, has_re))
                        };
                    assert(nikud_word_outcome(w@, p, q) == Ok::<
                        PhoneticSpanView,
                        HandlingErrorView,
                    >(sv));
                    assert(sv.source == w@);
                    assert(is_engine_span(sv));
                }
                let ipa = chars_of(span.ipa.as_str());
                append_chars(out, ipa.as_slice());
                spans.push(span);
                *word = Vec::new();
                Ok(())
            },
            Err(e) => {
                proof {
                    let (p, q) = choose|
                        p: Result<Seq<char>, Seq<char>>,
                        q: Option<Result<Seq<char>, Seq<char>>>,
                    |
                        {
                            &&& span_outcome_view(Err::<PhoneticSpan, HandlingError>(e))
                                == #[trigger] nikud_word_outcome(w@, p, q)
                            &&& (q is Some <==> consults_renikud(w@, p, has_re))
                        };
                    assert(nikud_word_outcome(w@, p, q) == Err::<
                        PhoneticSpanView,
                        HandlingErrorView,
                    >(e@));
                }
                Err(e)
            },
        }
    } else {
        append_chars(out, word.as_slice());
        *word = Vec::new();
        Ok(())
    }
}


proof fn lemma_flush_step(
    old_spans: Seq<PhoneticSpan>,
    new_spans: Seq<PhoneticSpan>,
    old_out: Seq<char>,
    new_out: Seq<char>,
    word: Seq<char>,
    rest: Seq<char>,
    c: char,
    acc_words: Seq<Seq<char>>,
    target_words: Seq<Seq<char>>,
    text: Seq<char>,
)
    requires
        !is_hebrew_word_character_spec(c),
        nikud_words_from(seq![c] + rest, span_sources(old_spans), word) == target_words,
        forall|reps: Seq<Seq<char>>|
            reps.len() >= old_spans.len() && reps.take(old_spans.len() as int) == span_ipas(
                old_spans,
            ) ==> substitute_from(seq![c] + rest, old_out, word, reps, old_spans.len() as nat)
                == #[trigger] substitute_nikud_words_spec(text, reps),
        if word.len() == 0 {
            new_out == old_out && new_spans == old_spans
        } else if contains_nikud_spec(word) {
            &&& new_spans.len() == old_spans.len() + 1
            &&& new_spans.take(old_spans.len() as int) == old_spans
            &&& new_spans.last().source@ == word
            &&& new_out == old_out + new_spans.last().ipa@
        } else {
            new_out == old_out + word && new_spans == old_spans
        },
    ensures
        nikud_words_from(rest, span_sources(new_spans), Seq::empty()) == target_words,
        forall|reps: Seq<Seq<char>>|
            reps.len() >= new_spans.len() && reps.take(new_spans.len() as int) == span_ipas(
                new_spans,
            ) ==> substitute_from(rest, new_out.push(c), Seq::empty(), reps, new_spans.len() as nat)
                == #[trigger] substitute_nikud_words_spec(text, reps),
{
    let s = seq![c] + rest;
    assert(s[0] == c);
    assert(s.drop_first() == rest);
    let n = old_spans.len();
    if word.len() > 0 && contains_nikud_spec(word) {
        assert(new_spans == old_spans.push(new_spans.last()));
        assert(span_sources(new_spans) == span_sources(old_spans).push(word));
        assert(span_ipas(new_spans) == span_ipas(old_spans).push(new_spans.last().ipa@));
    }
    assert forall|reps: Seq<Seq<char>>|
        reps.len() >= new_spans.len() && reps.take(new_spans.len() as int) == span_ipas(new_spans)
            implies substitute_from(rest, new_out.push(c), Seq::empty(), reps, new_spans.len() as nat)
        == #[trigger] substitute_nikud_words_spec(text, reps) by {
        if word.len() > 0 && contains_nikud_spec(word) {
            assert(reps.take(n as int) == reps.take((n + 1) as int).take(n as int));
            assert(span_ipas(new_spans).take(n as int) == span_ipas(old_spans));
            assert(reps[n as int] == reps.take((n + 1) as int)[n as int]);
        }
        assert(substitute_from(s, old_out, word, reps, n as nat) == substitute_nikud_words_spec(
            text,
            reps,
        ));
    }
}

/// The views of spans.
pub open spec fn span_views(spans: Seq<PhoneticSpan>) -> Seq<PhoneticSpanView> {
    spans.map_values(|s: PhoneticSpan| s@)
}

/// The spans of the words `ws`, in order, with engines answering as `nikud`
/// and `plain`: the first failing word's error, or every word's span.
pub open spec fn spans_outcome(
    ws: Seq<Seq<char>>,
    nikud: spec_fn(Seq<char>) -> Result<Seq<char>, Seq<char>>,
    plain: Option<spec_fn(Seq<char>) -> Result<Seq<char>, Seq<char>>>,
) -> Result<Seq<PhoneticSpanView>, HandlingErrorView>
    decreases ws.len(),
{
    if ws.len() == 0 {
        Ok(Seq::empty())
    } else {
        match spans_outcome(ws.drop_last(), nikud, plain) {
            Err(e) => Err(e),
            Ok(pre) => match word_outcome(ws.last(), nikud, plain) {
                Ok(span) => Ok(pre.push(span)),
                Err(e) => Err(e),
            },
        }
    }
}

/// What replacing the vocalized words of `text` gives with engines that
/// answer as `nikud` and `plain`: the text with each such word replaced by
/// its span's IPA, and the spans; or the first failing word's error.
pub open spec fn replace_outcome(
    text: Seq<char>,
    nikud: spec_fn(Seq<char>) -> Result<Seq<char>, Seq<char>>,
    plain: Option<spec_fn(Seq<char>) -> Result<Seq<char>, Seq<char>>>,
) -> Result<(Seq<char>, Seq<PhoneticSpanView>), HandlingErrorView> {
    match spans_outcome(nikud_words(text), nikud, plain) {
        Ok(ss) => Ok(
            (
                substitute_nikud_words_spec(text, ss.map_values(|v: PhoneticSpanView| v.ipa)),
                ss,
            ),
        ),
        Err(e) => Err(e),
    }
}

/// The characters of a replacement result.
pub open spec fn replace_view(r: Result<(String, Vec<PhoneticSpan>), HandlingError>) -> Result<
    (Seq<char>, Seq<PhoneticSpanView>),
    HandlingErrorView,
> {
    match r {
        Ok((out, spans)) => Ok((out@, span_views(spans@))),
        Err(e) => Err(e@),
    }
}

proof fn lemma_spans_outcome_err(
    a: Seq<Seq<char>>,
    b: Seq<Seq<char>>,
    nikud: spec_fn(Seq<char>) -> Result<Seq<char>, Seq<char>>,
    plain: Option<spec_fn(Seq<char>) -> Result<Seq<char>, Seq<char>>>,
)
    requires
        spans_outcome(a, nikud, plain) is Err,
    ensures
        spans_outcome(a + b, nikud, plain) == spans_outcome(a, nikud, plain),
    decreases b.len(),
{
    if b.len() == 0 {
        assert(a + b == a);
    } else {
        lemma_spans_outcome_err(a, b.drop_last(), nikud, plain);
        assert((a + b).drop_last() == a + b.drop_last());
    }
}

proof fn lemma_first_error(
    srcs: Seq<Seq<char>>,
    w: Seq<char>,
    later: Seq<Seq<char>>,
    nikud: spec_fn(Seq<char>) -> Result<Seq<char>, Seq<char>>,
    plain: Option<spec_fn(Seq<char>) -> Result<Seq<char>, Seq<char>>>,
    e: HandlingErrorView,
)
    requires
        spans_outcome(srcs, nikud, plain) is Ok,
        word_outcome(w, nikud, plain) == Err::<PhoneticSpanView, HandlingErrorView>(e),
    ensures
        spans_outcome(srcs.push(w) + later, nikud, plain) == Err::<
            Seq<PhoneticSpanView>,
            HandlingErrorView,
        >(e),
{
    assert(srcs.push(w).drop_last() == srcs);
    assert(spans_outcome(srcs.push(w), nikud, plain) == Err::<Seq<PhoneticSpanView>, HandlingErrorView>(e));
    lemma_spans_outcome_err(srcs.push(w), later, nikud, plain);
}

proof fn lemma_nikud_words_from_acc(s: Seq<char>, acc: Seq<Seq<char>>, word: Seq<char>)
    ensures
        nikud_words_from(s, acc, word) == acc + nikud_words_from(s, Seq::empty(), word),
    decreases s.len(),
{
    let e = Seq::<Seq<char>>::empty();
    if s.len() == 0 {
        if contains_nikud_spec(word) {
            assert(acc.push(word) == acc + e.push(word));
        } else {
            assert(acc == acc + e);
        }
    } else if is_hebrew_word_character_spec(s[0]) {
        lemma_nikud_words_from_acc(s.drop_first(), acc, word.push(s[0]));
    } else if contains_nikud_spec(word) {
        lemma_nikud_words_from_acc(s.drop_first(), acc.push(word), Seq::empty());
        lemma_nikud_words_from_acc(s.drop_first(), e.push(word), Seq::empty());
        assert(acc.push(word) == acc + e.push(word));
    } else {
        lemma_nikud_words_from_acc(s.drop_first(), acc, Seq::empty());
        lemma_nikud_words_from_acc(s.drop_first(), e, Seq::empty());
        assert(e + nikud_words_from(s.drop_first(), e, Seq::empty()) == nikud_words_from(
            s.drop_first(),
            e,
            Seq::empty(),
        ));
    }
}

/// Replaces each vocalized Hebrew word of `text` by its final IPA.
///
/// The result is `replace_outcome` of the engines' answers: the words of
/// `nikud_words(text)` go, in order, through `phonemize_nikud_word`; the
/// first failure is returned, else the text with each such word replaced
/// by its span's IPA, and the spans. Text without niqqud asks no engine,
/// leaves both engines as they were, and always succeeds.
pub fn replace_nikud_words<P: NikudPhonemizer, R: PlainHebrewPhonemizer>(
    text: &str,
    phonikud: &mut P,
    renikud: Option<&mut R>,
) -> (r: Result<(String, Vec<PhoneticSpan>), HandlingError>)
    ensures
        r matches Ok((out, spans)) ==> {
            &&& span_sources(spans@) == nikud_words(text@)
            &&& forall|j: int| 0 <= j < spans@.len() ==> is_engine_span(#[trigger] spans@[j]@)
            &&& out@ == substitute_nikud_words_spec(text@, span_ipas(spans@))
        },
        r matches Err(e) ==> is_word_error(e@),
        !contains_nikud_spec(text@) ==> r is Ok,
        replace_view(r) == replace_outcome(
            text@,
            nikud_answers(*old(phonikud)),
            opt_plain_answers(renikud),
        ),
        nikud_answers(*final(phonikud)) == nikud_answers(*old(phonikud)),
        !contains_nikud_spec(text@) ==> *final(phonikud) == *old(phonikud),
        renikud matches Some(e) ==> (!contains_nikud_spec(text@) ==> *final(e) == *e),
{
    let ghost n0 = nikud_answers(*old(phonikud));
    let ghost p0 = opt_plain_answers(renikud);
    let v = chars_of(text);
    let mut plain_engine = renikud;
    let mut out: Vec<char> = Vec::new();
    let mut spans: Vec<PhoneticSpan> = Vec::new();
    let mut word: Vec<char> = Vec::new();
    let mut i: usize = 0;
    assert(v@.skip(0) == v@);
    assert(span_sources(spans@) == Seq::<Seq<char>>::empty());
    assert(span_views(spans@) == Seq::<PhoneticSpanView>::empty());
    assert forall|reps: Seq<Seq<char>>|
        reps.len() >= spans@.len() && reps.take(spans@.len() as int) == span_ipas(spans@)
            implies substitute_from(v@.skip(i as int), out@, word@, reps, spans@.len() as nat)
        == #[trigger] substitute_nikud_words_spec(text@, reps) by {
        assert(out@ == Seq::<char>::empty());
        assert(word@ == Seq::<char>::empty());
    }
    while i < v.len()
        invariant
            i <= v@.len(),
            v@ == text@,
            nikud_answers(*phonikud) == n0,
            n0 == nikud_answers(*old(phonikud)),
            opt_plain_answers(plain_engine) == p0,
            p0 == opt_plain_answers(renikud),
            !contains_nikud_spec(text@) ==> *phonikud == *old(phonikud),
            !contains_nikud_spec(text@) ==> plain_engine == renikud,
            spans_outcome(span_sources(spans@), n0, p0) == Ok::<
                Seq<PhoneticSpanView>,
                HandlingErrorView,
            >(span_views(spans@)),
            !contains_nikud_spec(text@) ==> !contains_nikud_spec(word@),
            nikud_words_from(v@.skip(i as int), span_sources(spans@), word@) == nikud_words(text@),
            forall|j: int| 0 <= j < spans@.len() ==> is_engine_span(#[trigger] spans@[j]@),
            forall|reps: Seq<Seq<char>>|
                reps.len() >= spans@.len() && reps.take(spans@.len() as int) == span_ipas(spans@)
                    ==> substitute_from(v@.skip(i as int), out@, word@, reps, spans@.len() as nat)
                    == #[trigger] substitute_nikud_words_spec(text@, reps),
        decreases v.len() - i,
    {
        let c = v[i];
        let ghost rest = v@.skip(i + 1);
        assert(v@.skip(i as int) == seq![c] + rest);
        if is_hebrew_word_character(c) {
            let ghost old_word = word@;
            word.push(c);
            proof {
                if !contains_nikud_spec(text@) {
                    assert(!is_nikud_spec(text@[i as int]));
                    assert forall|k: int| 0 <= k < word@.len() implies !is_nikud_spec(
                        #[trigger] word@[k],
                    ) by {
                        if k < old_word.len() {
                            assert(word@[k] == old_word[k]);
                        }
                    }
                }
            }
            assert((seq![c] + rest).drop_first() == rest);
            assert(nikud_words_from(seq![c] + rest, span_sources(spans@), old_word)
                == nikud_words_from(rest, span_sources(spans@), word@));
            assert forall|reps: Seq<Seq<char>>|
                reps.len() >= spans@.len() && reps.take(spans@.len() as int) == span_ipas(spans@)
                    implies substitute_from(rest, out@, word@, reps, spans@.len() as nat)
                == #[trigger] substitute_nikud_words_spec(text@, reps) by {
                assert(substitute_from(seq![c] + rest, out@, old_word, reps, spans@.len() as nat)
                    == substitute_from(rest, out@, word@, reps, spans@.len() as nat));
            }
        } else {
            let ghost old_spans = spans@;
            let ghost old_out = out@;
            let ghost old_word = word@;
            let flushed = flush_hebrew_word(&mut word, &mut out, &mut spans, phonikud, &mut plain_engine);
            if let Err(e) = flushed {
                proof {
                    let srcs = span_sources(old_spans);
                    assert((seq![c] + rest).drop_first() == rest);
                    assert((seq![c] + rest)[0] == c);
                    assert(nikud_words(text@) == nikud_words_from(rest, srcs.push(old_word), Seq::empty()));
                    lemma_nikud_words_from_acc(rest, srcs.push(old_word), Seq::empty());
                    lemma_first_error(
                        srcs,
                        old_word,
                        nikud_words_from(rest, Seq::empty(), Seq::empty()),
                        n0,
                        p0,
                        e@,
                    );
                    assert(spans_outcome(nikud_words(text@), n0, p0) == Err::<Seq<PhoneticSpanView>, HandlingErrorView>(e@));
                    assert(replace_outcome(text@, n0, p0) == Err::<(Seq<char>, Seq<PhoneticSpanView>), HandlingErrorView>(e@));
                }
                return Err(e);
            }
            proof {
                if old_word.len() > 0 && contains_nikud_spec(old_word) {
                    let srcs = span_sources(old_spans);
                    assert(spans@ == old_spans.push(spans@.last()));
                    assert(span_sources(spans@) == srcs.push(old_word));
                    assert(span_sources(spans@).drop_last() == srcs);
                    assert(span_views(spans@) == span_views(old_spans).push(spans@.last()@));
                }
            }
            proof {
                lemma_flush_step(
                    old_spans,
                    spans@,
                    old_out,
                    out@,
                    old_word,
                    rest,
                    c,
                    span_sources(old_spans),
                    nikud_words(text@),
                    text@,
                );
                if old_word.len() > 0 && contains_nikud_spec(old_word) {
                    assert(spans@ == old_spans.push(spans@.last()));
                    assert forall|j: int| 0 <= j < spans@.len() implies is_engine_span(
                        #[trigger] spans@[j]@,
                    ) by {
                        if j < old_spans.len() {
                            assert(spans@[j] == old_spans[j]);
                        }
                    }
                }
            }
            out.push(c);
        }
        i += 1;
    }
    let ghost old_spans = spans@;
    let ghost old_out = out@;
    let ghost old_word = word@;
    let flushed = flush_hebrew_word(&mut word, &mut out, &mut spans, phonikud, &mut plain_engine);
    if let Err(e) = flushed {
        proof {
            let srcs = span_sources(old_spans);
            assert(v@.skip(v@.len() as int) == Seq::<char>::empty());
            assert(nikud_words(text@) == srcs.push(old_word));
            lemma_first_error(srcs, old_word, Seq::empty(), n0, p0, e@);
            assert(srcs.push(old_word) + Seq::<Seq<char>>::empty() == srcs.push(old_word));
        }
        return Err(e);
    }
    proof {
        if old_word.len() > 0 && contains_nikud_spec(old_word) {
            let srcs = span_sources(old_spans);
            assert(spans@ == old_spans.push(spans@.last()));
            assert(span_sources(spans@).drop_last() == srcs);
            assert(span_views(spans@) == span_views(old_spans).push(spans@.last()@));
        }
        assert(span_views(spans@).map_values(|x: PhoneticSpanView| x.ipa) == span_ipas(spans@));
    }
    proof {
        assert(v@.skip(v@.len() as int) == Seq::<char>::empty());
        if old_word.len() > 0 && contains_nikud_spec(old_word) {
            assert(spans@ == old_spans.push(spans@.last()));
            assert(span_sources(spans@) == span_sources(old_spans).push(old_word));
            assert(span_ipas(spans@) == span_ipas(old_spans).push(spans@.last().ipa@));
            assert forall|j: int| 0 <= j < spans@.len() implies is_engine_span(
                #[trigger] spans@[j]@,
            ) by {
                if j < old_spans.len() {
                    assert(spans@[j] == old_spans[j]);
                }
            }
        }
        let reps = span_ipas(spans@);
        assert(reps.take(spans@.len() as int) == reps);
        if old_word.len() > 0 && contains_nikud_spec(old_word) {
            assert(reps.take(old_spans.len() as int) == span_ipas(old_spans));
        }
        assert(substitute_from(Seq::<char>::empty(), old_out, old_word, reps, old_spans.len() as nat)
            == substitute_nikud_words_spec(text@, reps));
    }
    Ok((string_of(out.as_slice()), spans))
}


/// Prepares one sentence.
///
/// - `text` keeps niqqud (never stripped for text-native models);
/// - `phonetic_text` replaces only niqqud-bearing words with their final
///   IPA, and only in phonetic mode, exactly as `replace_nikud_words` does
///   on the normalized text;
/// - no engine is asked when no niqqud word needs one, and the plain-Hebrew
///   engine is left alone when the niqqud engine is missing.
pub fn prepare_text<P: NikudPhonemizer, R: PlainHebrewPhonemizer>(
    text: &str,
    phonikud: Option<&mut P>,
    renikud: Option<&mut R>,
    phonetic_mode: bool,
) -> (r: Result<PreparedText, HandlingError>)
    ensures
        !speech_patterns_compile() ==> (r matches Err(e) && e is InvalidPattern),
        speech_patterns_compile() ==> ({
            let n = normalize_for_speech_spec(text@);
            if !phonetic_mode || !contains_nikud_spec(n) {
                &&& r matches Ok(p)
                &&& p.original@ == text@
                &&& p.text@ == n
                &&& p.phonetic_text@ == n
                &&& p.phonetic_spans@.len() == 0
            } else if phonikud is None {
                r matches Err(e) && e is MissingPhonikud
            } else {
                &&& phonikud matches Some(pk)
                &&& match replace_outcome(n, nikud_answers(*pk), opt_plain_answers(renikud)) {
                    Ok((out, spans)) => {
                        &&& r matches Ok(p)
                        &&& p.original@ == text@
                        &&& p.text@ == n
                        &&& p.phonetic_text@ == out
                        &&& span_views(p.phonetic_spans@) == spans
                    },
                    Err(e) => r matches Err(e2) && e2@ == e,
                }
            }
        }),
        phonikud matches Some(pk) ==> ((!speech_patterns_compile() || !phonetic_mode
            || !contains_nikud_spec(normalize_for_speech_spec(text@))) ==> *final(pk) == *pk),
        renikud matches Some(e) ==> ((!speech_patterns_compile() || !phonetic_mode
            || !contains_nikud_spec(normalize_for_speech_spec(text@)) || phonikud is None)
            ==> *final(e) == *e),
{
    let normalized = normalize_for_speech(text)?;
    if !phonetic_mode || !contains_nikud(normalized.as_str()) {
        return Ok(
            PreparedText {
                original: text.to_owned(),
                text: normalized.clone(),
                phonetic_text: normalized,
                phonetic_spans: Vec::new(),
            },
        );
    }
    let phonikud = match phonikud {
        Some(p) => p,
        None => {
            return Err(HandlingError::MissingPhonikud);
        },
    };
    let (phonetic_text, phonetic_spans) = replace_nikud_words(
        normalized.as_str(),
        phonikud,
        renikud,
    )?;
    Ok(PreparedText { original: text.to_owned(), text: normalized, phonetic_text, phonetic_spans })
}

/// A filter that keeps every element changes nothing.
proof fn lemma_filter_keeps_all(s: Seq<char>, pred: spec_fn(char) -> bool)
    requires
        forall|i: int| 0 <= i < s.len() ==> pred(#[trigger] s[i]),
    ensures
        s.filter(pred) == s,
    decreases s.len(),
{
    reveal(Seq::filter);
    if s.len() > 0 {
        assert forall|i: int| 0 <= i < s.drop_last().len() implies pred(
            #[trigger] s.drop_last()[i],
        ) by {
            assert(s.drop_last()[i] == s[i]);
        }
        lemma_filter_keeps_all(s.drop_last(), pred);
        assert(pred(s[s.len() - 1]));
        assert(s.drop_last().push(s.last()) == s);
    }
}

/// IPA without stress marks holds none.
proof fn lemma_remove_stress_free(s: Seq<char>)
    ensures
        forall|i: int| 0 <= i < remove_stress(s).len() ==> #[trigger] remove_stress(s)[i] != STRESS_MARK,
        remove_stress(remove_stress(s)) == remove_stress(s),
{
    let pred = |c: char| c != STRESS_MARK;
    assert forall|i: int| 0 <= i < remove_stress(s).len() implies #[trigger] remove_stress(s)[i]
        != STRESS_MARK by {
        s.lemma_filter_pred(pred, i);
    }
    lemma_filter_keeps_all(remove_stress(s), pred);
}

/// Scanning over a stress-free prefix only counts its vowels.
proof fn lemma_stress_index_skip(a: Seq<char>, b: Seq<char>, vi: nat)
    requires
        forall|i: int| 0 <= i < a.len() ==> #[trigger] a[i] != STRESS_MARK,
    ensures
        stress_index_from(a + b, vi, false) == stress_index_from(b, vi + vowel_count(a), false),
    decreases a.len(),
{
    if a.len() > 0 {
        let c = a[0];
        assert((a + b)[0] == c);
        assert((a + b).drop_first() == a.drop_first() + b);
        assert forall|i: int| 0 <= i < a.drop_first().len() implies #[trigger] a.drop_first()[i]
            != STRESS_MARK by {
            assert(a.drop_first()[i] == a[i + 1]);
        }
        lemma_vowel_count_front(a);
        if is_ipa_vowel_spec(c) {
            lemma_stress_index_skip(a.drop_first(), b, vi + 1);
        } else {
            lemma_stress_index_skip(a.drop_first(), b, vi);
        }
    } else {
        assert(a + b == b);
    }
}

/// Stressing vowel `k` of stress-free IPA is read back as index `k`, and
/// removing the mark gives the IPA back.
#[verifier::rlimit(40)]
proof fn lemma_stress_before_vowel(plain: Seq<char>, k: nat)
    requires
        k < vowel_count(plain),
        forall|i: int| 0 <= i < plain.len() ==> #[trigger] plain[i] != STRESS_MARK,
    ensures
        vowel_stress_index_spec(stress_before_vowel(plain, k)) == Some(k),
        remove_stress(stress_before_vowel(plain, k)) == plain,
{
    lemma_vowel_pos_bounds(plain, k);
    let p = vowel_pos(plain, k);
    let a = plain.take(p);
    let b = seq![STRESS_MARK] + plain.skip(p);
    assert(stress_before_vowel(plain, k) == a + b);
    assert forall|i: int| 0 <= i < a.len() implies #[trigger] a[i] != STRESS_MARK by {
        assert(a[i] == plain[i]);
    }
    lemma_stress_index_skip(a, b, 0);
    assert(b[0] == STRESS_MARK);
    assert(b.drop_first() == plain.skip(p));
    assert(plain.skip(p)[0] == plain[p]);
    assert(stress_index_from(plain.skip(p), k, true) == Some(k));
    assert(stress_index_from(b, k, false) == stress_index_from(b.drop_first(), k, true));
    let pred = |c: char| c != STRESS_MARK;
    Seq::filter_distributes_over_add(a, b, pred);
    Seq::filter_distributes_over_add(seq![STRESS_MARK], plain.skip(p), pred);
    reveal_with_fuel(Seq::filter, 2);
    assert(seq![STRESS_MARK].filter(pred) == Seq::<char>::empty());
    assert forall|i: int| 0 <= i < plain.skip(p).len() implies pred(#[trigger] plain.skip(p)[i]) by {
        assert(plain.skip(p)[i] == plain[p + i]);
    }
    lemma_filter_keeps_all(plain.skip(p), pred);
    assert forall|i: int| 0 <= i < a.len() implies pred(#[trigger] a[i]) by {}
    lemma_filter_keeps_all(a, pred);
    assert(a + plain.skip(p) == plain);
}

/// Placing stress changes nothing but stress marks: removing them from the
/// result gives the input without its stress marks.
pub proof fn law_apply_vowel_stress_only_moves_stress(ipa: Seq<char>, vowel_index: nat)
    ensures
        remove_stress(apply_vowel_stress_spec(ipa, vowel_index)) == remove_stress(ipa),
{
    let plain = remove_stress(ipa);
    let n = vowel_count(plain);
    lemma_remove_stress_free(ipa);
    if vowel_index < n {
        lemma_stress_before_vowel(plain, vowel_index);
    } else if n > 0 {
        lemma_stress_before_vowel(plain, (n - 1) as nat);
    }
}

/// A stress mark directly before an IPA vowel (any of a e i o u ə ɑ ɛ ɔ ɪ ʊ
/// ɐ æ ø œ ɨ ʉ) that opens the IPA is read as stress on the first vowel and
/// copied onto the first vowel of the other IPA; stressing the first vowel
/// of IPA that opens with such a vowel puts the mark in front of it.
pub proof fn law_stress_on_an_opening_vowel(c: char, t: Seq<char>, renikud_ipa: Seq<char>)
    requires
        c == 'a' || c == 'e' || c == 'i' || c == 'o' || c == 'u' || c == 'ə' || c == 'ɑ' || c == 'ɛ'
            || c == 'ɔ' || c == 'ɪ' || c == 'ʊ' || c == 'ɐ' || c == 'æ' || c == 'ø' || c == 'œ'
            || c == 'ɨ' || c == 'ʉ',
    ensures
        vowel_stress_index_spec(seq![STRESS_MARK, c] + t) == Some(0nat),
        transfer_stress_spec(seq![STRESS_MARK, c] + t, renikud_ipa) == apply_vowel_stress_spec(
            normalize_spaces(renikud_ipa),
            0,
        ),
        apply_vowel_stress_spec(seq![c] + t, 0) == seq![STRESS_MARK, c] + remove_stress(t),
{
    let s = seq![STRESS_MARK, c] + t;
    assert(s[0] == STRESS_MARK);
    assert(s.drop_first()[0] == c);
    assert(stress_index_from(s, 0, false) == stress_index_from(s.drop_first(), 0, true));
    let pred = |x: char| x != STRESS_MARK;
    Seq::filter_distributes_over_add(seq![c], t, pred);
    reveal_with_fuel(Seq::filter, 2);
    assert(seq![c].filter(pred) == seq![c]);
    let plain = remove_stress(seq![c] + t);
    assert(plain == seq![c] + remove_stress(t));
    assert(plain[0] == c);
    lemma_vowel_count_front(plain);
    assert(vowel_pos(plain, 0) == 0);
    assert(plain.take(0) == Seq::<char>::empty());
    assert(plain.skip(0) == plain);
}

/// A stress mark before anything but an IPA vowel (a e i o u ə ɑ ɛ ɔ ɪ ʊ ɐ
/// æ ø œ ɨ ʉ) or another stress mark stresses nothing: two-character IPA of
/// a stress mark and such a character has no stressed vowel.
pub proof fn law_stress_before_a_non_vowel(c: char)
    requires
        !(c == 'a' || c == 'e' || c == 'i' || c == 'o' || c == 'u' || c == 'ə' || c == 'ɑ' || c
            == 'ɛ' || c == 'ɔ' || c == 'ɪ' || c == 'ʊ' || c == 'ɐ' || c == 'æ' || c == 'ø' || c
            == 'œ' || c == 'ɨ' || c == 'ʉ'),
        c != STRESS_MARK,
    ensures
        vowel_stress_index_spec(seq![STRESS_MARK, c]) is None,
{
    let s = seq![STRESS_MARK, c];
    assert(s.drop_first() == seq![c]);
    assert(seq![c].drop_first().len() == 0);
    assert(stress_index_from(s, 0, false) == stress_index_from(seq![c], 0, true));
    assert(stress_index_from(seq![c], 0, true) == stress_index_from(seq![c].drop_first(), 0, false));
}

/// Characters that keep a Hebrew word together: the letters א to ת, niqqud
/// and cantillation (U+0591 to U+05C7), geresh, gershayim and `|`.
pub open spec fn joins_hebrew_word(c: char) -> bool {
    (0x05d0 <= (c as u32) <= 0x05ea) || (0x0591 <= (c as u32) <= 0x05c7) || c == '׳' || c == '״'
        || c == '|'
}

proof fn lemma_one_run_words(s: Seq<char>, acc: Seq<Seq<char>>, word: Seq<char>)
    requires
        forall|i: int| 0 <= i < s.len() ==> joins_hebrew_word(#[trigger] s[i]),
    ensures
        nikud_words_from(s, acc, word) == if contains_nikud_spec(word + s) {
            acc.push(word + s)
        } else {
            acc
        },
    decreases s.len(),
{
    if s.len() == 0 {
        assert(word + s == word);
    } else {
        assert(joins_hebrew_word(s[0]));
        assert forall|i: int| 0 <= i < s.drop_first().len() implies joins_hebrew_word(
            #[trigger] s.drop_first()[i],
        ) by {
            assert(s.drop_first()[i] == s[i + 1]);
        }
        lemma_one_run_words(s.drop_first(), acc, word.push(s[0]));
        assert(word.push(s[0]) + s.drop_first() == word + s);
    }
}

proof fn lemma_one_run_substitute(
    s: Seq<char>,
    out: Seq<char>,
    word: Seq<char>,
    reps: Seq<Seq<char>>,
    j: nat,
)
    requires
        forall|i: int| 0 <= i < s.len() ==> joins_hebrew_word(#[trigger] s[i]),
    ensures
        substitute_from(s, out, word, reps, j) == flush_hebrew(out, word + s, reps, j).0,
    decreases s.len(),
{
    if s.len() == 0 {
        assert(word + s == word);
    } else {
        assert(joins_hebrew_word(s[0]));
        assert forall|i: int| 0 <= i < s.drop_first().len() implies joins_hebrew_word(
            #[trigger] s.drop_first()[i],
        ) by {
            assert(s.drop_first()[i] == s[i + 1]);
        }
        lemma_one_run_substitute(s.drop_first(), out, word.push(s[0]), reps, j);
        assert(word.push(s[0]) + s.drop_first() == word + s);
    }
}

proof fn lemma_run_prefix(w: Seq<char>, rest: Seq<char>, acc: Seq<Seq<char>>, word: Seq<char>)
    requires
        forall|i: int| 0 <= i < w.len() ==> joins_hebrew_word(#[trigger] w[i]),
    ensures
        nikud_words_from(w + rest, acc, word) == nikud_words_from(rest, acc, word + w),
    decreases w.len(),
{
    if w.len() == 0 {
        assert(w + rest == rest);
        assert(word + w == word);
    } else {
        assert((w + rest)[0] == w[0]);
        assert((w + rest).drop_first() == w.drop_first() + rest);
        assert forall|i: int| 0 <= i < w.drop_first().len() implies joins_hebrew_word(
            #[trigger] w.drop_first()[i],
        ) by {
            assert(w.drop_first()[i] == w[i + 1]);
        }
        lemma_run_prefix(w.drop_first(), rest, acc, word.push(w[0]));
        assert(word.push(w[0]) + w.drop_first() == word + w);
    }
}

/// Any other character ends a word: two vocalized words of Hebrew letters,
/// niqqud, geresh, gershayim and `|` with one character of any other kind
/// between them are two words, in order.
pub proof fn law_other_characters_split_words(w1: Seq<char>, c: char, w2: Seq<char>)
    requires
        forall|i: int| 0 <= i < w1.len() ==> joins_hebrew_word(#[trigger] w1[i]),
        forall|i: int| 0 <= i < w2.len() ==> joins_hebrew_word(#[trigger] w2[i]),
        contains_nikud_spec(w1),
        contains_nikud_spec(w2),
        !joins_hebrew_word(c),
    ensures
        nikud_words(w1 + seq![c] + w2) == seq![w1, w2],
{
    let e = Seq::<char>::empty();
    let rest = seq![c] + w2;
    assert(w1 + seq![c] + w2 == w1 + rest);
    lemma_run_prefix(w1, rest, Seq::empty(), e);
    assert(e + w1 == w1);
    assert(rest[0] == c);
    assert(rest.drop_first() == w2);
    let acc = Seq::<Seq<char>>::empty().push(w1);
    assert(nikud_words_from(rest, Seq::empty(), w1) == nikud_words_from(w2, acc, e));
    lemma_one_run_words(w2, acc, e);
    assert(e + w2 == w2);
    assert(acc.push(w2) == seq![w1, w2]);
}

/// A vocalized word is one word, whatever geresh, gershayim or `|` it
/// holds: a text made only of Hebrew letters, niqqud, geresh, gershayim and
/// `|`, with some niqqud, is a single vocalized word, given to the engines
/// whole and replaced whole by its span's IPA.
pub proof fn law_vocalized_word_is_whole(
    w: Seq<char>,
    reps: Seq<Seq<char>>,
    nikud: spec_fn(Seq<char>) -> Result<Seq<char>, Seq<char>>,
    plain: Option<spec_fn(Seq<char>) -> Result<Seq<char>, Seq<char>>>,
)
    requires
        forall|i: int| 0 <= i < w.len() ==> joins_hebrew_word(#[trigger] w[i]),
        contains_nikud_spec(w),
    ensures
        nikud_words(w) == seq![w],
        reps.len() > 0 ==> substitute_nikud_words_spec(w, reps) == reps[0],
        replace_outcome(w, nikud, plain) == match word_outcome(w, nikud, plain) {
            Ok(span) => Ok::<(Seq<char>, Seq<PhoneticSpanView>), HandlingErrorView>(
                (span.ipa, seq![span]),
            ),
            Err(e) => Err(e),
        },
{
    let e = Seq::<char>::empty();
    lemma_one_run_words(w, Seq::empty(), e);
    lemma_one_run_substitute(w, e, e, reps, 0);
    assert(e + w == w);
    assert(Seq::<Seq<char>>::empty().push(w) == seq![w]);
    let ws = seq![w];
    assert(ws.drop_last() == Seq::<Seq<char>>::empty());
    assert(ws.last() == w);
    assert(spans_outcome(Seq::<Seq<char>>::empty(), nikud, plain) == Ok::<
        Seq<PhoneticSpanView>,
        HandlingErrorView,
    >(Seq::empty()));
    match word_outcome(w, nikud, plain) {
        Ok(span) => {
            assert(Seq::<PhoneticSpanView>::empty().push(span) == seq![span]);
            assert(spans_outcome(ws, nikud, plain) == Ok::<Seq<PhoneticSpanView>, HandlingErrorView>(
                seq![span],
            ));
            lemma_one_run_substitute(w, e, e, seq![span].map_values(|v: PhoneticSpanView| v.ipa), 0);
            assert(seq![span].map_values(|v: PhoneticSpanView| v.ipa)[0] == span.ipa);
        },
        Err(_) => {},
    }
}

/// The vowel that `apply_vowel_stress` stresses in stress-free IPA with
/// `n` vowels: vowel `vowel_index`, or the last one when there are fewer.
pub open spec fn stressed_vowel(vowel_index: nat, n: nat) -> nat {
    if vowel_index < n {
        vowel_index
    } else {
        (n - 1) as nat
    }
}

/// Placing stress leaves exactly one stress mark, directly before the
/// chosen vowel (vowel `vowel_index`, or the last vowel when there are
/// fewer) of the stress-free IPA, and nothing else changes; IPA without a
/// vowel comes back without stress marks. Placing the same stress again
/// changes nothing.
pub proof fn law_apply_vowel_stress_places_one_mark(ipa: Seq<char>, vowel_index: nat)
    ensures
        vowel_count(remove_stress(ipa)) == 0 ==> apply_vowel_stress_spec(ipa, vowel_index)
            == remove_stress(ipa),
        vowel_count(remove_stress(ipa)) > 0 ==> ({
            let plain = remove_stress(ipa);
            let r = apply_vowel_stress_spec(ipa, vowel_index);
            let j = stressed_vowel(vowel_index, vowel_count(plain));
            let p = vowel_pos(plain, j);
            &&& 0 <= p < plain.len()
            &&& is_ipa_vowel_spec(plain[p])
            &&& vowel_count(plain.take(p)) == j
            &&& r == plain.take(p) + seq![STRESS_MARK] + plain.skip(p)
            &&& r[p + 1] == plain[p]
            &&& forall|i: int| 0 <= i < r.len() ==> (#[trigger] r[i] == STRESS_MARK <==> i == p)
        }),
        apply_vowel_stress_spec(apply_vowel_stress_spec(ipa, vowel_index), vowel_index)
            == apply_vowel_stress_spec(ipa, vowel_index),
{
    let plain = remove_stress(ipa);
    let n = vowel_count(plain);
    let r = apply_vowel_stress_spec(ipa, vowel_index);
    lemma_remove_stress_free(ipa);
    if n > 0 {
        let j = stressed_vowel(vowel_index, n);
        lemma_one_mark(plain, j);
        lemma_stress_before_vowel(plain, j);
        assert(r == stress_before_vowel(plain, j));
        assert(remove_stress(r) == plain);
        assert(apply_vowel_stress_spec(r, vowel_index) == r);
    } else {
        assert(r == plain);
        assert(remove_stress(r) == plain);
    }
}

/// Stress-free IPA stressed at vowel `k` holds exactly one stress mark,
/// directly before that vowel.
proof fn lemma_one_mark(plain: Seq<char>, k: nat)
    requires
        k < vowel_count(plain),
        forall|i: int| 0 <= i < plain.len() ==> #[trigger] plain[i] != STRESS_MARK,
    ensures
        ({
            let p = vowel_pos(plain, k);
            let r = stress_before_vowel(plain, k);
            &&& 0 <= p < plain.len()
            &&& is_ipa_vowel_spec(plain[p])
            &&& vowel_count(plain.take(p)) == k
            &&& r == plain.take(p) + seq![STRESS_MARK] + plain.skip(p)
            &&& r[p + 1] == plain[p]
            &&& forall|i: int| 0 <= i < r.len() ==> (#[trigger] r[i] == STRESS_MARK <==> i == p)
        }),
{
    lemma_vowel_pos_bounds(plain, k);
    let p = vowel_pos(plain, k);
    let r = stress_before_vowel(plain, k);
    assert(r.len() == plain.len() + 1);
    assert forall|i: int| 0 <= i < r.len() implies (#[trigger] r[i] == STRESS_MARK <==> i == p) by {
        if i < p {
            assert(r[i] == plain[i]);
        } else if i > p {
            assert(r[i] == plain[i - 1]);
        }
    }
    assert(r[p + 1] == plain.skip(p)[0]);
}

/// Reading the stress back: after placing stress on vowel `vowel_index`,
/// `vowel_stress_index` finds that vowel, or the last vowel when the IPA has
/// fewer vowels.
pub proof fn law_vowel_stress_round_trip(ipa: Seq<char>, vowel_index: nat)
    requires
        vowel_count(remove_stress(ipa)) > 0,
    ensures
        vowel_stress_index_spec(apply_vowel_stress_spec(ipa, vowel_index)) == Some(
            if vowel_index < vowel_count(remove_stress(ipa)) {
                vowel_index
            } else {
                (vowel_count(remove_stress(ipa)) - 1) as nat
            },
        ),
{
    let plain = remove_stress(ipa);
    let n = vowel_count(plain);
    lemma_remove_stress_free(ipa);
    if vowel_index < n {
        lemma_stress_before_vowel(plain, vowel_index);
    } else {
        lemma_stress_before_vowel(plain, (n - 1) as nat);
    }
}

/// Transferring stress copies the niqqud engine's stressed-vowel index onto
/// the plain-form IPA (the last vowel when it has fewer), and keeps that
/// IPA's sounds: only stress marks differ from its space-normalized form.
pub proof fn law_transfer_stress_copies_index(phonikud_ipa: Seq<char>, renikud_ipa: Seq<char>)
    requires
        vowel_stress_index_spec(phonikud_ipa) is Some,
        vowel_count(remove_stress(normalize_spaces(renikud_ipa))) > 0,
    ensures
        ({
            let k = vowel_stress_index_spec(phonikud_ipa)->0;
            let n = vowel_count(remove_stress(normalize_spaces(renikud_ipa)));
            vowel_stress_index_spec(transfer_stress_spec(phonikud_ipa, renikud_ipa)) == Some(
                if k < n {
                    k
                } else {
                    (n - 1) as nat
                },
            )
        }),
        remove_stress(transfer_stress_spec(phonikud_ipa, renikud_ipa)) == remove_stress(
            normalize_spaces(renikud_ipa),
        ),
{
    let k = vowel_stress_index_spec(phonikud_ipa)->0;
    law_vowel_stress_round_trip(normalize_spaces(renikud_ipa), k);
    law_apply_vowel_stress_only_moves_stress(normalize_spaces(renikud_ipa), k);
}

/// Without a stress mark in the niqqud engine's IPA, the plain-form IPA is
/// only space-normalized.
pub proof fn law_transfer_without_stress(phonikud_ipa: Seq<char>, renikud_ipa: Seq<char>)
    requires
        vowel_stress_index_spec(phonikud_ipa) is None,
    ensures
        transfer_stress_spec(phonikud_ipa, renikud_ipa) == normalize_spaces(renikud_ipa),
{
}

/// Stripping niqqud leaves none behind, keeps every other character in
/// order, and stripping twice is stripping once.
pub proof fn law_strip_nikud(text: Seq<char>)
    ensures
        !contains_nikud_spec(strip_nikud_spec(text)),
        strip_nikud_spec(strip_nikud_spec(text)) == strip_nikud_spec(text),
        !contains_nikud_spec(text) ==> strip_nikud_spec(text) == text,
{
    let pred = |c: char| !is_nikud_spec(c);
    assert forall|i: int| 0 <= i < strip_nikud_spec(text).len() implies pred(
        #[trigger] strip_nikud_spec(text)[i],
    ) by {
        text.lemma_filter_pred(pred, i);
    }
    lemma_filter_keeps_all(strip_nikud_spec(text), pred);
    if !contains_nikud_spec(text) {
        assert forall|i: int| 0 <= i < text.len() implies pred(#[trigger] text[i]) by {}
        lemma_filter_keeps_all(text, pred);
    }
}


proof fn lemma_substitute_plain(s: Seq<char>, out: Seq<char>, word: Seq<char>, reps: Seq<Seq<char>>, j: nat)
    requires
        !contains_nikud_spec(s),
        !contains_nikud_spec(word),
    ensures
        substitute_from(s, out, word, reps, j) == out + word + s,
        nikud_words_from(s, Seq::empty(), word) == Seq::<Seq<char>>::empty(),
    decreases s.len(),
{
    let rest = s.drop_first();
    if s.len() == 0 {
        assert(out + word + s == out + word);
        if word.len() == 0 {
            assert(out + word == out);
        }
    } else {
        let c = s[0];
        assert(!contains_nikud_spec(rest)) by {
            if contains_nikud_spec(rest) {
                let i = choose|i: int| 0 <= i < rest.len() && is_nikud_spec(#[trigger] rest[i]);
                assert(s[i + 1] == rest[i]);
            }
        }
        assert(!is_nikud_spec(c)) by {
            assert(s[0] == c);
        }
        if is_hebrew_word_character_spec(c) {
            assert(!contains_nikud_spec(word.push(c))) by {
                if contains_nikud_spec(word.push(c)) {
                    let i = choose|i: int|
                        0 <= i < word.push(c).len() && is_nikud_spec(#[trigger] word.push(c)[i]);
                    if i < word.len() {
                        assert(word.push(c)[i] == word[i]);
                    }
                }
            }
            lemma_substitute_plain(rest, out, word.push(c), reps, j);
            assert(out + word.push(c) + rest == out + word + s);
        } else {
            let f = flush_hebrew(out, word, reps, j);
            assert(f.0 == out + word);
            lemma_substitute_plain(rest, f.0.push(c), Seq::empty(), reps, f.1);
            assert(f.0.push(c) + Seq::<char>::empty() + rest == out + word + s);
        }
    }
}

/// Text without niqqud has no vocalized word and passes through the
/// substitution unchanged, whatever the replacements.
pub proof fn law_unvocalized_text_unchanged(text: Seq<char>, reps: Seq<Seq<char>>)
    requires
        !contains_nikud_spec(text),
    ensures
        nikud_words(text) == Seq::<Seq<char>>::empty(),
        substitute_nikud_words_spec(text, reps) == text,
{
    lemma_substitute_plain(text, Seq::empty(), Seq::empty(), reps, 0);
    assert(Seq::<char>::empty() + Seq::<char>::empty() + text == text);
}

} // verus!
