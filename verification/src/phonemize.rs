//! Languages of the BlueTTS model and the routing of mixed Hebrew/Latin text
//! between the grapheme-to-phoneme engines.
use vstd::prelude::*;
use crate::text_util::{append_chars, chars_of, join, normalize_spaces, seqs_of, split_whitespace_chars, string_of, trim};
use crate::text_util::join_chars;
use crate::handling::{
    contains_nikud_chars, contains_nikud_spec, is_hebrew_word_character, is_hebrew_word_character_spec,
    law_strip_nikud, strip_nikud_chars, strip_nikud_spec,
};
use crate::server::{contains_hebrew_block, contains_hebrew_block_chars};
use crate::patterns::{regex_capture_groups, regex_compiles, regex_split_pieces, CompiledPattern};
use crate::speech::group_text;

verus! {

/// Languages supported by the BlueTTS model.
///
/// Codes:
/// - `he` Hebrew, via a plain-Hebrew engine when Hebrew characters are present.
/// - `en` English, via eSpeak voice `en-us`.
/// - `es` Spanish, via eSpeak voice `es`.
/// - `de` German, via eSpeak voice `de`.
/// - `it` Italian, via eSpeak voice `it`.
#[derive(Clone, Copy, Debug, PartialEq, Eq, Structural)]
pub enum Language {
    Hebrew,
    English,
    Spanish,
    German,
    Italian,
}

/// The two-letter code of a language.
pub open spec fn language_code(language: Language) -> Seq<char> {
    match language {
        Language::Hebrew => "he"@,
        Language::English => "en"@,
        Language::Spanish => "es"@,
        Language::German => "de"@,
        Language::Italian => "it"@,
    }
}

/// The eSpeak voice of a language; Hebrew has none.
pub open spec fn espeak_voice_spec(language: Language) -> Option<Seq<char>> {
    match language {
        Language::Hebrew => None,
        Language::English => Some("en-us"@),
        Language::Spanish => Some("es"@),
        Language::German => Some("de"@),
        Language::Italian => Some("it"@),
    }
}

/// The language a code names: `he`, `en` or `en-us`, `es`, `de` or `ge`,
/// `it`.
pub open spec fn language_from_code(code: Seq<char>) -> Option<Language> {
    if code == "he"@ {
        Some(Language::Hebrew)
    } else if code == "en"@ || code == "en-us"@ {
        Some(Language::English)
    } else if code == "es"@ {
        Some(Language::Spanish)
    } else if code == "de"@ || code == "ge"@ {
        Some(Language::German)
    } else if code == "it"@ {
        Some(Language::Italian)
    } else {
        None
    }
}

/// A language code that names no supported language.
#[derive(Clone, Debug, PartialEq, Eq)]
pub struct UnsupportedLanguage {
    pub code: String,
}

impl Language {
    /// The two-letter code.
    pub fn code(self) -> (r: &'static str)
        ensures
            r@ == language_code(self),
    {
        match self {
            Language::Hebrew => "he",
            Language::English => "en",
            Language::Spanish => "es",
            Language::German => "de",
            Language::Italian => "it",
        }
    }

    /// The eSpeak voice, if the language uses eSpeak.
    pub fn espeak_voice(self) -> (r: Option<&'static str>)
        ensures
            match r {
                Some(v) => espeak_voice_spec(self) == Some(v@),
                None => espeak_voice_spec(self) is None,
            },
    {
        match self {
            Language::Hebrew => None,
            Language::English => Some("en-us"),
            Language::Spanish => Some("es"),
            Language::German => Some("de"),
            Language::Italian => Some("it"),
        }
    }

    /// The language of a code; codes other than `he`, `en`, `en-us`, `es`,
    /// `de`, `ge` and `it` are refused.
    pub fn from_code(value: &str) -> (r: Result<Language, UnsupportedLanguage>)
        ensures
            match r {
                Ok(l) => language_from_code(value@) == Some(l),
                Err(e) => language_from_code(value@) is None && e.code@ == value@,
            },
    {
        let v = chars_of(value);
        if chars_equal(&v, "he") {
            Ok(Language::Hebrew)
        } else if chars_equal(&v, "en") || chars_equal(&v, "en-us") {
            Ok(Language::English)
        } else if chars_equal(&v, "es") {
            Ok(Language::Spanish)
        } else if chars_equal(&v, "de") || chars_equal(&v, "ge") {
            Ok(Language::German)
        } else if chars_equal(&v, "it") {
            Ok(Language::Italian)
        } else {
            Err(UnsupportedLanguage { code: value.to_owned() })
        }
    }
}

/// Whether the characters of `v` are those of `lit`.
pub fn chars_equal(v: &Vec<char>, lit: &str) -> (b: bool)
    ensures
        b == (v@ == lit@),
{
    let l = chars_of(lit);
    if v.len() != l.len() {
        return false;
    }
    let mut i: usize = 0;
    while i < v.len()
        invariant
            i <= v@.len() == l@.len(),
            l@ == lit@,
            forall|k: int| 0 <= k < i ==> v@[k] == l@[k],
        decreases v.len() - i,
    {
        if v[i] != l[i] {
            return false;
        }
        i += 1;
    }
    assert(v@ =~= l@);
    true
}


/// Latin words, possibly joined by apostrophes or hyphens.
pub const LATIN_PATTERN: &'static str = r"[A-Za-z]+(?:['-][A-Za-z]+)*";

/// One piece of grapheme-to-phoneme work.
#[derive(Clone, Debug, PartialEq, Eq)]
pub enum G2pTask {
    /// Text that stays as it is.
    Keep(String),
    /// Text for eSpeak in this language.
    Espeak(String, Language),
    /// Plain Hebrew for the plain-Hebrew engine.
    PlainHebrew(String),
    /// A vocalized Hebrew word for the niqqud path.
    VocalizedWord(String),
}

/// The characters of a [`G2pTask`].
pub enum G2pTaskView {
    Keep(Seq<char>),
    Espeak(Seq<char>, Language),
    PlainHebrew(Seq<char>),
    VocalizedWord(Seq<char>),
}

impl View for G2pTask {
    type V = G2pTaskView;

    open spec fn view(&self) -> G2pTaskView {
        match self {
            G2pTask::Keep(t) => G2pTaskView::Keep(t@),
            G2pTask::Espeak(t, l) => G2pTaskView::Espeak(t@, *l),
            G2pTask::PlainHebrew(t) => G2pTaskView::PlainHebrew(t@),
            G2pTask::VocalizedWord(t) => G2pTaskView::VocalizedWord(t@),
        }
    }
}

/// The views of a sequence of tasks.
pub open spec fn tasks_view(ts: Seq<G2pTask>) -> Seq<G2pTaskView> {
    ts.map_values(|t: G2pTask| t@)
}

/// The work for one Hebrew word of vocalized text: the niqqud path for a
/// vocalized word, the plain-Hebrew engine for other Hebrew, else nothing.
pub open spec fn word_task(w: Seq<char>) -> G2pTaskView {
    if contains_nikud_spec(w) {
        G2pTaskView::VocalizedWord(w)
    } else if contains_hebrew_block(w) {
        G2pTaskView::PlainHebrew(w)
    } else {
        G2pTaskView::Keep(w)
    }
}

/// `acc` with the task of a pending non-empty word.
pub open spec fn flush_task(acc: Seq<G2pTaskView>, word: Seq<char>) -> Seq<G2pTaskView> {
    if word.len() > 0 {
        acc.push(word_task(word))
    } else {
        acc
    }
}

/// The word-by-word work of vocalized Hebrew text `s`, continuing from
/// `acc` and the pending word: characters outside words stay as they are.
pub open spec fn word_tasks_from(s: Seq<char>, acc: Seq<G2pTaskView>, word: Seq<char>) -> Seq<
    G2pTaskView,
>
    decreases s.len(),
{
    if s.len() == 0 {
        flush_task(acc, word)
    } else if is_hebrew_word_character_spec(s[0]) {
        word_tasks_from(s.drop_first(), acc, word.push(s[0]))
    } else {
        word_tasks_from(s.drop_first(), flush_task(acc, word).push(G2pTaskView::Keep(seq![s[0]])), Seq::empty())
    }
}

/// The work for text between Latin words: text without Hebrew stays as it
/// is; vocalized Hebrew goes word by word when a niqqud engine is present;
/// otherwise the plain-Hebrew engine gets the text with niqqud stripped.
pub open spec fn non_latin_tasks(t: Seq<char>, has_nikud_engine: bool) -> Seq<G2pTaskView> {
    if !contains_hebrew_block(t) {
        seq![G2pTaskView::Keep(t)]
    } else if contains_nikud_spec(t) && has_nikud_engine {
        word_tasks_from(t, Seq::empty(), Seq::empty())
    } else {
        seq![G2pTaskView::PlainHebrew(strip_nikud_spec(t))]
    }
}

/// The language eSpeak uses for Latin words in text of `language`:
/// English for Hebrew text.
pub open spec fn latin_language(language: Language) -> Language {
    if language == Language::Hebrew {
        Language::English
    } else {
        language
    }
}

/// The work for the first `n` pieces between Latin words and the Latin
/// words between them.
pub open spec fn mixed_tasks(
    pieces: Seq<Seq<char>>,
    matches: Seq<Seq<Option<Seq<char>>>>,
    n: int,
    language: Language,
    has_nikud_engine: bool,
) -> Seq<G2pTaskView>
    decreases n,
{
    if n <= 0 {
        Seq::empty()
    } else {
        let before = mixed_tasks(pieces, matches, n - 1, language, has_nikud_engine);
        let latin = if n >= 2 && n - 2 < matches.len() {
            seq![G2pTaskView::Espeak(group_text(matches[n - 2], 0), latin_language(language))]
        } else {
            Seq::empty()
        };
        let piece = pieces[n - 1];
        before + latin + if piece.len() > 0 {
            non_latin_tasks(piece, has_nikud_engine)
        } else {
            Seq::empty()
        }
    }
}

/// How a text is phonemized: the tasks in order, and whether the joined
/// results are space-normalized.
pub struct PhonemePlan {
    pub tasks: Vec<G2pTask>,
    pub normalize: bool,
}

/// The plan for `text` in `language`: text of another language without
/// Hebrew goes to eSpeak whole; otherwise Latin words (found with
/// `pattern`) go to eSpeak and the text between them is routed by
/// `non_latin_tasks`, and the results are space-normalized.
pub open spec fn plan_spec(
    pattern: Seq<char>,
    text: Seq<char>,
    language: Language,
    has_nikud_engine: bool,
) -> (Seq<G2pTaskView>, bool) {
    if language != Language::Hebrew && !contains_hebrew_block(text) {
        (seq![G2pTaskView::Espeak(text, language)], false)
    } else {
        let pieces = regex_split_pieces(pattern, text);
        (
            mixed_tasks(
                pieces,
                regex_capture_groups(pattern, text),
                pieces.len() as int,
                language,
                has_nikud_engine,
            ),
            true,
        )
    }
}

fn push_task(tasks: &mut Vec<G2pTask>, t: G2pTask)
    ensures
        tasks_view(final(tasks)@) == tasks_view(old(tasks)@).push(t@),
{
    tasks.push(t);
    assert(tasks_view(tasks@) == tasks_view(old(tasks)@).push(t@));
}

fn push_word_task(tasks: &mut Vec<G2pTask>, word: &Vec<char>)
    requires
        word@.len() > 0,
    ensures
        tasks_view(final(tasks)@) == tasks_view(old(tasks)@).push(word_task(word@)),
{
    let w = string_of(word.as_slice());
    if contains_nikud_chars(word.as_slice()) {
        push_task(tasks, G2pTask::VocalizedWord(w));
    } else if contains_hebrew_block_chars(word.as_slice()) {
        push_task(tasks, G2pTask::PlainHebrew(w));
    } else {
        push_task(tasks, G2pTask::Keep(w));
    }
}

/// Appends the work for text between Latin words.
fn push_non_latin_tasks(tasks: &mut Vec<G2pTask>, t: &[char], has_nikud_engine: bool)
    ensures
        tasks_view(final(tasks)@) == tasks_view(old(tasks)@) + non_latin_tasks(t@, has_nikud_engine),
{
    if !contains_hebrew_block_chars(t) {
        push_task(tasks, G2pTask::Keep(string_of(t)));
        return;
    }
    if !(contains_nikud_chars(t) && has_nikud_engine) {
        let plain = strip_nikud_chars(t);
        push_task(tasks, G2pTask::PlainHebrew(string_of(plain.as_slice())));
        return;
    }
    let ghost base = tasks_view(tasks@);
    let mut word: Vec<char> = Vec::new();
    let mut i: usize = 0;
    assert(t@.skip(0) == t@);
    assert(word@ == Seq::<char>::empty());
    proof {
        lemma_word_tasks_base(t@, base);
    }
    while i < t.len()
        invariant
            i <= t@.len(),
            word_tasks_from(t@.skip(i as int), tasks_view(tasks@), word@) == base + word_tasks_from(
                t@,
                Seq::empty(),
                Seq::empty(),
            ),
        decreases t.len() - i,
    {
        let c = t[i];
        assert(t@.skip(i as int).drop_first() == t@.skip(i + 1));
        assert(t@.skip(i as int)[0] == c);
        if is_hebrew_word_character(c) {
            word.push(c);
        } else {
            if word.len() > 0 {
                push_word_task(tasks, &word);
            }
            let mut one: Vec<char> = Vec::new();
            one.push(c);
            push_task(tasks, G2pTask::Keep(string_of(one.as_slice())));
            word = Vec::new();
            assert(word@ == Seq::<char>::empty());
        }
        i += 1;
    }
    if word.len() > 0 {
        push_word_task(tasks, &word);
    }
}

/// Scanning from accumulated tasks only appends to them.
proof fn lemma_word_tasks_from_append(s: Seq<char>, acc: Seq<G2pTaskView>, word: Seq<char>)
    ensures
        word_tasks_from(s, acc, word) == acc + word_tasks_from(s, Seq::empty(), word),
    decreases s.len(),
{
    if s.len() == 0 {
        assert(flush_task(acc, word) == acc + flush_task(Seq::empty(), word));
    } else if is_hebrew_word_character_spec(s[0]) {
        lemma_word_tasks_from_append(s.drop_first(), acc, word.push(s[0]));
    } else {
        let k = G2pTaskView::Keep(seq![s[0]]);
        lemma_word_tasks_from_append(s.drop_first(), flush_task(acc, word).push(k), Seq::empty());
        lemma_word_tasks_from_append(
            s.drop_first(),
            flush_task(Seq::empty(), word).push(k),
            Seq::empty(),
        );
        assert(flush_task(acc, word).push(k) == acc + flush_task(Seq::empty(), word).push(k));
    }
}

proof fn lemma_word_tasks_base(t: Seq<char>, base: Seq<G2pTaskView>)
    ensures
        word_tasks_from(t, base, Seq::empty()) == base + word_tasks_from(t, Seq::empty(), Seq::empty()),
{
    lemma_word_tasks_from_append(t, base, Seq::empty());
}

/// Plans the phonemization of `text` in `language` with the Latin-word
/// pattern `latin`.
pub fn plan_phonemes(latin: &CompiledPattern, text: &str, language: Language, has_nikud_engine: bool) -> (r: PhonemePlan)
    ensures
        (tasks_view(r.tasks@), r.normalize) == plan_spec(
            latin.source_spec(),
            text@,
            language,
            has_nikud_engine,
        ),
{
    let v = chars_of(text);
    let mut tasks: Vec<G2pTask> = Vec::new();
    if language != Language::Hebrew && !contains_hebrew_block_chars(v.as_slice()) {
        push_task(&mut tasks, G2pTask::Espeak(text.to_owned(), language));
        assert(tasks_view(tasks@) == seq![G2pTaskView::Espeak(text@, language)]);
        return PhonemePlan { tasks, normalize: false };
    }
    let pieces = latin.split_pieces(text);
    let matches = latin.capture_groups(text);
    let ghost ps = pieces@.map_values(|s: String| s@);
    let ghost ms = crate::patterns::matches_view(matches@);
    let lat = if language == Language::Hebrew {
        Language::English
    } else {
        language
    };
    assert(tasks_view(tasks@) == mixed_tasks(ps, ms, 0, language, has_nikud_engine));
    let mut i: usize = 0;
    while i < pieces.len()
        invariant
            i <= pieces@.len(),
            ps == pieces@.map_values(|s: String| s@),
            ms == crate::patterns::matches_view(matches@),
            lat == latin_language(language),
            tasks_view(tasks@) == mixed_tasks(ps, ms, i as int, language, has_nikud_engine),
        decreases pieces.len() - i,
    {
        if i >= 1 && i - 1 < matches.len() {
            let g = if matches[i - 1].len() > 0 {
                match &matches[i - 1][0] {
                    Some(m) => m.clone(),
                    None => String::new(),
                }
            } else {
                String::new()
            };
            assert(g@ == group_text(ms[i - 1], 0));
            push_task(&mut tasks, G2pTask::Espeak(g, lat));
        }
        let piece = chars_of(pieces[i].as_str());
        if piece.len() > 0 {
            push_non_latin_tasks(&mut tasks, piece.as_slice(), has_nikud_engine);
        }
        i += 1;
    }
    PhonemePlan { tasks, normalize: true }
}

/// The phonemes of a plan from the results of its tasks: joined, and with
/// white space normalized when the plan says so.
pub open spec fn finish_phonemes_spec(parts: Seq<Seq<char>>, normalize: bool) -> Seq<char> {
    if normalize {
        normalize_spaces(parts.flatten())
    } else {
        parts.flatten()
    }
}

/// Joins the results of a plan's tasks.
pub fn finish_phonemes(parts: &Vec<String>, normalize: bool) -> (out: String)
    ensures
        out@ == finish_phonemes_spec(parts@.map_values(|s: String| s@), normalize),
{
    let ghost ps = parts@.map_values(|s: String| s@);
    let mut all: Vec<char> = Vec::new();
    let mut i: usize = 0;
    while i < parts.len()
        invariant
            i <= parts@.len(),
            ps == parts@.map_values(|s: String| s@),
            all@ == ps.take(i as int).flatten_alt(),
        decreases parts.len() - i,
    {
        let p = chars_of(parts[i].as_str());
        append_chars(&mut all, p.as_slice());
        assert(ps.take(i + 1).drop_last() == ps.take(i as int));
        i += 1;
    }
    assert(ps.take(parts.len() as int) == ps);
    proof {
        ps.lemma_flatten_and_flatten_alt_are_equivalent();
    }
    if normalize {
        let words = split_whitespace_chars(all.as_slice());
        assert(seq![' '] =~= [' ']@);
        let out = join_chars(&words, &[' ']);
        string_of(out.as_slice())
    } else {
        string_of(all.as_slice())
    }
}

/// Compiles the Latin-word pattern.
pub fn latin_pattern() -> (r: Option<CompiledPattern>)
    ensures
        r is Some <==> regex_compiles(LATIN_PATTERN@),
        r matches Some(p) ==> p.source_spec() == LATIN_PATTERN@,
{
    CompiledPattern::compile(LATIN_PATTERN)
}


/// A language's code names that language again.
pub proof fn law_language_code_round_trip(language: Language)
    ensures
        language_from_code(language_code(language)) == Some(language),
{
    reveal_strlit("he");
    reveal_strlit("en");
    reveal_strlit("en-us");
    reveal_strlit("es");
    reveal_strlit("de");
    reveal_strlit("ge");
    reveal_strlit("it");
    assert("he"@[0] == 'h' && "en"@[0] == 'e' && "es"@[0] == 'e' && "de"@[0] == 'd');
    assert("it"@[0] == 'i' && "ge"@[0] == 'g' && "en"@[1] == 'n' && "es"@[1] == 's');
    assert("en-us"@.len() == 5 && "he"@.len() == 2 && "en"@.len() == 2 && "es"@.len() == 2);
    assert("de"@.len() == 2 && "it"@.len() == 2 && "ge"@.len() == 2);
    assert("he"@ != "en"@ && "he"@ != "es"@ && "he"@ != "de"@ && "he"@ != "it"@);
    assert("en"@ != "es"@ && "en"@ != "de"@ && "en"@ != "it"@ && "en"@ != "en-us"@);
    assert("es"@ != "de"@ && "es"@ != "it"@ && "es"@ != "en-us"@ && "es"@ != "ge"@);
    assert("de"@ != "it"@ && "de"@ != "en-us"@ && "it"@ != "en-us"@ && "it"@ != "ge"@);
    assert("he"@ != "en-us"@ && "he"@ != "ge"@ && "en"@ != "ge"@ && "de"@ != "ge"@);
}


/// Whether a task respects the niqqud routing: plain-Hebrew work never
/// carries niqqud, and a vocalized word (which always carries niqqud) is
/// only planned when a niqqud engine is present.
pub open spec fn routes_niqqud(task: G2pTaskView, has_nikud_engine: bool) -> bool {
    match task {
        G2pTaskView::PlainHebrew(t) => !contains_nikud_spec(t),
        G2pTaskView::VocalizedWord(w) => has_nikud_engine && contains_nikud_spec(w),
        _ => true,
    }
}

/// Whether every task respects the niqqud routing.
pub open spec fn all_route_niqqud(tasks: Seq<G2pTaskView>, has_nikud_engine: bool) -> bool {
    forall|i: int| 0 <= i < tasks.len() ==> routes_niqqud(#[trigger] tasks[i], has_nikud_engine)
}

proof fn lemma_word_tasks_route(s: Seq<char>, acc: Seq<G2pTaskView>, word: Seq<char>)
    requires
        all_route_niqqud(acc, true),
    ensures
        all_route_niqqud(word_tasks_from(s, acc, word), true),
    decreases s.len(),
{
    let f = flush_task(acc, word);
    assert(all_route_niqqud(f, true)) by {
        if word.len() > 0 {
            assert(f == acc.push(word_task(word)));
            assert forall|i: int| 0 <= i < f.len() implies routes_niqqud(#[trigger] f[i], true) by {
                if i < acc.len() {
                    assert(f[i] == acc[i]);
                }
            }
        }
    }
    if s.len() == 0 {
    } else if is_hebrew_word_character_spec(s[0]) {
        lemma_word_tasks_route(s.drop_first(), acc, word.push(s[0]));
    } else {
        let g = f.push(G2pTaskView::Keep(seq![s[0]]));
        assert forall|i: int| 0 <= i < g.len() implies routes_niqqud(#[trigger] g[i], true) by {
            if i < f.len() {
                assert(g[i] == f[i]);
            }
        }
        lemma_word_tasks_route(s.drop_first(), g, Seq::empty());
    }
}

proof fn lemma_concat_routes(a: Seq<G2pTaskView>, b: Seq<G2pTaskView>, has_nikud_engine: bool)
    requires
        all_route_niqqud(a, has_nikud_engine),
        all_route_niqqud(b, has_nikud_engine),
    ensures
        all_route_niqqud(a + b, has_nikud_engine),
{
    assert forall|i: int| 0 <= i < (a + b).len() implies routes_niqqud(
        #[trigger] (a + b)[i],
        has_nikud_engine,
    ) by {
        if i < a.len() {
            assert((a + b)[i] == a[i]);
        } else {
            assert((a + b)[i] == b[i - a.len()]);
        }
    }
}

proof fn lemma_non_latin_routes(t: Seq<char>, has_nikud_engine: bool)
    ensures
        all_route_niqqud(non_latin_tasks(t, has_nikud_engine), has_nikud_engine),
{
    let ts = non_latin_tasks(t, has_nikud_engine);
    if !contains_hebrew_block(t) {
        assert(routes_niqqud(ts[0], has_nikud_engine));
    } else if contains_nikud_spec(t) && has_nikud_engine {
        lemma_word_tasks_route(t, Seq::empty(), Seq::empty());
    } else {
        law_strip_nikud(t);
        assert(routes_niqqud(ts[0], has_nikud_engine));
    }
}

proof fn lemma_mixed_routes(
    pieces: Seq<Seq<char>>,
    matches: Seq<Seq<Option<Seq<char>>>>,
    n: int,
    language: Language,
    has_nikud_engine: bool,
)
    ensures
        all_route_niqqud(mixed_tasks(pieces, matches, n, language, has_nikud_engine), has_nikud_engine),
    decreases n,
{
    if n > 0 {
        lemma_mixed_routes(pieces, matches, n - 1, language, has_nikud_engine);
        let before = mixed_tasks(pieces, matches, n - 1, language, has_nikud_engine);
        let latin = if n >= 2 && n - 2 < matches.len() {
            seq![G2pTaskView::Espeak(group_text(matches[n - 2], 0), latin_language(language))]
        } else {
            Seq::empty()
        };
        let piece = pieces[n - 1];
        let rest = if piece.len() > 0 {
            non_latin_tasks(piece, has_nikud_engine)
        } else {
            Seq::empty()
        };
        assert(all_route_niqqud(latin, has_nikud_engine));
        if piece.len() > 0 {
            lemma_non_latin_routes(piece, has_nikud_engine);
        }
        lemma_concat_routes(before, latin, has_nikud_engine);
        lemma_concat_routes(before + latin, rest, has_nikud_engine);
    }
}

/// Niqqud routing: in every plan, text for the plain-Hebrew engine carries
/// no niqqud, and the niqqud path gets only niqqud-bearing words, and only
/// when a niqqud engine is present.
pub proof fn law_plan_routes_niqqud(
    pattern: Seq<char>,
    text: Seq<char>,
    language: Language,
    has_nikud_engine: bool,
)
    ensures
        all_route_niqqud(plan_spec(pattern, text, language, has_nikud_engine).0, has_nikud_engine),
{
    if language != Language::Hebrew && !contains_hebrew_block(text) {
        let ts = plan_spec(pattern, text, language, has_nikud_engine).0;
        assert(routes_niqqud(ts[0], has_nikud_engine));
    } else {
        let pieces = regex_split_pieces(pattern, text);
        lemma_mixed_routes(
            pieces,
            regex_capture_groups(pattern, text),
            pieces.len() as int,
            language,
            has_nikud_engine,
        );
    }
}


/// Each language that eSpeak speaks is spoken with its own voice: only
/// Hebrew has no eSpeak voice, the voice of every other language begins
/// with that language's code, and read as a code it names the language
/// again.
pub proof fn law_espeak_voice_matches_language(language: Language)
    ensures
        espeak_voice_spec(language) is None <==> language == Language::Hebrew,
        espeak_voice_spec(language) matches Some(v) ==> v.len() >= 2 && v.take(2) == language_code(
            language,
        ),
        espeak_voice_spec(language) matches Some(v) ==> language_from_code(v) == Some(language),
{
    reveal_strlit("he");
    reveal_strlit("en");
    reveal_strlit("en-us");
    reveal_strlit("es");
    reveal_strlit("de");
    reveal_strlit("ge");
    reveal_strlit("it");
    assert("en-us"@.take(2) =~= "en"@);
    assert("es"@.take(2) =~= "es"@);
    assert("de"@.take(2) =~= "de"@);
    assert("it"@.take(2) =~= "it"@);
    law_language_code_round_trip(language);
}

} // verus!
