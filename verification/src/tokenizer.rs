//! Phoneme text preparation and encoding into model token ids.
use vstd::prelude::*;
use std::collections::HashMap;
use unicode_normalization::UnicodeNormalization;
use crate::text_util::{
    append_chars, chars_of, join_chars, normalize_spaces, split_whitespace_chars, string_of,
};
use crate::server::{replace_chars, replace_literal};
use crate::speech::{apply_pattern, pattern_pass, Rewrite};
use crate::patterns::{regex_compiles, CompiledPattern};
use crate::json::{entries_view as json_entries_view, json_value, json_view, parse_json, JsonValue, JsonView};

verus! {

broadcast use vstd::std_specs::hash::group_hash_axioms;

/// The NFKD form of `text` (compatibility decomposition), as
/// `unicode_normalization` computes it.
pub uninterp spec fn nfkd_chars(text: Seq<char>) -> Seq<char>;

/// The compatibility decomposition (NFKD) of `text`, via
/// `UnicodeNormalization::nfkd`.
#[verifier::external_body]
fn nfkd(text: &str) -> (r: String)
    ensures
        r@ == nfkd_chars(text@),
{
    text.nfkd().collect()
}

/// Hebrew points and cantillation that phoneme input drops (not the maqaf,
/// paseq, sof pasuq or nun hafukha).
pub open spec fn is_hebrew_nikud_spec(c: char) -> bool {
    let u = c as u32;
    (0x0591 <= u <= 0x05bd) || u == 0x05bf || (0x05c1 <= u <= 0x05c2) || (0x05c4 <= u <= 0x05c5)
        || u == 0x05c7
}

/// Emoji and pictographs that phoneme input drops.
pub open spec fn is_emoji_spec(c: char) -> bool {
    let u = c as u32;
    (0x1f600 <= u <= 0x1f64f) || (0x1f300 <= u <= 0x1f5ff) || (0x1f680 <= u <= 0x1faff) || (0x2600
        <= u <= 0x26ff) || (0x2700 <= u <= 0x27bf) || (0x1f1e6 <= u <= 0x1f1ff)
}

/// Whether `c` is dropped Hebrew niqqud.
pub fn is_hebrew_nikud(c: char) -> (b: bool)
    ensures
        b == is_hebrew_nikud_spec(c),
{
    let u: u32 = c as u32;
    (0x0591 <= u && u <= 0x05bd) || u == 0x05bf || (0x05c1 <= u && u <= 0x05c2) || (0x05c4 <= u
        && u <= 0x05c5) || u == 0x05c7
}

/// Whether `c` is an emoji.
pub fn is_emoji(c: char) -> (b: bool)
    ensures
        b == is_emoji_spec(c),
{
    let u: u32 = c as u32;
    (0x1f600 <= u && u <= 0x1f64f) || (0x1f300 <= u && u <= 0x1f5ff) || (0x1f680 <= u && u
        <= 0x1faff) || (0x2600 <= u && u <= 0x26ff) || (0x2700 <= u && u <= 0x27bf) || (0x1f1e6
        <= u && u <= 0x1f1ff)
}

/// What a character of phoneme input becomes: dashes plain, `_` and
/// brackets, bars, slashes, `#` and arrows spaces, typographic quotes and
/// accents plain quotes, `@` the word `at`.
pub open spec fn phoneme_char(c: char) -> Seq<char> {
    if c == '–' || c == '‑' || c == '—' {
        seq!['-']
    } else if c == '_' || c == '[' || c == ']' || c == '|' || c == '/' || c == '#' || c == '→' || c
        == '←' {
        seq![' ']
    } else if c == '“' || c == '”' {
        seq!['"']
    } else if c == '‘' || c == '’' || c == '´' || c == '`' {
        seq!['\'']
    } else if c == '@' {
        " at "@
    } else {
        seq![c]
    }
}

/// `s` with each character mapped by `phoneme_char`, niqqud and emoji
/// dropped.
pub open spec fn phoneme_chars(s: Seq<char>) -> Seq<char>
    decreases s.len(),
{
    if s.len() == 0 {
        Seq::empty()
    } else {
        phoneme_chars(s.drop_last()) + if is_hebrew_nikud_spec(s.last()) || is_emoji_spec(
            s.last(),
        ) {
            Seq::empty()
        } else {
            phoneme_char(s.last())
        }
    }
}

fn phoneme_chars_exec(v: &[char]) -> (out: Vec<char>)
    ensures
        out@ == phoneme_chars(v@),
{
    let mut out: Vec<char> = Vec::new();
    let mut i: usize = 0;
    while i < v.len()
        invariant
            i <= v@.len(),
            out@ == phoneme_chars(v@.take(i as int)),
        decreases v.len() - i,
    {
        let c = v[i];
        assert(v@.take(i + 1).drop_last() == v@.take(i as int));
        assert(v@.take(i + 1).last() == c);
        if is_hebrew_nikud(c) || is_emoji(c) {
        } else if c == '–' || c == '‑' || c == '—' {
            out.push('-');
        } else if c == '_' || c == '[' || c == ']' || c == '|' || c == '/' || c == '#' || c == '→'
            || c == '←' {
            out.push(' ');
        } else if c == '“' || c == '”' {
            out.push('"');
        } else if c == '‘' || c == '’' || c == '´' || c == '`' {
            out.push('\'');
        } else if c == '@' {
            let at = chars_of(" at ");
            append_chars(&mut out, at.as_slice());
        } else {
            out.push(c);
        }
        i += 1;
    }
    assert(v@.take(v.len() as int) == v@);
    out
}

/// A Hebrew character, dashes, then a Latin letter or digit.
pub const HEBREW_DASH_LATIN_PATTERN: &'static str = r"(?u)([\u{0590}-\u{05ff}])[-–—‑]+([A-Za-z0-9])";

/// A Latin letter or digit, dashes, then a Hebrew character.
pub const LATIN_DASH_HEBREW_PATTERN: &'static str = r"(?u)([A-Za-z0-9])[-–—‑]+([\u{0590}-\u{05ff}])";

/// A language tag literal.
pub const TAG_PATTERN: &'static str = r"</?[^>]+>";

/// What `preprocess_phonemes` gives: NFKD, niqqud and emoji dropped,
/// punctuation made plain, `e.g.,` and `i.e.,` spelled out, dashes between
/// Hebrew and Latin made spaces, and white space normalized.
pub open spec fn preprocess_phonemes_spec(text: Seq<char>) -> Seq<char> {
    let t1 = phoneme_chars(nfkd_chars(text));
    let t2 = replace_literal(t1, "e.g.,"@, "for example, "@);
    let t3 = replace_literal(t2, "i.e.,"@, "that is, "@);
    let t4 = pattern_pass(Rewrite::SpacedGroups, HEBREW_DASH_LATIN_PATTERN@, t3);
    let t5 = pattern_pass(Rewrite::SpacedGroups, LATIN_DASH_HEBREW_PATTERN@, t4);
    normalize_spaces(t5)
}

/// Why encoding failed.
#[derive(Clone, Debug, PartialEq, Eq)]
pub enum TokenizeError {
    /// The vocabulary has no `char_to_id` table.
    MissingTable,
    /// Texts and languages differ in number.
    LengthMismatch,
    /// A language code other than `en`, `es`, `de`, `it` and `he`.
    InvalidLanguage(String),
    /// A text pattern did not compile.
    InvalidPattern,
    /// The vocabulary file is not JSON.
    InvalidJson,
}

/// Prepares phoneme text for the tokenizer; fails only when one of its
/// patterns does not compile.
pub fn preprocess_phonemes(text: &str) -> (r: Result<String, TokenizeError>)
    ensures
        r matches Ok(s) ==> regex_compiles(HEBREW_DASH_LATIN_PATTERN@) && regex_compiles(
            LATIN_DASH_HEBREW_PATTERN@,
        ) && s@ == preprocess_phonemes_spec(text@),
        r is Err ==> !(regex_compiles(HEBREW_DASH_LATIN_PATTERN@) && regex_compiles(
            LATIN_DASH_HEBREW_PATTERN@,
        )),
        r matches Err(e) ==> e is InvalidPattern,
{
    let first = match CompiledPattern::compile(HEBREW_DASH_LATIN_PATTERN) {
        Some(p) => p,
        None => return Err(TokenizeError::InvalidPattern),
    };
    let second = match CompiledPattern::compile(LATIN_DASH_HEBREW_PATTERN) {
        Some(p) => p,
        None => return Err(TokenizeError::InvalidPattern),
    };
    let n = nfkd(text);
    let nv = chars_of(n.as_str());
    let t1 = phoneme_chars_exec(nv.as_slice());
    let eg = chars_of("e.g.,");
    let eg_to = chars_of("for example, ");
    let t2 = replace_chars(t1.as_slice(), eg.as_slice(), eg_to.as_slice());
    let ie = chars_of("i.e.,");
    let ie_to = chars_of("that is, ");
    let t3 = replace_chars(t2.as_slice(), ie.as_slice(), ie_to.as_slice());
    let t4 = apply_pattern(&first, Rewrite::SpacedGroups, t3.as_slice());
    let t5 = apply_pattern(&second, Rewrite::SpacedGroups, t4.as_slice());
    let words = split_whitespace_chars(t5.as_slice());
    assert(seq![' '] =~= [' ']@);
    let out = join_chars(&words, &[' ']);
    Ok(string_of(out.as_slice()))
}

/// Characters that may end model input without an added full stop.
pub open spec fn is_terminal_spec(c: char) -> bool {
    c == '.' || c == '!' || c == '?' || c == ';' || c == ':' || c == ',' || c == '\'' || c == '"'
        || c == ')' || c == ']' || c == '}'
}

/// The language codes the model accepts.
pub open spec fn is_model_language(lang: Seq<char>) -> bool {
    lang == "en"@ || lang == "es"@ || lang == "de"@ || lang == "it"@ || lang == "he"@
}

/// The table of a vocabulary built from its entries: the first character of
/// each key maps to its id (`pad_id` when the id is missing), later entries
/// winning; empty keys are skipped.
pub open spec fn vocab_table(entries: Seq<(Seq<char>, Option<i64>)>, pad_id: i64) -> Map<u32, i64>
    decreases entries.len(),
{
    if entries.len() == 0 {
        Map::empty()
    } else {
        let m = vocab_table(entries.drop_last(), pad_id);
        let (k, v) = entries.last();
        if k.len() > 0 {
            m.insert(k[0] as u32, match v {
                Some(id) => id,
                None => pad_id,
            })
        } else {
            m
        }
    }
}

/// The characters of vocabulary entries.
pub open spec fn entries_view(entries: Seq<(String, Option<i64>)>) -> Seq<(Seq<char>, Option<i64>)> {
    entries.map_values(|e: (String, Option<i64>)| (e.0@, e.1))
}

/// The value of the first entry under `key`, if any.
pub open spec fn json_lookup(entries: Seq<(Seq<char>, JsonView)>, key: Seq<char>) -> Option<JsonView>
    decreases entries.len(),
{
    if entries.len() == 0 {
        None
    } else if entries[0].0 == key {
        Some(entries[0].1)
    } else {
        json_lookup(entries.drop_first(), key)
    }
}

/// `v[key]` as `serde_json` indexes: the entry's value in an object, else
/// `null`.
pub open spec fn json_field(v: JsonView, key: Seq<char>) -> JsonView {
    match v {
        JsonView::Object(es) => match json_lookup(es, key) {
            Some(x) => x,
            None => JsonView::Null,
        },
        _ => JsonView::Null,
    }
}

/// A value as an `i64`, when it is such a number.
pub open spec fn json_as_i64(v: JsonView) -> Option<i64> {
    match v {
        JsonView::Number(n) => n,
        _ => None,
    }
}

/// The fields a vocabulary is built from: `pad_id` as an integer, and the
/// entries of the `char_to_id` object, each value as an integer, when it is
/// an object.
pub open spec fn vocab_fields_spec(v: JsonView) -> (Option<i64>, Option<Seq<(Seq<char>, Option<i64>)>>) {
    (
        json_as_i64(json_field(v, "pad_id"@)),
        match json_field(v, "char_to_id"@) {
            JsonView::Object(es) => Some(
                es.map_values(|e: (Seq<char>, JsonView)| (e.0, json_as_i64(e.1))),
            ),
            _ => None,
        },
    )
}

/// The characters of vocabulary fields.
pub open spec fn vocab_fields_view(f: (Option<i64>, Option<Vec<(String, Option<i64>)>>)) -> (
    Option<i64>,
    Option<Seq<(Seq<char>, Option<i64>)>>,
) {
    (
        f.0,
        match f.1 {
            Some(es) => Some(entries_view(es@)),
            None => None,
        },
    )
}

proof fn lemma_json_entries_view(entries: Seq<(String, JsonValue)>, n: nat)
    requires
        n <= entries.len(),
    ensures
        json_entries_view(entries, n).len() == n,
        forall|i: int|
            0 <= i < n ==> #[trigger] json_entries_view(entries, n)[i] == (
                entries[i].0@,
                json_view(entries[i].1),
            ),
    decreases n,
{
    if n > 0 {
        lemma_json_entries_view(entries, (n - 1) as nat);
    }
}

fn json_i64(v: &JsonValue) -> (r: Option<i64>)
    ensures
        r == json_as_i64(json_view(*v)),
{
    match v {
        JsonValue::Number(n) => *n,
        _ => None,
    }
}

/// `v[key]` of an object's entries, `None` standing for `null`.
fn json_get<'a>(entries: &'a Vec<(String, JsonValue)>, key: &str) -> (r: Option<&'a JsonValue>)
    ensures
        json_field(JsonView::Object(json_entries_view(entries@, entries@.len())), key@) == match r {
            Some(x) => json_view(*x),
            None => JsonView::Null,
        },
{
    let ghost ev = json_entries_view(entries@, entries@.len());
    proof {
        lemma_json_entries_view(entries@, entries@.len());
    }
    let mut i: usize = 0;
    assert(ev.skip(0) == ev);
    while i < entries.len()
        invariant
            i <= entries@.len(),
            ev == json_entries_view(entries@, entries@.len()),
            ev.len() == entries@.len(),
            forall|k: int| 0 <= k < ev.len() ==> #[trigger] ev[k] == (entries@[k].0@, json_view(entries@[k].1)),
            json_lookup(ev, key@) == json_lookup(ev.skip(i as int), key@),
        decreases entries.len() - i,
    {
        let k = chars_of(entries[i].0.as_str());
        assert(ev.skip(i as int)[0] == ev[i as int]);
        assert(ev.skip(i as int).drop_first() == ev.skip(i + 1));
        if crate::phonemize::chars_equal(&k, key) {
            return Some(&entries[i].1);
        }
        i += 1;
    }
    None
}

/// Picks the fields a vocabulary is built from out of its JSON.
pub fn vocab_fields(v: &JsonValue) -> (r: (Option<i64>, Option<Vec<(String, Option<i64>)>>))
    ensures
        vocab_fields_view(r) == vocab_fields_spec(json_view(*v)),
{
    proof {
        reveal_strlit("pad_id");
        reveal_strlit("char_to_id");
    }
    match v {
        JsonValue::Object(entries) => {
            let pad = match json_get(entries, "pad_id") {
                Some(x) => json_i64(x),
                None => None,
            };
            let table = match json_get(entries, "char_to_id") {
                Some(JsonValue::Object(es)) => {
                    let ghost ev = json_entries_view(es@, es@.len());
                    proof {
                        lemma_json_entries_view(es@, es@.len());
                    }
                    let ghost want = ev.map_values(|e: (Seq<char>, JsonView)| (e.0, json_as_i64(e.1)));
                    let mut out: Vec<(String, Option<i64>)> = Vec::new();
                    let mut i: usize = 0;
                    while i < es.len()
                        invariant
                            i <= es@.len(),
                            ev == json_entries_view(es@, es@.len()),
                            ev.len() == es@.len(),
                            forall|k: int| 0 <= k < ev.len() ==> #[trigger] ev[k] == (es@[k].0@, json_view(es@[k].1)),
                            want == ev.map_values(|e: (Seq<char>, JsonView)| (e.0, json_as_i64(e.1))),
                            entries_view(out@) == want.take(i as int),
                        decreases es.len() - i,
                    {
                        let ghost old_out = out@;
                        let kc = chars_of(es[i].0.as_str());
                        let key = string_of(kc.as_slice());
                        let value = json_i64(&es[i].1);
                        out.push((key, value));
                        assert(want[i as int] == (es@[i as int].0@, json_as_i64(json_view(es@[i as int].1))));
                        assert(entries_view(out@) == entries_view(old_out).push((key@, value)));
                        assert(want.take(i + 1) == want.take(i as int).push(want[i as int]));
                        i += 1;
                    }
                    assert(want.take(es@.len() as int) == want);
                    Some(out)
                },
                _ => None,
            };
            (pad, table)
        },
        _ => (None, None),
    }
}

/// Maps phoneme characters to model token ids.
pub struct Tokenizer {
    pad_id: i64,
    char_to_id: HashMap<u32, i64>,
    tag_re: CompiledPattern,
}

impl Tokenizer {
    /// The padding id.
    pub closed spec fn pad(&self) -> i64 {
        self.pad_id
    }

    /// The character table, keyed by code point.
    pub closed spec fn table(&self) -> Map<u32, i64> {
        self.char_to_id@
    }

    /// The tag pattern the tokenizer strips.
    pub closed spec fn tag_pattern(&self) -> Seq<char> {
        self.tag_re.source_spec()
    }

    /// Builds a tokenizer from a vocabulary's padding id (default `0`) and
    /// its `char_to_id` entries, which must be present.
    pub fn from_vocab(
        pad_id: Option<i64>,
        entries: Option<Vec<(String, Option<i64>)>>,
    ) -> (r: Result<Tokenizer, TokenizeError>)
        ensures
            entries is None ==> r == Err::<Tokenizer, TokenizeError>(TokenizeError::MissingTable),
            entries is Some && !regex_compiles(TAG_PATTERN@) ==> r == Err::<
                Tokenizer,
                TokenizeError,
            >(TokenizeError::InvalidPattern),
            entries matches Some(es) ==> regex_compiles(TAG_PATTERN@) ==> (r matches Ok(t) && {
                let pad = match pad_id {
                    Some(p) => p,
                    None => 0,
                };
                &&& t.pad() == pad
                &&& t.table() == vocab_table(entries_view(es@), pad)
                &&& t.tag_pattern() == TAG_PATTERN@
            }),
    {
        let pad: i64 = match pad_id {
            Some(p) => p,
            None => 0,
        };
        let entries = match entries {
            Some(e) => e,
            None => return Err(TokenizeError::MissingTable),
        };
        let mut char_to_id: HashMap<u32, i64> = HashMap::new();
        let ghost ev = entries_view(entries@);
        let mut i: usize = 0;
        while i < entries.len()
            invariant
                i <= entries@.len(),
                ev == entries_view(entries@),
                char_to_id@ == vocab_table(ev.take(i as int), pad),
            decreases entries.len() - i,
        {
            let (k, v) = &entries[i];
            assert(ev.take(i + 1).drop_last() == ev.take(i as int));
            assert(ev.take(i + 1).last() == (k@, *v));
            let kc = chars_of(k.as_str());
            if kc.len() > 0 {
                let id: i64 = match v {
                    Some(id) => *id,
                    None => pad,
                };
                char_to_id.insert(kc[0] as u32, id);
            }
            i += 1;
        }
        assert(ev.take(entries.len() as int) == ev);
        let tag_re = match CompiledPattern::compile(TAG_PATTERN) {
            Some(p) => p,
            None => return Err(TokenizeError::InvalidPattern),
        };
        Ok(Tokenizer { pad_id: pad, char_to_id, tag_re })
    }

    /// Builds a tokenizer from the bytes of a vocabulary file: JSON whose
    /// `pad_id` (default `0`) and `char_to_id` object give the table.
    pub fn from_json_bytes(raw: &[u8]) -> (r: Result<Tokenizer, TokenizeError>)
        ensures
            json_value(raw@) is None ==> r == Err::<Tokenizer, TokenizeError>(
                TokenizeError::InvalidJson,
            ),
            json_value(raw@) matches Some(json) ==> {
                let (pad_id, entries) = vocab_fields_spec(json);
                &&& entries is None ==> r == Err::<Tokenizer, TokenizeError>(
                    TokenizeError::MissingTable,
                )
                &&& entries is Some && !regex_compiles(TAG_PATTERN@) ==> r == Err::<
                    Tokenizer,
                    TokenizeError,
                >(TokenizeError::InvalidPattern)
                &&& entries matches Some(es) ==> regex_compiles(TAG_PATTERN@) ==> (r matches Ok(
                    t,
                ) && {
                    let pad = match pad_id {
                        Some(p) => p,
                        None => 0,
                    };
                    &&& t.pad() == pad
                    &&& t.table() == vocab_table(es, pad)
                    &&& t.tag_pattern() == TAG_PATTERN@
                })
            },
    {
        match parse_json(raw) {
            Ok(json) => {
                let (pad_id, entries) = vocab_fields(&json);
                Tokenizer::from_vocab(pad_id, entries)
            },
            Err(_) => Err(TokenizeError::InvalidJson),
        }
    }
}

/// The token id of `c`, the padding id when the table lacks it.
pub open spec fn token_id(table: Map<u32, i64>, pad: i64, c: char) -> i64 {
    if table.contains_key(c as u32) {
        table[c as u32]
    } else {
        pad
    }
}

/// The model input of one text: prepared, closed with a full stop unless it
/// already ends in punctuation, wrapped in its language tags, tags removed,
/// and each character mapped to its id.
pub open spec fn encoded_chars(text: Seq<char>, lang: Seq<char>, tag_pattern: Seq<char>) -> Seq<char> {
    let pre = preprocess_phonemes_spec(text);
    let t = if pre.len() > 0 && is_terminal_spec(pre.last()) {
        pre
    } else {
        pre.push('.')
    };
    let wrapped = seq!['<'] + lang + seq!['>'] + t + seq!['<', '/'] + lang + seq!['>'];
    pattern_pass(Rewrite::Delete, tag_pattern, wrapped)
}

impl Tokenizer {
    /// The token ids of one text in language `lang`.
    pub fn encode_one(&self, text: &str, lang: &str) -> (r: Result<Vec<i64>, TokenizeError>)
        ensures
            !is_model_language(lang@) ==> (r matches Err(TokenizeError::InvalidLanguage(l)) && l@
                == lang@),
            r matches Ok(ids) ==> is_model_language(lang@) && ids@ == encoded_chars(
                text@,
                lang@,
                self.tag_pattern(),
            ).map_values(|c: char| token_id(self.table(), self.pad(), c)),
            r matches Err(e) ==> (e is InvalidPattern || e is InvalidLanguage),
            is_model_language(lang@) && regex_compiles(HEBREW_DASH_LATIN_PATTERN@)
                && regex_compiles(LATIN_DASH_HEBREW_PATTERN@) ==> r is Ok,
    {
        let lv = chars_of(lang);
        if !(crate::phonemize::chars_equal(&lv, "en") || crate::phonemize::chars_equal(&lv, "es")
            || crate::phonemize::chars_equal(&lv, "de") || crate::phonemize::chars_equal(&lv, "it")
            || crate::phonemize::chars_equal(&lv, "he")) {
            return Err(TokenizeError::InvalidLanguage(lang.to_owned()));
        }
        let pre = preprocess_phonemes(text)?;
        let mut t = chars_of(pre.as_str());
        let ghost pv = t@;
        let mut terminal = false;
        if t.len() > 0 {
            let c = t[t.len() - 1];
            terminal = c == '.' || c == '!' || c == '?' || c == ';' || c == ':' || c == ','
                || c == '\'' || c == '"' || c == ')' || c == ']' || c == '}';
        }
        assert(terminal == (pv.len() > 0 && is_terminal_spec(pv.last())));
        if !terminal {
            t.push('.');
        }
        let mut wrapped: Vec<char> = Vec::new();
        wrapped.push('<');
        append_chars(&mut wrapped, lv.as_slice());
        wrapped.push('>');
        append_chars(&mut wrapped, t.as_slice());
        wrapped.push('<');
        wrapped.push('/');
        append_chars(&mut wrapped, lv.as_slice());
        wrapped.push('>');
        assert(wrapped@ == seq!['<'] + lang@ + seq!['>'] + t@ + seq!['<', '/'] + lang@ + seq!['>']);
        let stripped = apply_pattern(&self.tag_re, Rewrite::Delete, wrapped.as_slice());
        let ghost want = stripped@.map_values(|c: char| token_id(self.table(), self.pad(), c));
        let mut ids: Vec<i64> = Vec::new();
        let mut i: usize = 0;
        while i < stripped.len()
            invariant
                i <= stripped@.len(),
                want == stripped@.map_values(|c: char| token_id(self.table(), self.pad(), c)),
                ids@ == want.take(i as int),
            decreases stripped.len() - i,
        {
            let key: u32 = stripped[i] as u32;
            let id = match self.char_to_id.get(&key) {
                Some(id) => *id,
                None => self.pad_id,
            };
            ids.push(id);
            assert(want.take(i + 1) == want.take(i as int).push(want[i as int]));
            i += 1;
        }
        assert(want.take(stripped.len() as int) == want);
        Ok(ids)
    }
}


/// The token ids of one text, as `encode_one` gives them.
pub open spec fn encoded_ids(t: &Tokenizer, text: Seq<char>, lang: Seq<char>) -> Seq<i64> {
    encoded_chars(text, lang, t.tag_pattern()).map_values(|c: char| token_id(t.table(), t.pad(), c))
}

/// A batch of encoded texts: each row padded to the longest one, with the
/// number of real ids of each row.
#[derive(Clone, Debug, PartialEq, Eq)]
pub struct EncodedBatch {
    pub ids: Vec<Vec<i64>>,
    pub lengths: Vec<usize>,
    pub width: usize,
}

impl Tokenizer {
    /// Encodes texts with their languages, one language per text, padding
    /// every row with the padding id to the longest row.
    #[verifier::spinoff_prover]
    pub fn encode_batch(&self, texts: &Vec<String>, langs: &Vec<String>) -> (r: Result<
        EncodedBatch,
        TokenizeError,
    >)
        ensures
            texts@.len() != langs@.len() ==> r == Err::<EncodedBatch, TokenizeError>(
                TokenizeError::LengthMismatch,
            ),
            r matches Ok(b) ==> {
                &&& texts@.len() == langs@.len()
                &&& b.ids@.len() == texts@.len()
                &&& b.lengths@.len() == texts@.len()
                &&& forall|i: int| 0 <= i < texts@.len() ==> b.lengths@[i] <= b.width
                &&& (texts@.len() == 0 ==> b.width == 0)
                &&& (texts@.len() > 0 ==> exists|i: int| 0 <= i < texts@.len() && #[trigger] b.lengths@[i] == b.width)
                &&& forall|i: int|
                    0 <= i < texts@.len() ==> {
                        &&& b.lengths@[i] == encoded_ids(self, texts@[i]@, langs@[i]@).len()
                        &&& #[trigger] b.ids@[i]@ == encoded_ids(self, texts@[i]@, langs@[i]@)
                            + Seq::new((b.width - b.lengths@[i]) as nat, |k: int| self.pad())
                    }
            },
            r matches Err(e) ==> (e is LengthMismatch || e is InvalidPattern || e is InvalidLanguage),
            texts@.len() == langs@.len() && (forall|i: int| 0 <= i < langs@.len() ==> is_model_language(#[trigger] langs@[i]@))
                && regex_compiles(HEBREW_DASH_LATIN_PATTERN@) && regex_compiles(LATIN_DASH_HEBREW_PATTERN@)
                ==> r is Ok,
    {
        if texts.len() != langs.len() {
            return Err(TokenizeError::LengthMismatch);
        }
        let mut rows: Vec<Vec<i64>> = Vec::new();
        let mut lengths: Vec<usize> = Vec::new();
        let mut width: usize = 0;
        let mut i: usize = 0;
        while i < texts.len()
            invariant
                i <= texts@.len() == langs@.len(),
                rows@.len() == i,
                lengths@.len() == i,
                forall|k: int| 0 <= k < i ==> #[trigger] rows@[k]@ == encoded_ids(self, texts@[k]@, langs@[k]@),
                forall|k: int| 0 <= k < i ==> #[trigger] lengths@[k] == rows@[k]@.len(),
                forall|k: int| 0 <= k < i ==> #[trigger] lengths@[k] <= width,
                i == 0 ==> width == 0,
                i > 0 ==> exists|k: int| 0 <= k < i && #[trigger] lengths@[k] == width,
            decreases texts.len() - i,
        {
            let row = self.encode_one(texts[i].as_str(), langs[i].as_str())?;
            let n = row.len();
            let ghost old_width = width;
            let ghost old_lengths = lengths@;
            if n > width {
                width = n;
            }
            rows.push(row);
            lengths.push(n);
            assert(lengths@[i as int] == n);
            proof {
                if n <= old_width && i > 0 {
                    let k = choose|k: int| 0 <= k < i && #[trigger] old_lengths[k] == old_width;
                    assert(lengths@[k] == width);
                }
                assert(forall|k: int| 0 <= k < i ==> lengths@[k] == old_lengths[k]);
            }
            i += 1;
        }
        let mut ids: Vec<Vec<i64>> = Vec::new();
        let mut j: usize = 0;
        while j < rows.len()
            invariant
                j <= rows@.len() == lengths@.len(),
                ids@.len() == j,
                forall|k: int| 0 <= k < rows@.len() ==> #[trigger] lengths@[k] == rows@[k]@.len(),
                forall|k: int| 0 <= k < rows@.len() ==> #[trigger] lengths@[k] <= width,
                rows@.len() == texts@.len() == langs@.len(),
                forall|k: int| 0 <= k < rows@.len() ==> #[trigger] rows@[k]@ == encoded_ids(self, texts@[k]@, langs@[k]@),
                rows@.len() == 0 ==> width == 0,
                rows@.len() > 0 ==> exists|k: int| 0 <= k < rows@.len() && #[trigger] lengths@[k] == width,
                forall|k: int| 0 <= k < j ==> #[trigger] ids@[k]@ == rows@[k]@ + Seq::new(
                    (width - lengths@[k]) as nat,
                    |m: int| self.pad(),
                ),
            decreases rows.len() - j,
        {
            let mut row: Vec<i64> = Vec::new();
            let src = &rows[j];
            assert(lengths@[j as int] <= width);
            let mut m: usize = 0;
            while m < src.len()
                invariant
                    m <= src@.len(),
                    row@ == src@.take(m as int),
                decreases src.len() - m,
            {
                row.push(src[m]);
                m += 1;
                assert(row@ == src@.take(m as int));
            }
            assert(src@.take(src@.len() as int) == src@);
            let n = src.len();
            let mut p: usize = n;
            while p < width
                invariant
                    n <= p <= width,
                    row@ == src@ + Seq::new((p - n) as nat, |q: int| self.pad()),
                decreases width - p,
            {
                row.push(self.pad_id);
                p += 1;
                assert(row@ == src@ + Seq::new((p - n) as nat, |q: int| self.pad()));
            }
            ids.push(row);
            j += 1;
        }
        Ok(EncodedBatch { ids, lengths, width })
    }
}

} // verus!
