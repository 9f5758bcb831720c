//! The local HTTP service's own logic: language and voice selection, preview
//! IPA clean-up, the usage guide it serves, where model files come from, and
//! the shapes of its requests and responses.
use vstd::prelude::*;
use crate::text_util::{append_chars, chars_of, is_white_space, string_of, trim, trim_chars, law_trim_idempotent, lemma_trim_of_trimmed};
use crate::phonemize::{language_code, Language, UnsupportedLanguage};

verus! {

/// `s` with every leftmost, non-overlapping occurrence of the non-empty
/// `pat` replaced by `with` (`str::replace`).
pub open spec fn replace_literal(s: Seq<char>, pat: Seq<char>, with: Seq<char>) -> Seq<char>
    decreases s.len(),
{
    if s.len() == 0 {
        s
    } else if pat.len() > 0 && pat.len() <= s.len() && s.take(pat.len() as int) == pat {
        with + replace_literal(s.skip(pat.len() as int), pat, with)
    } else {
        seq![s[0]] + replace_literal(s.drop_first(), pat, with)
    }
}

/// Whether `pat` (non-empty) occurs in `v` at `i`.
fn occurs_at(v: &[char], i: usize, pat: &[char]) -> (b: bool)
    requires
        i <= v@.len(),
    ensures
        b == (pat@.len() > 0 && pat@.len() <= v@.skip(i as int).len() && v@.skip(i as int).take(
            pat@.len() as int,
        ) == pat@),
{
    if pat.len() == 0 || pat.len() > v.len() - i {
        return false;
    }
    let mut k: usize = 0;
    while k < pat.len()
        invariant
            k <= pat@.len(),
            i + pat.len() <= v.len(),
            forall|m: int| 0 <= m < k ==> v@[i + m] == pat@[m],
        decreases pat.len() - k,
    {
        if v[i + k] != pat[k] {
            assert(v@.skip(i as int).take(pat@.len() as int)[k as int] != pat@[k as int]);
            return false;
        }
        k += 1;
    }
    assert(v@.skip(i as int).take(pat@.len() as int) =~= pat@);
    true
}

/// Replaces every occurrence of `pat` in `v` by `with`.
pub fn replace_chars(v: &[char], pat: &[char], with: &[char]) -> (out: Vec<char>)
    ensures
        out@ == replace_literal(v@, pat@, with@),
{
    let mut out: Vec<char> = Vec::new();
    let mut i: usize = 0;
    assert(v@.skip(0) == v@);
    while i < v.len()
        invariant
            i <= v@.len(),
            out@ + replace_literal(v@.skip(i as int), pat@, with@) == replace_literal(
                v@,
                pat@,
                with@,
            ),
        decreases v.len() - i,
    {
        let ghost rest = v@.skip(i as int);
        if occurs_at(v, i, pat) {
            append_chars(&mut out, with);
            assert(rest.skip(pat@.len() as int) == v@.skip(i + pat@.len()));
            assert(out@ + replace_literal(v@.skip(i + pat@.len()), pat@, with@) == replace_literal(
                v@,
                pat@,
                with@,
            )) by {
                assert(replace_literal(rest, pat@, with@) == with@ + replace_literal(
                    v@.skip(i + pat@.len()),
                    pat@,
                    with@,
                ));
            }
            i += pat.len();
        } else {
            out.push(v[i]);
            assert(rest.drop_first() == v@.skip(i + 1));
            assert(replace_literal(rest, pat@, with@) == seq![v@[i as int]] + replace_literal(
                v@.skip(i + 1),
                pat@,
                with@,
            ));
            i += 1;
        }
    }
    assert(out@ + replace_literal(v@.skip(i as int), pat@, with@) == out@);
    out
}

/// The language tags that synthesis input carries.
pub open spec fn tag_languages() -> Seq<Seq<char>> {
    seq!["en"@, "es"@, "de"@, "it"@, "he"@]
}

/// `s` without the opening and closing tags of the languages `langs`,
/// removed language by language, opening tag first.
pub open spec fn strip_tags_of(s: Seq<char>, langs: Seq<Seq<char>>) -> Seq<char>
    decreases langs.len(),
{
    if langs.len() == 0 {
        s
    } else {
        let l = langs[0];
        let opened = replace_literal(s, seq!['<'] + l + seq!['>'], Seq::empty());
        let closed = replace_literal(opened, seq!['<', '/'] + l + seq!['>'], Seq::empty());
        strip_tags_of(closed, langs.drop_first())
    }
}

/// Preview IPA without internal language tags.
pub open spec fn strip_language_tags_spec(phonemes: Seq<char>) -> Seq<char> {
    strip_tags_of(phonemes, tag_languages())
}

/// Removes `<xx>` and `</xx>` for each language code `xx`.
pub fn strip_language_tags(phonemes: String) -> (out: String)
    ensures
        out@ == strip_language_tags_spec(phonemes@),
{
    let mut v = chars_of(phonemes.as_str());
    let langs = ["en", "es", "de", "it", "he"];
    let ghost all = tag_languages();
    let mut k: usize = 0;
    let empty: Vec<char> = Vec::new();
    assert(all.skip(0) == all);
    while k < 5
        invariant
            k <= 5,
            all == tag_languages(),
            langs@ == seq!["en", "es", "de", "it", "he"],
            empty@ == Seq::<char>::empty(),
            strip_tags_of(v@, all.skip(k as int)) == strip_language_tags_spec(phonemes@),
        decreases 5 - k,
    {
        let code = chars_of(langs[k]);
        assert(code@ == all[k as int]);
        let mut open: Vec<char> = Vec::new();
        open.push('<');
        append_chars(&mut open, code.as_slice());
        open.push('>');
        let mut close: Vec<char> = Vec::new();
        close.push('<');
        close.push('/');
        append_chars(&mut close, code.as_slice());
        close.push('>');
        assert(open@ == seq!['<'] + all[k as int] + seq!['>']);
        assert(close@ == seq!['<', '/'] + all[k as int] + seq!['>']);
        let opened = replace_chars(v.as_slice(), open.as_slice(), empty.as_slice());
        v = replace_chars(opened.as_slice(), close.as_slice(), empty.as_slice());
        assert(all.skip(k as int).drop_first() == all.skip(k + 1));
        assert(all.skip(k as int)[0] == all[k as int]);
        k += 1;
    }
    string_of(v.as_slice())
}

/// `c` in lower case when it is an ASCII upper-case letter.
pub open spec fn ascii_lower(c: char) -> char {
    if 'A' <= c <= 'Z' {
        (((c as u8) + 32) as u8) as char
    } else {
        c
    }
}

/// `s` with ASCII letters in lower case (`str::to_ascii_lowercase`).
pub open spec fn ascii_lowercase(s: Seq<char>) -> Seq<char> {
    s.map_values(|c: char| ascii_lower(c))
}

/// Whether `s` holds a character of the Hebrew block (U+0590–U+05FF).
pub open spec fn contains_hebrew_block(s: Seq<char>) -> bool {
    exists|i: int| 0 <= i < s.len() && 0x0590 <= (#[trigger] s[i] as u32) <= 0x05ff
}

/// Whether `v` holds a character of the Hebrew block.
pub fn contains_hebrew_block_chars(v: &[char]) -> (b: bool)
    ensures
        b == contains_hebrew_block(v@),
{
    let mut i: usize = 0;
    while i < v.len()
        invariant
            i <= v@.len(),
            forall|k: int| 0 <= k < i ==> !(0x0590 <= (#[trigger] v@[k] as u32) <= 0x05ff),
        decreases v.len() - i,
    {
        let u: u32 = v[i] as u32;
        if 0x0590 <= u && u <= 0x05ff {
            return true;
        }
        i += 1;
    }
    false
}

/// The language code a request resolves to: the requested code trimmed and
/// lower-cased, or for an empty or `auto` request `he` when the text holds a
/// Hebrew-block character and `en` otherwise.
pub open spec fn requested_code(text: Seq<char>, requested: Seq<char>) -> Seq<char> {
    let r = ascii_lowercase(trim(requested));
    if r.len() == 0 || r == "auto"@ {
        if contains_hebrew_block(text) {
            "he"@
        } else {
            "en"@
        }
    } else {
        r
    }
}

/// The runtime's language for a code: only `en`/`en-us` and `he`.
pub open spec fn runtime_language(code: Seq<char>) -> Option<Language> {
    if code == "en"@ || code == "en-us"@ {
        Some(Language::English)
    } else if code == "he"@ {
        Some(Language::Hebrew)
    } else {
        None
    }
}

/// Resolves the language of a synthesis request: `auto` (or nothing)
/// detects Hebrew, and only English and Hebrew are accepted.
pub fn language_for(text: &str, requested: &str) -> (r: Result<(Language, &'static str), UnsupportedLanguage>)
    ensures
        match runtime_language(requested_code(text@, requested@)) {
            Some(l) => r matches Ok((l2, code)) && l2 == l && code@ == language_code(l),
            None => r matches Err(e) && e.code@ == requested_code(text@, requested@),
        },
{
    let req = chars_of(requested);
    let t = trim_chars(req.as_slice());
    let mut lower: Vec<char> = Vec::new();
    let mut i: usize = 0;
    while i < t.len()
        invariant
            i <= t@.len(),
            lower@ == ascii_lowercase(t@.take(i as int)),
        decreases t.len() - i,
    {
        let c = t[i];
        let l = if 'A' <= c && c <= 'Z' {
            ((c as u8) + 32) as char
        } else {
            c
        };
        lower.push(l);
        assert(ascii_lowercase(t@.take(i + 1)) == ascii_lowercase(t@.take(i as int)).push(
            ascii_lower(c),
        ));
        i += 1;
    }
    assert(t@.take(t@.len() as int) == t@);
    let code: Vec<char> = if lower.len() == 0 || crate::phonemize::chars_equal(&lower, "auto") {
        let tv = chars_of(text);
        if contains_hebrew_block_chars(tv.as_slice()) {
            chars_of("he")
        } else {
            chars_of("en")
        }
    } else {
        lower
    };
    if crate::phonemize::chars_equal(&code, "en") || crate::phonemize::chars_equal(&code, "en-us") {
        Ok((Language::English, Language::English.code()))
    } else if crate::phonemize::chars_equal(&code, "he") {
        Ok((Language::Hebrew, Language::Hebrew.code()))
    } else {
        Err(UnsupportedLanguage { code: string_of(code.as_slice()) })
    }
}

/// The voice id a request resolves to: legacy ids map to the current ones.
pub open spec fn normalize_voice_spec(voice: Seq<char>) -> Seq<char> {
    let t = trim(voice);
    if t == "female1"@ {
        "Rotem"@
    } else if t == "male1"@ {
        "Roi"@
    } else {
        t
    }
}

/// Maps the legacy voice ids `female1` and `male1` to `Rotem` and `Roi`.
pub fn normalize_voice(voice: &str) -> (out: String)
    ensures
        out@ == normalize_voice_spec(voice@),
{
    let v = chars_of(voice);
    let t = trim_chars(v.as_slice());
    if crate::phonemize::chars_equal(&t, "female1") {
        "Rotem".to_owned()
    } else if crate::phonemize::chars_equal(&t, "male1") {
        "Roi".to_owned()
    } else {
        string_of(t.as_slice())
    }
}

/// A language that the runtime offers, with its numeric id.
#[derive(Clone, Debug, PartialEq, Eq)]
pub struct RuntimeLanguage {
    pub name: String,
    pub id: i32,
}

/// Builds a runtime language entry.
pub fn language(name: &str, id: i32) -> (r: RuntimeLanguage)
    ensures
        r.name@ == name@,
        r.id == id,
{
    RuntimeLanguage { name: name.to_owned(), id }
}

/// The languages of the Blue runtime: English (0) and Hebrew (1).
pub fn blue_languages() -> (r: Vec<RuntimeLanguage>)
    ensures
        r@.len() == 2,
        r@[0].name@ == "en"@ && r@[0].id == 0,
        r@[1].name@ == "he"@ && r@[1].id == 1,
{
    let mut r: Vec<RuntimeLanguage> = Vec::new();
    r.push(language("en", 0));
    r.push(language("he", 1));
    r
}

/// The voices of the Blue runtime.
pub fn blue_voices() -> (r: Vec<String>)
    ensures
        r@.len() == 2,
        r@[0]@ == "Rotem"@,
        r@[1]@ == "Roi"@,
{
    let mut r: Vec<String> = Vec::new();
    r.push("Rotem".to_owned());
    r.push("Roi".to_owned());
    r
}

/// The style file of a current voice id.
pub fn voice_file(voice: &str) -> (r: Option<&'static str>)
    ensures
        voice@ == "Rotem"@ ==> (r matches Some(f) && f@ == "female1.json"@),
        voice@ == "Roi"@ ==> (r matches Some(f) && f@ == "male1.json"@),
        voice@ != "Rotem"@ && voice@ != "Roi"@ ==> r is None,
{
    let v = chars_of(voice);
    proof {
        reveal_strlit("Rotem");
        reveal_strlit("Roi");
        assert("Roi"@.len() == 3);
        assert("Rotem"@.len() == 5);
        assert("Roi"@ != "Rotem"@);
    }
    if crate::phonemize::chars_equal(&v, "Rotem") {
        Some("female1.json")
    } else if crate::phonemize::chars_equal(&v, "Roi") {
        Some("male1.json")
    } else {
        None
    }
}

/// Why a synthesis request was refused.
#[derive(Clone, Debug, PartialEq, Eq)]
pub enum SynthesisError {
    /// The requested language is neither English nor Hebrew.
    UnsupportedLanguage(String),
    /// The voice names none of the runtime's voices.
    UnknownVoice(String),
}

/// What a synthesis request resolves to: the model's language code, the
/// voice id and the file of that voice's style.
#[derive(Clone, Debug, PartialEq, Eq)]
pub struct SynthesisSetup {
    pub language: Language,
    pub language_code: &'static str,
    pub voice: String,
    pub style_file: &'static str,
}

/// The voice a request resolves to: `Rotem` when it names none.
pub open spec fn requested_voice(voice: Option<Seq<char>>) -> Seq<char> {
    match voice {
        Some(v) => normalize_voice_spec(v),
        None => "Rotem"@,
    }
}

/// Resolves a synthesis request: the language first, then the voice
/// (`Rotem` by default, legacy ids accepted), which must be `Rotem` or `Roi`.
pub fn resolve_synthesis(text: &str, voice: Option<&str>, language: &str) -> (r: Result<
    SynthesisSetup,
    SynthesisError,
>)
    ensures
        match runtime_language(requested_code(text@, language@)) {
            None => r matches Err(SynthesisError::UnsupportedLanguage(code)) && code@
                == requested_code(text@, language@),
            Some(l) => {
                let v = requested_voice(
                    match voice {
                        Some(x) => Some(x@),
                        None => None,
                    },
                );
                if v == "Rotem"@ || v == "Roi"@ {
                    r matches Ok(setup) && setup.language == l && setup.language_code@
                        == language_code(l) && setup.voice@ == v && setup.style_file@ == (if v
                        == "Rotem"@ {
                        "female1.json"@
                    } else {
                        "male1.json"@
                    })
                } else {
                    r matches Err(SynthesisError::UnknownVoice(name)) && name@ == v
                }
            },
        },
{
    let (l, code) = match language_for(text, language) {
        Ok(found) => found,
        Err(e) => return Err(SynthesisError::UnsupportedLanguage(e.code)),
    };
    let v = match voice {
        Some(x) => normalize_voice(x),
        None => {
            proof {
                reveal_strlit("Rotem");
            }
            "Rotem".to_owned()
        },
    };
    match voice_file(v.as_str()) {
        Some(file) => Ok(SynthesisSetup { language: l, language_code: code, voice: v, style_file: file }),
        None => Err(SynthesisError::UnknownVoice(v)),
    }
}

pub const SKILL_TEMPLATE: &'static str = r#"# MamboRambo Local TTS API

You are using MamboRambo, a local BlueTTS HTTP API. The shipped runtime supports Hebrew and English, fixed voices, and streaming WAV output. It does not support voice cloning.

Base URL: {{base_url}}
OpenAPI schema: {{base_url}}/openapi.json
Swagger docs: {{base_url}}/docs
Model sources: {{base_url}}/v1/models/sources

Before calling the API, fetch the OpenAPI schema from /openapi.json and use it as the source of truth for request and response shapes.

Recommended flow:

1. Call GET /health.
2. If loaded=false, call GET /v1/models/sources to discover runtimes, model download URLs, and default MamboRambo Desktop model locations.
3. Check whether the model files already exist in MamboRambo Desktop's default model directory.
4. Call POST /v1/models/load with `runtime`, `model_path`, and `renikud_path`. The Blue runtime requires all three values.
5. Call POST /v1/audio/speech to synthesize speech.
6. Send JSON with input, optional voice, language, `response_format: "wav"`, and `stream: false`.
7. Save the returned WAV response to a .wav file. Streaming responses use MamboRambo binary frames.

Example:

~~~sh
curl {{base_url}}/health

curl {{base_url}}/v1/models/sources

curl -X POST {{base_url}}/v1/models/load \
  -H 'Content-Type: application/json' \
  -d '{"runtime":"blue","model_path":"/path/to/blue-onnx-v2","renikud_path":"/path/to/blue-onnx-v2/renikud.onnx"}'

curl -X POST {{base_url}}/v1/audio/speech \
  -H 'Content-Type: application/json' \
  -o speech.wav \
  -d '{"input":"שלום מממבו רמבו","language":"auto","voice":"Rotem","response_format":"wav","stream":false}'
~~~

If the API returns no_model, ask the user to install the MamboRambo model in the desktop app first.
"#;

/// The usage guide with its base URL placeholder filled in.
pub open spec fn render_skill_spec(host: Seq<char>) -> Seq<char> {
    replace_literal(SKILL_TEMPLATE@, "{{base_url}}"@, "http://"@ + host)
}

/// Renders the usage guide for an API served at `host`.
pub fn render_skill(host: &str) -> (out: String)
    ensures
        out@ == render_skill_spec(host@),
{
    let t = chars_of(SKILL_TEMPLATE);
    let pat = chars_of("{{base_url}}");
    let mut base = chars_of("http://");
    let h = chars_of(host);
    append_chars(&mut base, h.as_slice());
    let r = replace_chars(t.as_slice(), pat.as_slice(), base.as_slice());
    string_of(r.as_slice())
}


/// Resolving a voice id twice is resolving it once: legacy ids and padded
/// ids settle on their current form.
pub proof fn law_normalize_voice_idempotent(voice: Seq<char>)
    ensures
        normalize_voice_spec(normalize_voice_spec(voice)) == normalize_voice_spec(voice),
{
    reveal_strlit("Rotem");
    reveal_strlit("Roi");
    reveal_strlit("female1");
    reveal_strlit("male1");
    assert("Rotem"@.len() == 5 && "Roi"@.len() == 3 && "female1"@.len() == 7 && "male1"@.len() == 5);
    assert("Rotem"@[0] == 'R' && "male1"@[0] == 'm' && "Rotem"@[4] == 'm' && "Roi"@[2] == 'i');
    assert("Rotem"@ != "female1"@ && "Rotem"@ != "male1"@);
    assert("Roi"@ != "female1"@ && "Roi"@ != "male1"@);
    lemma_trim_of_trimmed("Rotem"@);
    lemma_trim_of_trimmed("Roi"@);
    law_trim_idempotent(voice);
}

} // verus!
