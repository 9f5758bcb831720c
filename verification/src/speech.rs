//! Normalizing structured text for speech: headings, list markers, e-mail
//! addresses, phone numbers, dates, times and reference codes are rewritten
//! as words, while ordinary Hebrew words and their niqqud are kept.
use vstd::prelude::*;
use crate::text_util::{
    append_chars, chars_of, join, join_chars, seqs_of, string_of, trim, trim_chars,
};
use crate::handling::{
    is_hebrew_letter, is_hebrew_letter_spec, HandlingError,
};
use crate::patterns::{regex_capture_groups, regex_compiles, regex_split_pieces, CompiledPattern, groups_view, matches_view};

verus! {

/// An ASCII digit.
pub open spec fn is_ascii_digit_spec(c: char) -> bool {
    '0' <= c <= '9'
}

/// An ASCII letter.
pub open spec fn is_ascii_alpha_spec(c: char) -> bool {
    ('a' <= c <= 'z') || ('A' <= c <= 'Z')
}

/// The Hebrew word for an ASCII digit.
pub open spec fn digit_word(c: char) -> Seq<char> {
    if c == '0' {
        "אפס"@
    } else if c == '1' {
        "אחת"@
    } else if c == '2' {
        "שתיים"@
    } else if c == '3' {
        "שלוש"@
    } else if c == '4' {
        "ארבע"@
    } else if c == '5' {
        "חמש"@
    } else if c == '6' {
        "שש"@
    } else if c == '7' {
        "שבע"@
    } else if c == '8' {
        "שמונה"@
    } else {
        "תשע"@
    }
}

/// The words of the ASCII digits of `s`, in order.
pub open spec fn digit_words(s: Seq<char>) -> Seq<Seq<char>>
    decreases s.len(),
{
    if s.len() == 0 {
        Seq::empty()
    } else if is_ascii_digit_spec(s.last()) {
        digit_words(s.drop_last()).push(digit_word(s.last()))
    } else {
        digit_words(s.drop_last())
    }
}

/// The ASCII digits of `s` spelled as Hebrew words, separated by spaces;
/// every other character is dropped.
pub open spec fn spell_digits_spec(s: Seq<char>) -> Seq<char> {
    join(digit_words(s), seq![' '])
}

/// Whether `c` is an ASCII digit.
pub fn is_ascii_digit(c: char) -> (b: bool)
    ensures
        b == is_ascii_digit_spec(c),
{
    '0' <= c && c <= '9'
}

/// Whether `c` is an ASCII letter.
pub fn is_ascii_alpha(c: char) -> (b: bool)
    ensures
        b == is_ascii_alpha_spec(c),
{
    ('a' <= c && c <= 'z') || ('A' <= c && c <= 'Z')
}

fn digit_word_chars(c: char) -> (w: Vec<char>)
    requires
        is_ascii_digit_spec(c),
    ensures
        w@ == digit_word(c),
{
    let s = if c == '0' {
        "אפס"
    } else if c == '1' {
        "אחת"
    } else if c == '2' {
        "שתיים"
    } else if c == '3' {
        "שלוש"
    } else if c == '4' {
        "ארבע"
    } else if c == '5' {
        "חמש"
    } else if c == '6' {
        "שש"
    } else if c == '7' {
        "שבע"
    } else if c == '8' {
        "שמונה"
    } else {
        "תשע"
    };
    chars_of(s)
}

/// Spells the ASCII digits of `v` as Hebrew words.
pub fn spell_digits_chars(v: &[char]) -> (out: Vec<char>)
    ensures
        out@ == spell_digits_spec(v@),
{
    let mut words: Vec<Vec<char>> = Vec::new();
    let mut i: usize = 0;
    assert(seqs_of(words@) == digit_words(v@.take(0)));
    while i < v.len()
        invariant
            i <= v@.len(),
            seqs_of(words@) == digit_words(v@.take(i as int)),
        decreases v.len() - i,
    {
        let c = v[i];
        assert(v@.take(i + 1).drop_last() == v@.take(i as int));
        assert(v@.take(i + 1).last() == c);
        if is_ascii_digit(c) {
            let ghost before = words@;
            let w = digit_word_chars(c);
            let ghost wv = w@;
            words.push(w);
            assert(seqs_of(words@) == seqs_of(before).push(wv));
        }
        i += 1;
    }
    assert(v@.take(v.len() as int) == v@);
    assert(seq![' '] =~= [' ']@);
    join_chars(&words, &[' '])
}

/// Spells the ASCII digits of `text` as Hebrew words, separated by spaces.
pub fn spell_digits(text: &str) -> (out: String)
    ensures
        out@ == spell_digits_spec(text@),
{
    let v = chars_of(text);
    let r = spell_digits_chars(v.as_slice());
    string_of(r.as_slice())
}

/// The ASCII digit character for `d < 10`.
pub open spec fn digit_char(d: nat) -> char {
    if d == 0 {
        '0'
    } else if d == 1 {
        '1'
    } else if d == 2 {
        '2'
    } else if d == 3 {
        '3'
    } else if d == 4 {
        '4'
    } else if d == 5 {
        '5'
    } else if d == 6 {
        '6'
    } else if d == 7 {
        '7'
    } else if d == 8 {
        '8'
    } else {
        '9'
    }
}

/// The decimal digits of `n`, without leading zeros.
pub open spec fn decimal(n: nat) -> Seq<char>
    decreases n,
{
    if n < 10 {
        seq![digit_char(n)]
    } else {
        decimal(n / 10).push(digit_char(n % 10))
    }
}

fn digit_char_exec(d: u8) -> (c: char)
    requires
        d < 10,
    ensures
        c == digit_char(d as nat),
{
    if d == 0 {
        '0'
    } else if d == 1 {
        '1'
    } else if d == 2 {
        '2'
    } else if d == 3 {
        '3'
    } else if d == 4 {
        '4'
    } else if d == 5 {
        '5'
    } else if d == 6 {
        '6'
    } else if d == 7 {
        '7'
    } else if d == 8 {
        '8'
    } else {
        '9'
    }
}

/// The decimal digits of `n`.
pub fn decimal_chars(n: u8) -> (out: Vec<char>)
    ensures
        out@ == decimal(n as nat),
{
    let mut out: Vec<char> = Vec::new();
    if n >= 100 {
        out.push(digit_char_exec(n / 100));
        out.push(digit_char_exec((n / 10) % 10));
        out.push(digit_char_exec(n % 10));
        assert((n / 10) / 10 == n / 100);
        assert(decimal((n / 100) as nat) == seq![digit_char((n / 100) as nat)]);
        assert(decimal((n / 10) as nat) == decimal((n / 100) as nat).push(
            digit_char(((n / 10) % 10) as nat),
        ));
        assert(decimal(n as nat) == decimal((n / 10) as nat).push(digit_char((n % 10) as nat)));
    } else if n >= 10 {
        out.push(digit_char_exec(n / 10));
        out.push(digit_char_exec(n % 10));
        assert(decimal((n / 10) as nat) == seq![digit_char((n / 10) as nat)]);
        assert(decimal(n as nat) == decimal((n / 10) as nat).push(digit_char((n % 10) as nat)));
    } else {
        out.push(digit_char_exec(n));
    }
    out
}

/// The spoken form of a list number: words for one to ten, otherwise its
/// digits spelled one by one.
pub open spec fn list_number_spec(number: u8) -> Seq<char> {
    if number == 1 {
        "אחד"@
    } else if number == 2 {
        "שתיים"@
    } else if number == 3 {
        "שלוש"@
    } else if number == 4 {
        "ארבע"@
    } else if number == 5 {
        "חמש"@
    } else if number == 6 {
        "שש"@
    } else if number == 7 {
        "שבע"@
    } else if number == 8 {
        "שמונה"@
    } else if number == 9 {
        "תשע"@
    } else if number == 10 {
        "עשר"@
    } else {
        spell_digits_spec(decimal(number as nat))
    }
}

/// Speaks a list number.
pub fn list_number(number: u8) -> (out: String)
    ensures
        out@ == list_number_spec(number),
{
    let s = if number == 1 {
        "אחד"
    } else if number == 2 {
        "שתיים"
    } else if number == 3 {
        "שלוש"
    } else if number == 4 {
        "ארבע"
    } else if number == 5 {
        "חמש"
    } else if number == 6 {
        "שש"
    } else if number == 7 {
        "שבע"
    } else if number == 8 {
        "שמונה"
    } else if number == 9 {
        "תשע"
    } else if number == 10 {
        "עשר"
    } else {
        let d = decimal_chars(number);
        let r = spell_digits_chars(d.as_slice());
        return string_of(r.as_slice());
    };
    s.to_owned()
}

/// The Hebrew name of a month, `1` being January.
pub open spec fn month_name_spec(month: u8) -> Option<Seq<char>> {
    if month == 1 {
        Some("ינואר"@)
    } else if month == 2 {
        Some("פברואר"@)
    } else if month == 3 {
        Some("מרץ"@)
    } else if month == 4 {
        Some("אפריל"@)
    } else if month == 5 {
        Some("מאי"@)
    } else if month == 6 {
        Some("יוני"@)
    } else if month == 7 {
        Some("יולי"@)
    } else if month == 8 {
        Some("אוגוסט"@)
    } else if month == 9 {
        Some("ספטמבר"@)
    } else if month == 10 {
        Some("אוקטובר"@)
    } else if month == 11 {
        Some("נובמבר"@)
    } else if month == 12 {
        Some("דצמבר"@)
    } else {
        None
    }
}

/// The twelve month names are twelve different names: only the months `1`
/// to `12` have one, and two different months never share it.
pub proof fn law_month_names_distinct(a: u8, b: u8)
    ensures
        month_name_spec(a) is Some <==> 1 <= a <= 12,
        a != b && month_name_spec(a) is Some ==> month_name_spec(a) != month_name_spec(b),
{
    let names = seq![
        "ינואר"@, "פברואר"@, "מרץ"@, "אפריל"@, "מאי"@, "יוני"@, "יולי"@, "אוגוסט"@,
        "ספטמבר"@, "אוקטובר"@, "נובמבר"@, "דצמבר"@,
    ];
    reveal_strlit("ינואר");
    reveal_strlit("פברואר");
    reveal_strlit("מרץ");
    reveal_strlit("אפריל");
    reveal_strlit("מאי");
    reveal_strlit("יוני");
    reveal_strlit("יולי");
    reveal_strlit("אוגוסט");
    reveal_strlit("ספטמבר");
    reveal_strlit("אוקטובר");
    reveal_strlit("נובמבר");
    reveal_strlit("דצמבר");
    assert forall|m: u8| 1 <= m <= 12 implies month_name_spec(m) == Some(#[trigger] names[m - 1]) by {}
    assert forall|x: int, y: int| 0 <= x < y < 12 implies #[trigger] names[x] != #[trigger] names[y] by {
        let p = names[x];
        let q = names[y];
        if p == q {
            assert(p.len() == q.len());
            assert(p[0] == q[0]);
            assert(p[1] == q[1]);
            assert(p[2] == q[2]);
        }
    }
    if a != b && 1 <= a <= 12 && 1 <= b <= 12 {
        if a < b {
            assert(names[a - 1] != names[b - 1]);
        } else {
            assert(names[b - 1] != names[a - 1]);
        }
    }
}

/// The Hebrew name of a month.
pub fn month_name(month: u8) -> (r: Option<&'static str>)
    ensures
        match r {
            Some(s) => month_name_spec(month) == Some(s@),
            None => month_name_spec(month) is None,
        },
{
    if month == 1 {
        Some("ינואר")
    } else if month == 2 {
        Some("פברואר")
    } else if month == 3 {
        Some("מרץ")
    } else if month == 4 {
        Some("אפריל")
    } else if month == 5 {
        Some("מאי")
    } else if month == 6 {
        Some("יוני")
    } else if month == 7 {
        Some("יולי")
    } else if month == 8 {
        Some("אוגוסט")
    } else if month == 9 {
        Some("ספטמבר")
    } else if month == 10 {
        Some("אוקטובר")
    } else if month == 11 {
        Some("נובמבר")
    } else if month == 12 {
        Some("דצמבר")
    } else {
        None
    }
}

/// The value of the ASCII digit `c`.
pub open spec fn digit_value(c: char) -> nat {
    ((c as u32) - ('0' as u32)) as nat
}

/// The value of a string of ASCII digits.
pub open spec fn digits_value(s: Seq<char>) -> nat
    decreases s.len(),
{
    if s.len() == 0 {
        0
    } else {
        digits_value(s.drop_last()) * 10 + digit_value(s.last())
    }
}

/// All characters of `s` are ASCII digits.
pub open spec fn all_ascii_digits(s: Seq<char>) -> bool {
    forall|i: int| 0 <= i < s.len() ==> is_ascii_digit_spec(#[trigger] s[i])
}

/// What `str::parse::<u8>` gives: an optional `+` before at least one ASCII
/// digit, with a value of at most 255.
pub open spec fn parse_u8_spec(s: Seq<char>) -> Option<u8> {
    let d = if s.len() > 1 && s[0] == '+' {
        s.drop_first()
    } else {
        s
    };
    if d.len() > 0 && all_ascii_digits(d) && digits_value(d) <= 255 {
        Some(digits_value(d) as u8)
    } else {
        None
    }
}

/// Parses a small unsigned number as `str::parse::<u8>` does.
pub fn parse_u8(v: &[char]) -> (r: Option<u8>)
    ensures
        r == parse_u8_spec(v@),
{
    let start: usize = if v.len() > 1 && v[0] == '+' {
        1
    } else {
        0
    };
    let ghost d = if v@.len() > 1 && v@[0] == '+' {
        v@.drop_first()
    } else {
        v@
    };
    assert(d == v@.subrange(start as int, v@.len() as int));
    if start >= v.len() {
        return None;
    }
    let mut value: u32 = 0;
    let mut i: usize = start;
    while i < v.len()
        invariant
            start <= i <= v@.len(),
            d == v@.subrange(start as int, v@.len() as int),
            d == if v@.len() > 1 && v@[0] == '+' {
                v@.drop_first()
            } else {
                v@
            },
            all_ascii_digits(v@.subrange(start as int, i as int)),
            value as nat == if digits_value(v@.subrange(start as int, i as int)) < 256 {
                digits_value(v@.subrange(start as int, i as int))
            } else {
                256
            },
        decreases v.len() - i,
    {
        let c = v[i];
        let ghost pre = v@.subrange(start as int, i as int);
        assert(v@.subrange(start as int, i + 1).drop_last() == pre);
        assert(v@.subrange(start as int, i + 1).last() == c);
        if !is_ascii_digit(c) {
            assert(!all_ascii_digits(d)) by {
                assert(d[i - start] == c);
            }
            return None;
        }
        let dv: u32 = (c as u32) - ('0' as u32);
        let next: u32 = value * 10 + dv;
        value = if next > 256 {
            256
        } else {
            next
        };
        i += 1;
        assert(all_ascii_digits(v@.subrange(start as int, i as int))) by {
            assert forall|k: int| 0 <= k < v@.subrange(start as int, i as int).len() implies is_ascii_digit_spec(
                #[trigger] v@.subrange(start as int, i as int)[k],
            ) by {
                if k < pre.len() {
                    assert(v@.subrange(start as int, i as int)[k] == pre[k]);
                }
            }
        }
    }
    assert(v@.subrange(start as int, v@.len() as int) == d);
    if value < 256 {
        Some(value as u8)
    } else {
        None
    }
}


/// Group `i` of a match, empty when it did not take part.
pub open spec fn group_text(groups: Seq<Option<Seq<char>>>, i: int) -> Seq<char> {
    if 0 <= i < groups.len() && groups[i] is Some {
        groups[i]->0
    } else {
        Seq::empty()
    }
}

fn group_chars(groups: &Vec<Option<String>>, i: usize) -> (out: Vec<char>)
    ensures
        out@ == group_text(groups_view(groups@), i as int),
{
    if i < groups.len() {
        match &groups[i] {
            Some(s) => chars_of(s.as_str()),
            None => Vec::new(),
        }
    } else {
        Vec::new()
    }
}

/// A spoken phone number: `כוכבית` before a leading `*`, then its digits
/// spelled, then a full stop.
pub open spec fn expand_phone_spec(phone: Seq<char>) -> Seq<char> {
    (if phone.len() > 0 && phone[0] == '*' {
        "כוכבית "@
    } else {
        Seq::empty()
    }) + spell_digits_spec(phone) + seq!['.']
}

/// Speaks a phone number.
pub fn expand_phone(phone: &[char]) -> (out: Vec<char>)
    ensures
        out@ == expand_phone_spec(phone@),
{
    let mut out: Vec<char> = if phone.len() > 0 && phone[0] == '*' {
        chars_of("כוכבית ")
    } else {
        Vec::new()
    };
    let spelled = spell_digits_chars(phone);
    append_chars(&mut out, spelled.as_slice());
    out.push('.');
    out
}

/// `s` left-padded with zeros to two characters (`format!("{:0>2}", s)`).
pub open spec fn pad2(s: Seq<char>) -> Seq<char> {
    if s.len() == 0 {
        seq!['0', '0']
    } else if s.len() == 1 {
        seq!['0'] + s
    } else {
        s
    }
}

/// A spoken time: `שעה`, the hour's digits (two of them), `ו` and the
/// minutes' digits.
pub open spec fn expand_time_spec(hours: Seq<char>, minutes: Seq<char>) -> Seq<char> {
    "שעה "@ + spell_digits_spec(pad2(hours)) + " ו"@ + spell_digits_spec(minutes)
}

/// Speaks a time given its hour and minute digits.
pub fn expand_time(hours: &[char], minutes: &[char]) -> (out: Vec<char>)
    ensures
        out@ == expand_time_spec(hours@, minutes@),
{
    let mut padded: Vec<char> = Vec::new();
    if hours.len() == 0 {
        padded.push('0');
        padded.push('0');
    } else if hours.len() == 1 {
        padded.push('0');
        padded.push(hours[0]);
        assert(padded@ == seq!['0'] + hours@);
    } else {
        append_chars(&mut padded, hours);
        assert(padded@ == hours@);
    }
    assert(padded@ =~= pad2(hours@));
    let mut out = chars_of("שעה ");
    let h = spell_digits_chars(padded.as_slice());
    append_chars(&mut out, h.as_slice());
    let conj = chars_of(" ו");
    append_chars(&mut out, conj.as_slice());
    let m = spell_digits_chars(minutes);
    append_chars(&mut out, m.as_slice());
    out
}

/// `parse_u8_spec` with `0` for what does not parse.
pub open spec fn parse_or_zero(s: Seq<char>) -> u8 {
    match parse_u8_spec(s) {
        Some(v) => v,
        None => 0,
    }
}

/// A spoken date: the day's digits, `ב` with the month's name, and the
/// year's digits; the date as written when the month is not 1–12 or the day
/// not 1–31.
pub open spec fn expand_date_spec(
    whole: Seq<char>,
    day: Seq<char>,
    month: Seq<char>,
    year: Seq<char>,
) -> Seq<char> {
    let d = parse_or_zero(day);
    match month_name_spec(parse_or_zero(month)) {
        None => whole,
        Some(name) => if 1 <= d <= 31 {
            spell_digits_spec(day) + " ב"@ + name + " "@ + spell_digits_spec(year)
        } else {
            whole
        },
    }
}

/// Speaks a date given the whole match and its day, month and year.
pub fn expand_date(whole: &[char], day: &[char], month: &[char], year: &[char]) -> (out: Vec<
    char,
>)
    ensures
        out@ == expand_date_spec(whole@, day@, month@, year@),
{
    let d = match parse_u8(day) {
        Some(v) => v,
        None => 0,
    };
    let m = match parse_u8(month) {
        Some(v) => v,
        None => 0,
    };
    let name = match month_name(m) {
        Some(name) => name,
        None => {
            let mut out: Vec<char> = Vec::new();
            append_chars(&mut out, whole);
            return out;
        },
    };
    if !(1 <= d && d <= 31) {
        let mut out: Vec<char> = Vec::new();
        append_chars(&mut out, whole);
        return out;
    }
    let mut out = spell_digits_chars(day);
    let b = chars_of(" ב");
    append_chars(&mut out, b.as_slice());
    let n = chars_of(name);
    append_chars(&mut out, n.as_slice());
    out.push(' ');
    let y = spell_digits_chars(year);
    append_chars(&mut out, y.as_slice());
    assert(" "@ =~= seq![' ']) by {
        reveal_strlit(" ");
    }
    out
}

/// Whether `s` holds an ASCII digit.
pub open spec fn has_ascii_digit(s: Seq<char>) -> bool {
    exists|i: int| 0 <= i < s.len() && is_ascii_digit_spec(#[trigger] s[i])
}

fn has_ascii_digit_exec(v: &[char]) -> (b: bool)
    ensures
        b == has_ascii_digit(v@),
{
    let mut i: usize = 0;
    while i < v.len()
        invariant
            i <= v@.len(),
            forall|k: int| 0 <= k < i ==> !is_ascii_digit_spec(#[trigger] v@[k]),
        decreases v.len() - i,
    {
        if is_ascii_digit(v[i]) {
            return true;
        }
        i += 1;
    }
    false
}

/// Where a piece boundary falls when cutting e-mail domains (`.`) or
/// reference codes (`-`, `_`, `/`).
#[derive(Clone, Copy, Debug, PartialEq, Eq, Structural)]
pub enum Separator {
    Dot,
    CodeSeparator,
}

/// Whether `c` is a boundary of kind `sep`.
pub open spec fn is_separator(sep: Separator, c: char) -> bool {
    match sep {
        Separator::Dot => c == '.',
        Separator::CodeSeparator => c == '-' || c == '_' || c == '/',
    }
}

/// `s` cut at every separator of kind `sep`, keeping empty pieces
/// (`str::split`).
pub open spec fn split_by(s: Seq<char>, sep: Separator) -> Seq<Seq<char>>
    decreases s.len(),
{
    if s.len() == 0 {
        seq![Seq::empty()]
    } else {
        let p = split_by(s.drop_last(), sep);
        if is_separator(sep, s.last()) {
            p.push(Seq::empty())
        } else {
            p.update(p.len() - 1, p.last().push(s.last()))
        }
    }
}

proof fn lemma_split_by_nonempty(s: Seq<char>, sep: Separator)
    ensures
        split_by(s, sep).len() >= 1,
    decreases s.len(),
{
    if s.len() > 0 {
        lemma_split_by_nonempty(s.drop_last(), sep);
    }
}

/// Cuts `v` at the separators of kind `sep`.
pub fn split_on(v: &[char], sep: Separator) -> (out: Vec<Vec<char>>)
    ensures
        seqs_of(out@) == split_by(v@, sep),
{
    let mut parts: Vec<Vec<char>> = Vec::new();
    let mut cur: Vec<char> = Vec::new();
    let mut i: usize = 0;
    while i < v.len()
        invariant
            i <= v@.len(),
            seqs_of(parts@).push(cur@) == split_by(v@.take(i as int), sep),
        decreases v.len() - i,
    {
        let c = v[i];
        proof {
            lemma_split_by_nonempty(v@.take(i as int), sep);
        }
        assert(v@.take(i + 1).drop_last() == v@.take(i as int));
        assert(v@.take(i + 1).last() == c);
        let is_sep = match sep {
            Separator::Dot => c == '.',
            Separator::CodeSeparator => c == '-' || c == '_' || c == '/',
        };
        if is_sep {
            let ghost before = parts@;
            let ghost cv = cur@;
            parts.push(cur);
            cur = Vec::new();
            assert(seqs_of(parts@) == seqs_of(before).push(cv));
            assert(cur@ == Seq::<char>::empty());
        } else {
            let ghost old_cur = cur@;
            cur.push(c);
            assert(seqs_of(parts@).push(cur@) == seqs_of(parts@).push(old_cur).update(
                seqs_of(parts@).len() as int,
                old_cur.push(c),
            ));
        }
        i += 1;
    }
    assert(v@.take(v.len() as int) == v@);
    let ghost before = parts@;
    let ghost cv = cur@;
    parts.push(cur);
    assert(seqs_of(parts@) == seqs_of(before).push(cv));
    parts
}

/// Each character of `s` as a one-character string.
pub open spec fn singletons(s: Seq<char>) -> Seq<Seq<char>> {
    s.map_values(|c: char| seq![c])
}

fn singletons_exec(v: &[char]) -> (out: Vec<Vec<char>>)
    ensures
        seqs_of(out@) == singletons(v@),
{
    let mut out: Vec<Vec<char>> = Vec::new();
    let mut i: usize = 0;
    while i < v.len()
        invariant
            i <= v@.len(),
            seqs_of(out@) == singletons(v@.take(i as int)),
        decreases v.len() - i,
    {
        let ghost before = out@;
        let mut one: Vec<char> = Vec::new();
        one.push(v[i]);
        let ghost ov = one@;
        out.push(one);
        assert(seqs_of(out@) == seqs_of(before).push(ov));
        assert(singletons(v@.take(i + 1)) == singletons(v@.take(i as int)).push(seq![v@[i as int]]));
        i += 1;
    }
    assert(v@.take(v.len() as int) == v@);
    out
}

/// How a local part character of an e-mail address is spoken.
pub open spec fn email_local_char(c: char) -> Seq<char> {
    if c == '.' || c == '_' {
        " dot "@
    } else if c == '-' {
        " dash "@
    } else {
        seq![c]
    }
}

/// The spoken local part of an e-mail address.
pub open spec fn email_local(s: Seq<char>) -> Seq<char>
    decreases s.len(),
{
    if s.len() == 0 {
        Seq::empty()
    } else {
        email_local(s.drop_last()) + email_local_char(s.last())
    }
}

/// Whether every character of `s` is an ASCII letter.
pub open spec fn all_ascii_alpha(s: Seq<char>) -> bool {
    forall|i: int| 0 <= i < s.len() ==> is_ascii_alpha_spec(#[trigger] s[i])
}

/// A domain label: short all-letter labels are spelled letter by letter.
pub open spec fn domain_label(p: Seq<char>) -> Seq<char> {
    if p.len() <= 2 && all_ascii_alpha(p) {
        join(singletons(p), seq![' '])
    } else {
        p
    }
}

/// The position of the first `@` in `s`.
pub open spec fn first_at(s: Seq<char>) -> Option<int>
    decreases s.len(),
{
    if s.len() == 0 {
        None
    } else if s[0] == '@' {
        Some(0)
    } else {
        match first_at(s.drop_first()) {
            Some(k) => Some(k + 1),
            None => None,
        }
    }
}

proof fn lemma_first_at(s: Seq<char>)
    ensures
        first_at(s) matches Some(k) ==> 0 <= k < s.len() && s[k] == '@' && forall|m: int|
            0 <= m < k ==> s[m] != '@',
        first_at(s) is None ==> forall|m: int| 0 <= m < s.len() ==> s[m] != '@',
    decreases s.len(),
{
    if s.len() > 0 && s[0] != '@' {
        lemma_first_at(s.drop_first());
        assert forall|m: int| 0 < m < s.len() implies s[m] == s.drop_first()[m - 1] by {}
    }
}

/// A spoken e-mail address: the local part with `dot` and `dash`, `at`, and
/// the domain labels joined by `dot`; unchanged without an `@`.
pub open spec fn expand_email_spec(email: Seq<char>) -> Seq<char> {
    match first_at(email) {
        None => email,
        Some(k) => email_local(email.take(k)) + " at "@ + join(
            split_by(email.skip(k + 1), Separator::Dot).map_values(|p: Seq<char>| domain_label(p)),
            " dot "@,
        ),
    }
}

fn domain_label_exec(p: &[char]) -> (out: Vec<char>)
    ensures
        out@ == domain_label(p@),
{
    let mut all = true;
    let mut i: usize = 0;
    while i < p.len()
        invariant
            i <= p@.len(),
            all == forall|k: int| 0 <= k < i ==> is_ascii_alpha_spec(#[trigger] p@[k]),
        decreases p.len() - i,
    {
        if !is_ascii_alpha(p[i]) {
            all = false;
        }
        i += 1;
    }
    if p.len() <= 2 && all {
        let s = singletons_exec(p);
        assert(seq![' '] =~= [' ']@);
        join_chars(&s, &[' '])
    } else {
        let mut out: Vec<char> = Vec::new();
        append_chars(&mut out, p);
        out
    }
}

/// Speaks an e-mail address.
pub fn expand_email(email: &[char]) -> (out: Vec<char>)
    ensures
        out@ == expand_email_spec(email@),
{
    proof {
        lemma_first_at(email@);
    }
    let mut k: usize = 0;
    while k < email.len() && email[k] != '@'
        invariant
            k <= email@.len(),
            forall|m: int| 0 <= m < k ==> email@[m] != '@',
        decreases email.len() - k,
    {
        k += 1;
    }
    if k == email.len() {
        assert(first_at(email@) is None);
        let mut out: Vec<char> = Vec::new();
        append_chars(&mut out, email);
        return out;
    }
    assert(first_at(email@) == Some(k as int));
    let mut out: Vec<char> = Vec::new();
    let mut i: usize = 0;
    while i < k
        invariant
            i <= k < email@.len(),
            out@ == email_local(email@.take(i as int)),
        decreases k - i,
    {
        let c = email[i];
        assert(email@.take(i + 1).drop_last() == email@.take(i as int));
        if c == '.' || c == '_' {
            let d = chars_of(" dot ");
            append_chars(&mut out, d.as_slice());
        } else if c == '-' {
            let d = chars_of(" dash ");
            append_chars(&mut out, d.as_slice());
        } else {
            out.push(c);
        }
        i += 1;
    }
    let at = chars_of(" at ");
    append_chars(&mut out, at.as_slice());
    let mut domain: Vec<char> = Vec::new();
    let mut j: usize = k + 1;
    while j < email.len()
        invariant
            k < j <= email@.len(),
            domain@ == email@.subrange(k + 1, j as int),
        decreases email.len() - j,
    {
        domain.push(email[j]);
        j += 1;
        assert(domain@ == email@.subrange(k + 1, j as int));
    }
    assert(domain@ == email@.skip(k + 1));
    let parts = split_on(domain.as_slice(), Separator::Dot);
    let ghost want = seqs_of(parts@).map_values(|p: Seq<char>| domain_label(p));
    let mut labels: Vec<Vec<char>> = Vec::new();
    let mut p: usize = 0;
    while p < parts.len()
        invariant
            p <= parts@.len(),
            want == seqs_of(parts@).map_values(|p: Seq<char>| domain_label(p)),
            seqs_of(labels@) == want.take(p as int),
        decreases parts.len() - p,
    {
        let ghost before = labels@;
        let l = domain_label_exec(parts[p].as_slice());
        let ghost lv = l@;
        labels.push(l);
        assert(seqs_of(labels@) == seqs_of(before).push(lv));
        assert(want.take(p + 1) == want.take(p as int).push(want[p as int]));
        p += 1;
    }
    assert(want.take(parts.len() as int) == want);
    let sep = chars_of(" dot ");
    let joined = join_chars(&labels, sep.as_slice());
    append_chars(&mut out, joined.as_slice());
    out
}

/// `c` in upper case when it is an ASCII lower-case letter.
pub open spec fn ascii_upper(c: char) -> char {
    if 'a' <= c <= 'z' {
        (((c as u8) - 32) as u8) as char
    } else {
        c
    }
}

/// The ASCII letters of `s`, upper-cased, each as a one-letter string.
pub open spec fn code_letters(s: Seq<char>) -> Seq<Seq<char>>
    decreases s.len(),
{
    if s.len() == 0 {
        Seq::empty()
    } else if is_ascii_alpha_spec(s.last()) {
        code_letters(s.drop_last()).push(seq![ascii_upper(s.last())])
    } else {
        code_letters(s.drop_last())
    }
}

/// The spelled digits of each piece that holds a digit.
pub open spec fn digit_groups(parts: Seq<Seq<char>>) -> Seq<Seq<char>>
    decreases parts.len(),
{
    if parts.len() == 0 {
        Seq::empty()
    } else if has_ascii_digit(parts.last()) {
        digit_groups(parts.drop_last()).push(spell_digits_spec(parts.last()))
    } else {
        digit_groups(parts.drop_last())
    }
}

/// A spoken reference code: its letters spelled in upper case, then the
/// digits of each `-`/`_`/`/` separated piece, pieces joined by commas, and
/// a full stop; unchanged without both letters and digits.
pub open spec fn expand_identifier_spec(token: Seq<char>) -> Seq<char> {
    let letters = code_letters(token);
    if letters.len() == 0 || !has_ascii_digit(token) {
        token
    } else {
        join(letters, seq![' ']) + seq![' '] + join(
            digit_groups(split_by(token, Separator::CodeSeparator)),
            ", "@,
        ) + seq!['.']
    }
}

/// Speaks a reference code.
pub fn expand_identifier(token: &[char]) -> (out: Vec<char>)
    ensures
        out@ == expand_identifier_spec(token@),
{
    let mut letters: Vec<Vec<char>> = Vec::new();
    let mut i: usize = 0;
    while i < token.len()
        invariant
            i <= token@.len(),
            seqs_of(letters@) == code_letters(token@.take(i as int)),
        decreases token.len() - i,
    {
        let c = token[i];
        assert(token@.take(i + 1).drop_last() == token@.take(i as int));
        assert(token@.take(i + 1).last() == c);
        if is_ascii_alpha(c) {
            let u = if 'a' <= c && c <= 'z' {
                ((c as u8) - 32) as char
            } else {
                c
            };
            let ghost before = letters@;
            let mut one: Vec<char> = Vec::new();
            one.push(u);
            let ghost ov = one@;
            letters.push(one);
            assert(seqs_of(letters@) == seqs_of(before).push(ov));
        }
        i += 1;
    }
    assert(token@.take(token.len() as int) == token@);
    if letters.len() == 0 || !has_ascii_digit_exec(token) {
        let mut out: Vec<char> = Vec::new();
        append_chars(&mut out, token);
        return out;
    }
    let parts = split_on(token, Separator::CodeSeparator);
    let mut groups: Vec<Vec<char>> = Vec::new();
    let mut p: usize = 0;
    while p < parts.len()
        invariant
            p <= parts@.len(),
            seqs_of(groups@) == digit_groups(seqs_of(parts@).take(p as int)),
        decreases parts.len() - p,
    {
        assert(seqs_of(parts@).take(p + 1).drop_last() == seqs_of(parts@).take(p as int));
        assert(seqs_of(parts@).take(p + 1).last() == parts@[p as int]@);
        if has_ascii_digit_exec(parts[p].as_slice()) {
            let ghost before = groups@;
            let g = spell_digits_chars(parts[p].as_slice());
            let ghost gv = g@;
            groups.push(g);
            assert(seqs_of(groups@) == seqs_of(before).push(gv));
        }
        p += 1;
    }
    assert(seqs_of(parts@).take(parts.len() as int) == seqs_of(parts@));
    assert(seq![' '] =~= [' ']@);
    let mut out = join_chars(&letters, &[' ']);
    out.push(' ');
    let comma = chars_of(", ");
    let g = join_chars(&groups, comma.as_slice());
    append_chars(&mut out, g.as_slice());
    out.push('.');
    out
}


/// Markdown headings at the start of a line.
pub const HEADING_PATTERN: &'static str = r"(?m)^\s{0,3}#{1,6}\s+";

/// Numbered list markers at the start of a line.
pub const LIST_PATTERN: &'static str = r"(?m)(^|\n)\s*(\d{1,2})[.)]\s+";

/// E-mail addresses.
pub const EMAIL_PATTERN: &'static str = r"(?i)[A-Z0-9._%+-]+@[A-Z0-9.-]+\.[A-Z]{2,}";

/// Star codes and Israeli phone numbers.
pub const PHONE_PATTERN: &'static str = r"(?:\*\d{2,}|0\d{1,2}-\d{6,8})";

/// Dates written day, month, year.
pub const DATE_PATTERN: &'static str = r"([0-3]?\d)[/.]([01]?\d)[/.](\d{2}|\d{4})";

/// Clock times.
pub const TIME_PATTERN: &'static str = r"([01]?\d|2[0-3]):([0-5]\d)";

/// Reference codes made of letters, digits and separators.
pub const IDENTIFIER_PATTERN: &'static str = r"[A-Za-z]+(?:[-_/]?[A-Za-z0-9]+)+";

/// Runs of full stops.
pub const DOTS_PATTERN: &'static str = r"\.{2,}";

/// Runs of exclamation marks.
pub const BANGS_PATTERN: &'static str = r"!{2,}";

/// Runs of question marks.
pub const QUESTIONS_PATTERN: &'static str = r"\?{2,}";

/// Runs of commas.
pub const COMMAS_PATTERN: &'static str = r",{2,}";

/// Runs of white space.
pub const WHITESPACE_PATTERN: &'static str = r"\s+";

/// How one match is rewritten.
#[derive(Clone, Copy, Debug, PartialEq, Eq, Structural)]
pub enum Rewrite {
    /// Removed.
    Delete,
    /// The line break kept, the number spoken, then `. `.
    ListNumber,
    Email,
    Phone,
    Date,
    Time,
    Identifier,
    Comma,
    Exclamation,
    Question,
    Space,
    /// Groups one and two with a space between them.
    SpacedGroups,
}

/// The replacement of one match, given its groups.
pub open spec fn rewrite_spec(kind: Rewrite, groups: Seq<Option<Seq<char>>>) -> Seq<char> {
    match kind {
        Rewrite::Delete => Seq::empty(),
        Rewrite::ListNumber => group_text(groups, 1) + list_number_spec(
            parse_or_zero(group_text(groups, 2)),
        ) + ". "@,
        Rewrite::Email => expand_email_spec(group_text(groups, 0)),
        Rewrite::Phone => expand_phone_spec(group_text(groups, 0)),
        Rewrite::Date => expand_date_spec(
            group_text(groups, 0),
            group_text(groups, 1),
            group_text(groups, 2),
            group_text(groups, 3),
        ),
        Rewrite::Time => expand_time_spec(group_text(groups, 1), group_text(groups, 2)),
        Rewrite::Identifier => expand_identifier_spec(group_text(groups, 0)),
        Rewrite::Comma => seq![','],
        Rewrite::Exclamation => seq!['!'],
        Rewrite::Question => seq!['?'],
        Rewrite::Space => seq![' '],
        Rewrite::SpacedGroups => group_text(groups, 1) + seq![' '] + group_text(groups, 2),
    }
}

/// Rewrites one match.
pub fn rewrite(kind: Rewrite, groups: &Vec<Option<String>>) -> (out: Vec<char>)
    ensures
        out@ == rewrite_spec(kind, groups_view(groups@)),
{
    match kind {
        Rewrite::Delete => Vec::new(),
        Rewrite::ListNumber => {
            let mut out = group_chars(groups, 1);
            let digits = group_chars(groups, 2);
            let n = match parse_u8(digits.as_slice()) {
                Some(v) => v,
                None => 0,
            };
            let spoken = list_number(n);
            let sv = chars_of(spoken.as_str());
            append_chars(&mut out, sv.as_slice());
            let tail = chars_of(". ");
            append_chars(&mut out, tail.as_slice());
            out
        },
        Rewrite::Email => {
            let g = group_chars(groups, 0);
            expand_email(g.as_slice())
        },
        Rewrite::Phone => {
            let g = group_chars(groups, 0);
            expand_phone(g.as_slice())
        },
        Rewrite::Date => {
            let g0 = group_chars(groups, 0);
            let g1 = group_chars(groups, 1);
            let g2 = group_chars(groups, 2);
            let g3 = group_chars(groups, 3);
            expand_date(g0.as_slice(), g1.as_slice(), g2.as_slice(), g3.as_slice())
        },
        Rewrite::Time => {
            let g1 = group_chars(groups, 1);
            let g2 = group_chars(groups, 2);
            expand_time(g1.as_slice(), g2.as_slice())
        },
        Rewrite::Identifier => {
            let g = group_chars(groups, 0);
            expand_identifier(g.as_slice())
        },
        Rewrite::Comma => {
            let mut out: Vec<char> = Vec::new();
            out.push(',');
            out
        },
        Rewrite::Exclamation => {
            let mut out: Vec<char> = Vec::new();
            out.push('!');
            out
        },
        Rewrite::Question => {
            let mut out: Vec<char> = Vec::new();
            out.push('?');
            out
        },
        Rewrite::Space => {
            let mut out: Vec<char> = Vec::new();
            out.push(' ');
            out
        },
        Rewrite::SpacedGroups => {
            let mut out = group_chars(groups, 1);
            out.push(' ');
            let g2 = group_chars(groups, 2);
            append_chars(&mut out, g2.as_slice());
            out
        },
    }
}

/// The replacement with index `k`, empty when there is none.
pub open spec fn replacement_at(reps: Seq<Seq<char>>, k: int) -> Seq<char> {
    if 0 <= k < reps.len() {
        reps[k]
    } else {
        Seq::empty()
    }
}

/// `pieces[0] + reps[0] + pieces[1] + reps[1] + … + pieces[n-1]`.
pub open spec fn interleave(pieces: Seq<Seq<char>>, reps: Seq<Seq<char>>) -> Seq<char>
    decreases pieces.len(),
{
    if pieces.len() == 0 {
        Seq::empty()
    } else if pieces.len() == 1 {
        pieces[0]
    } else {
        interleave(pieces.drop_last(), reps) + replacement_at(reps, pieces.len() - 2)
            + pieces.last()
    }
}

/// The text between matches joined with each match rewritten.
pub open spec fn substitute_matches_spec(
    kind: Rewrite,
    pieces: Seq<Seq<char>>,
    matches: Seq<Seq<Option<Seq<char>>>>,
) -> Seq<char> {
    interleave(pieces, matches.map_values(|g: Seq<Option<Seq<char>>>| rewrite_spec(kind, g)))
}

/// Joins the text between matches (`pieces`) with each match (its groups in
/// `matches`) rewritten as `kind` says.
pub fn substitute_matches(
    kind: Rewrite,
    pieces: &Vec<String>,
    matches: &Vec<Vec<Option<String>>>,
) -> (out: Vec<char>)
    ensures
        out@ == substitute_matches_spec(
            kind,
            pieces@.map_values(|s: String| s@),
            matches_view(matches@),
        ),
{
    let ghost ps = pieces@.map_values(|s: String| s@);
    let ghost reps = matches_view(matches@).map_values(
        |g: Seq<Option<Seq<char>>>| rewrite_spec(kind, g),
    );
    let mut out: Vec<char> = Vec::new();
    let mut i: usize = 0;
    while i < pieces.len()
        invariant
            i <= pieces@.len(),
            ps == pieces@.map_values(|s: String| s@),
            reps == matches_view(matches@).map_values(
                |g: Seq<Option<Seq<char>>>| rewrite_spec(kind, g),
            ),
            reps.len() == matches@.len(),
            out@ == interleave(ps.take(i as int), reps),
        decreases pieces.len() - i,
    {
        if i > 0 {
            if i - 1 < matches.len() {
                let r = rewrite(kind, &matches[i - 1]);
                assert(r@ == reps[i - 1]);
                append_chars(&mut out, r.as_slice());
            }
        }
        let p = chars_of(pieces[i].as_str());
        append_chars(&mut out, p.as_slice());
        assert(ps.take(i + 1).drop_last() == ps.take(i as int));
        assert(ps.take(i + 1).last() == ps[i as int]);
        i += 1;
    }
    assert(ps.take(pieces.len() as int) == ps);
    out
}

/// One rewriting pass: every match of `pattern` in `text` rewritten.
pub open spec fn pattern_pass(kind: Rewrite, pattern: Seq<char>, text: Seq<char>) -> Seq<char> {
    substitute_matches_spec(
        kind,
        regex_split_pieces(pattern, text),
        regex_capture_groups(pattern, text),
    )
}

/// Rewrites every match of `pattern` in `text`; text without a match comes
/// back unchanged.
pub fn apply_pattern(pattern: &CompiledPattern, kind: Rewrite, text: &[char]) -> (out: Vec<char>)
    ensures
        out@ == pattern_pass(kind, pattern.source_spec(), text@),
        regex_capture_groups(pattern.source_spec(), text@).len() == 0 ==> out@ == text@,
{
    let s = string_of(text);
    let pieces = pattern.split_pieces(s.as_str());
    let matches = pattern.capture_groups(s.as_str());
    let out = substitute_matches(kind, &pieces, &matches);
    proof {
        let ps = regex_split_pieces(pattern.source_spec(), text@);
        if matches@.len() == 0 {
            assert(ps.len() == 1);
        }
    }
    out
}

/// Dashes made plain, brackets made spaces, parentheses made commas.
pub open spec fn speech_char(c: char) -> char {
    if c == '–' || c == '—' || c == '‑' {
        '-'
    } else if c == '[' || c == ']' || c == '{' || c == '}' {
        ' '
    } else if c == '(' || c == ')' {
        ','
    } else {
        c
    }
}

/// `s` with `speech_char` applied to each character.
pub open spec fn speech_chars(s: Seq<char>) -> Seq<char> {
    s.map_values(|c: char| speech_char(c))
}

/// `s` with each ellipsis made a comma.
pub open spec fn ellipsis_to_comma(s: Seq<char>) -> Seq<char> {
    s.map_values(|c: char| if c == '…' { ',' } else { c })
}

fn map_speech_chars(v: &[char], ellipsis_only: bool) -> (out: Vec<char>)
    ensures
        out@ == if ellipsis_only {
            ellipsis_to_comma(v@)
        } else {
            speech_chars(v@)
        },
{
    let mut out: Vec<char> = Vec::new();
    let mut i: usize = 0;
    while i < v.len()
        invariant
            i <= v@.len(),
            out@.len() == i,
            forall|k: int|
                0 <= k < i ==> #[trigger] out@[k] == if ellipsis_only {
                    if v@[k] == '…' {
                        ','
                    } else {
                        v@[k]
                    }
                } else {
                    speech_char(v@[k])
                },
        decreases v.len() - i,
    {
        let c = v[i];
        let m = if ellipsis_only {
            if c == '…' {
                ','
            } else {
                c
            }
        } else if c == '–' || c == '—' || c == '‑' {
            '-'
        } else if c == '[' || c == ']' || c == '{' || c == '}' {
            ' '
        } else if c == '(' || c == ')' {
            ','
        } else {
            c
        };
        out.push(m);
        i += 1;
    }
    if ellipsis_only {
        assert(out@ =~= ellipsis_to_comma(v@));
    } else {
        assert(out@ =~= speech_chars(v@));
    }
    out
}

/// What character `i` of `s` becomes: `"`/`״` and `-` between Hebrew letters
/// are dropped, `'` after ג, צ or ז before a Hebrew letter becomes a geresh.
pub open spec fn hebrew_punctuation_at(s: Seq<char>, i: int) -> Seq<char> {
    let c = s[i];
    let prev_letter = i > 0 && is_hebrew_letter_spec(s[i - 1]);
    let next_letter = i + 1 < s.len() && is_hebrew_letter_spec(s[i + 1]);
    if (c == '"' || c == '״') && prev_letter && next_letter {
        Seq::empty()
    } else if c == '\'' && i > 0 && (s[i - 1] == 'ג' || s[i - 1] == 'צ' || s[i - 1] == 'ז')
        && next_letter {
        seq!['׳']
    } else if c == '-' && prev_letter && next_letter {
        Seq::empty()
    } else {
        seq![c]
    }
}

/// The first `n` characters of `s` with Hebrew punctuation normalized.
pub open spec fn hebrew_punctuation_prefix(s: Seq<char>, n: int) -> Seq<char>
    decreases n,
{
    if n <= 0 {
        Seq::empty()
    } else {
        hebrew_punctuation_prefix(s, n - 1) + hebrew_punctuation_at(s, n - 1)
    }
}

/// `s` with Hebrew punctuation normalized.
pub open spec fn normalize_hebrew_punctuation_spec(s: Seq<char>) -> Seq<char> {
    hebrew_punctuation_prefix(s, s.len() as int)
}

/// Drops quotes and hyphens inside Hebrew words and makes an apostrophe
/// after ג, צ or ז a geresh.
pub fn normalize_hebrew_punctuation(v: &[char]) -> (out: Vec<char>)
    ensures
        out@ == normalize_hebrew_punctuation_spec(v@),
{
    let mut out: Vec<char> = Vec::new();
    let mut i: usize = 0;
    while i < v.len()
        invariant
            i <= v@.len(),
            out@ == hebrew_punctuation_prefix(v@, i as int),
        decreases v.len() - i,
    {
        let c = v[i];
        let prev_letter = i > 0 && is_hebrew_letter(v[i - 1]);
        let next_letter = i + 1 < v.len() && is_hebrew_letter(v[i + 1]);
        if (c == '"' || c == '״') && prev_letter && next_letter {
        } else if c == '\'' && i > 0 && (v[i - 1] == 'ג' || v[i - 1] == 'צ' || v[i - 1] == 'ז')
            && next_letter {
            out.push('׳');
        } else if c == '-' && prev_letter && next_letter {
        } else {
            out.push(c);
        }
        i += 1;
    }
    out
}

/// Whether every pattern of the speech normalization compiles.
pub open spec fn speech_patterns_compile() -> bool {
    &&& regex_compiles(HEADING_PATTERN@)
    &&& regex_compiles(LIST_PATTERN@)
    &&& regex_compiles(EMAIL_PATTERN@)
    &&& regex_compiles(PHONE_PATTERN@)
    &&& regex_compiles(DATE_PATTERN@)
    &&& regex_compiles(TIME_PATTERN@)
    &&& regex_compiles(IDENTIFIER_PATTERN@)
    &&& regex_compiles(DOTS_PATTERN@)
    &&& regex_compiles(BANGS_PATTERN@)
    &&& regex_compiles(QUESTIONS_PATTERN@)
    &&& regex_compiles(COMMAS_PATTERN@)
    &&& regex_compiles(WHITESPACE_PATTERN@)
}

/// Punctuation runs collapsed: an ellipsis or a run of full stops is a
/// comma, runs of `!`, `?` and `,` are one mark, white space runs are one
/// space, and the ends are trimmed.
pub open spec fn normalize_punctuation_spec(text: Seq<char>) -> Seq<char> {
    let t1 = ellipsis_to_comma(text);
    let t2 = pattern_pass(Rewrite::Comma, DOTS_PATTERN@, t1);
    let t3 = pattern_pass(Rewrite::Exclamation, BANGS_PATTERN@, t2);
    let t4 = pattern_pass(Rewrite::Question, QUESTIONS_PATTERN@, t3);
    let t5 = pattern_pass(Rewrite::Comma, COMMAS_PATTERN@, t4);
    let t6 = pattern_pass(Rewrite::Space, WHITESPACE_PATTERN@, t5);
    trim(t6)
}

/// What `normalize_for_speech` gives: headings removed, dashes, brackets and
/// parentheses normalized, Hebrew punctuation normalized, then list markers,
/// e-mail addresses, phone numbers, dates, times and reference codes spoken,
/// and finally punctuation runs collapsed.
pub open spec fn normalize_for_speech_spec(text: Seq<char>) -> Seq<char> {
    let t1 = pattern_pass(Rewrite::Delete, HEADING_PATTERN@, text);
    let t2 = speech_chars(t1);
    let t3 = normalize_hebrew_punctuation_spec(t2);
    let t4 = pattern_pass(Rewrite::ListNumber, LIST_PATTERN@, t3);
    let t5 = pattern_pass(Rewrite::Email, EMAIL_PATTERN@, t4);
    let t6 = pattern_pass(Rewrite::Phone, PHONE_PATTERN@, t5);
    let t7 = pattern_pass(Rewrite::Date, DATE_PATTERN@, t6);
    let t8 = pattern_pass(Rewrite::Time, TIME_PATTERN@, t7);
    let t9 = pattern_pass(Rewrite::Identifier, IDENTIFIER_PATTERN@, t8);
    normalize_punctuation_spec(t9)
}

fn compile_or_error(pattern: &str) -> (r: Result<CompiledPattern, HandlingError>)
    ensures
        r is Ok <==> regex_compiles(pattern@),
        r matches Ok(p) ==> p.source_spec() == pattern@,
        r matches Err(e) ==> e is InvalidPattern,
{
    match CompiledPattern::compile(pattern) {
        Some(p) => Ok(p),
        None => Err(HandlingError::InvalidPattern(pattern.to_owned())),
    }
}

/// Whether every pattern of the punctuation clean-up compiles.
pub open spec fn punctuation_patterns_compile() -> bool {
    &&& regex_compiles(DOTS_PATTERN@)
    &&& regex_compiles(BANGS_PATTERN@)
    &&& regex_compiles(QUESTIONS_PATTERN@)
    &&& regex_compiles(COMMAS_PATTERN@)
    &&& regex_compiles(WHITESPACE_PATTERN@)
}

/// Collapses punctuation runs and white space; fails only when one of its
/// patterns does not compile.
pub fn normalize_punctuation(text: &[char]) -> (r: Result<Vec<char>, HandlingError>)
    ensures
        r matches Ok(s) ==> punctuation_patterns_compile() && s@ == normalize_punctuation_spec(text@),
        r matches Err(e) ==> !punctuation_patterns_compile() && e is InvalidPattern,
{
    let dots = compile_or_error(DOTS_PATTERN)?;
    let bangs = compile_or_error(BANGS_PATTERN)?;
    let questions = compile_or_error(QUESTIONS_PATTERN)?;
    let commas = compile_or_error(COMMAS_PATTERN)?;
    let whitespace = compile_or_error(WHITESPACE_PATTERN)?;
    let u1 = map_speech_chars(text, true);
    let u2 = apply_pattern(&dots, Rewrite::Comma, u1.as_slice());
    let u3 = apply_pattern(&bangs, Rewrite::Exclamation, u2.as_slice());
    let u4 = apply_pattern(&questions, Rewrite::Question, u3.as_slice());
    let u5 = apply_pattern(&commas, Rewrite::Comma, u4.as_slice());
    let u6 = apply_pattern(&whitespace, Rewrite::Space, u5.as_slice());
    Ok(trim_chars(u6.as_slice()))
}

/// Normalizes structured text while preserving ordinary Hebrew words **and**
/// their niqqud. It fails only when one of its patterns does not compile.
pub fn normalize_for_speech(text: &str) -> (r: Result<String, HandlingError>)
    ensures
        r matches Ok(s) ==> speech_patterns_compile() && s@ == normalize_for_speech_spec(text@),
        r matches Err(e) ==> !speech_patterns_compile() && e is InvalidPattern,
{
    let heading = compile_or_error(HEADING_PATTERN)?;
    let list = compile_or_error(LIST_PATTERN)?;
    let email = compile_or_error(EMAIL_PATTERN)?;
    let phone = compile_or_error(PHONE_PATTERN)?;
    let date = compile_or_error(DATE_PATTERN)?;
    let time = compile_or_error(TIME_PATTERN)?;
    let identifier = compile_or_error(IDENTIFIER_PATTERN)?;
    let v = chars_of(text);
    let t1 = apply_pattern(&heading, Rewrite::Delete, v.as_slice());
    let t2 = map_speech_chars(t1.as_slice(), false);
    let t3 = normalize_hebrew_punctuation(t2.as_slice());
    let t4 = apply_pattern(&list, Rewrite::ListNumber, t3.as_slice());
    let t5 = apply_pattern(&email, Rewrite::Email, t4.as_slice());
    let t6 = apply_pattern(&phone, Rewrite::Phone, t5.as_slice());
    let t7 = apply_pattern(&date, Rewrite::Date, t6.as_slice());
    let t8 = apply_pattern(&time, Rewrite::Time, t7.as_slice());
    let t9 = apply_pattern(&identifier, Rewrite::Identifier, t8.as_slice());
    let out = normalize_punctuation(t9.as_slice())?;
    Ok(string_of(out.as_slice()))
}

} // verus!
