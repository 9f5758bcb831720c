//! Splitting phoneme input into synthesis-sized chunks.
//!
//! Input is first split into sentences after sentence-ending punctuation
//! outside a `<…>` tag literal; each sentence is then packed greedily from
//! whole words, and a word longer than the limit is cut into pieces made of
//! whole units, a unit being one character or one complete `<…>` literal.
use vstd::prelude::*;
use vstd::seq_lib::lemma_flatten_concat;
use crate::text_util::{
    append_chars, trim_start, trim_end, chars_of, flush_word, is_white_space, is_whitespace, seqs_of, seqs_of_strings,
    string_of, strings_of, trim, trim_chars,
};

verus! {

/// Sentence-ending punctuation.
pub open spec fn is_sentence_boundary_spec(c: char) -> bool {
    c == '.' || c == '!' || c == '?' || c == ';' || c == '…' || c == '।' || c == '؟' || c == '。'
}

/// `items` with the trimmed `value` added when that is not empty.
pub open spec fn push_trimmed_spec(items: Seq<Seq<char>>, value: Seq<char>) -> Seq<Seq<char>> {
    if trim(value).len() > 0 {
        items.push(trim(value))
    } else {
        items
    }
}

/// The sentences of `s`, continuing from the sentences found so far, the
/// current partial sentence `cur` and whether a `<…>` literal is open.
pub open spec fn sentences_from(
    s: Seq<char>,
    sentences: Seq<Seq<char>>,
    cur: Seq<char>,
    in_tag: bool,
) -> Seq<Seq<char>>
    decreases s.len(),
{
    if s.len() == 0 {
        push_trimmed_spec(sentences, cur)
    } else {
        let c = s[0];
        let rest = s.drop_first();
        if c == '<' {
            sentences_from(rest, sentences, cur.push(c), true)
        } else if c == '>' && in_tag {
            sentences_from(rest, sentences, cur.push(c), false)
        } else if !in_tag && is_sentence_boundary_spec(c) {
            sentences_from(rest, push_trimmed_spec(sentences, cur.push(c)), Seq::empty(), in_tag)
        } else {
            sentences_from(rest, sentences, cur.push(c), in_tag)
        }
    }
}

/// The trimmed, non-empty sentences of `s`, each ending after its boundary.
pub open spec fn split_sentences_spec(s: Seq<char>) -> Seq<Seq<char>> {
    sentences_from(s, Seq::empty(), Seq::empty(), false)
}

/// The words of `s`, continuing from the words found so far, the current
/// partial word and the tag state: white space separates words only outside
/// a `<…>` literal.
pub open spec fn tag_words_from(
    s: Seq<char>,
    words: Seq<Seq<char>>,
    cur: Seq<char>,
    in_tag: bool,
) -> Seq<Seq<char>>
    decreases s.len(),
{
    if s.len() == 0 {
        flush_word(words, cur)
    } else {
        let c = s[0];
        let rest = s.drop_first();
        if c == '<' {
            tag_words_from(rest, words, cur.push(c), true)
        } else if c == '>' && in_tag {
            tag_words_from(rest, words, cur.push(c), false)
        } else if !in_tag && is_white_space(c) {
            tag_words_from(rest, flush_word(words, cur), Seq::empty(), in_tag)
        } else {
            tag_words_from(rest, words, cur.push(c), in_tag)
        }
    }
}

/// The words of `s` that keep `<…>` literals whole.
pub open spec fn tag_words(s: Seq<char>) -> Seq<Seq<char>> {
    tag_words_from(s, Seq::empty(), Seq::empty(), false)
}

/// The index of the first `>` in `s`.
pub open spec fn first_gt(s: Seq<char>) -> Option<int>
    decreases s.len(),
{
    if s.len() == 0 {
        None
    } else if s[0] == '>' {
        Some(0)
    } else {
        match first_gt(s.drop_first()) {
            Some(k) => Some(k + 1),
            None => None,
        }
    }
}

/// `first_gt` is the position of the first `>`.
pub proof fn lemma_first_gt(s: Seq<char>)
    ensures
        first_gt(s) matches Some(k) ==> 0 <= k < s.len() && s[k] == '>' && forall|m: int|
            0 <= m < k ==> s[m] != '>',
        first_gt(s) is None ==> forall|m: int| 0 <= m < s.len() ==> s[m] != '>',
    decreases s.len(),
{
    if s.len() > 0 && s[0] != '>' {
        lemma_first_gt(s.drop_first());
        assert forall|m: int| 0 < m < s.len() implies s[m] == s.drop_first()[m - 1] by {}
    }
}

/// The length of the unit that starts `s`: a whole `<…>` literal when `s`
/// opens one that closes, one character otherwise.
pub open spec fn unit_len(s: Seq<char>) -> int {
    if s.len() > 0 && s[0] == '<' {
        match first_gt(s) {
            Some(k) => k + 1,
            None => 1,
        }
    } else {
        1
    }
}

/// A non-empty `s` starts with a unit of length between 1 and `s.len()`.
pub proof fn lemma_unit_len(s: Seq<char>)
    requires
        s.len() > 0,
    ensures
        1 <= unit_len(s) <= s.len(),
{
    lemma_first_gt(s);
}

/// `s` cut into units.
pub open spec fn units(s: Seq<char>) -> Seq<Seq<char>>
    decreases s.len(),
{
    if s.len() == 0 {
        Seq::empty()
    } else {
        proof {
            lemma_unit_len(s);
        }
        seq![s.take(unit_len(s))] + units(s.skip(unit_len(s)))
    }
}

/// Greedy packing of the units `us` into pieces of at most `max` characters,
/// continuing from the pieces so far and the current piece; a unit longer
/// than `max` forms a piece of its own.
pub open spec fn hard_split_from(
    us: Seq<Seq<char>>,
    chunks: Seq<Seq<char>>,
    cur: Seq<char>,
    max: nat,
) -> Seq<Seq<char>>
    decreases us.len(),
{
    if us.len() == 0 {
        flush_word(chunks, cur)
    } else {
        let u = us[0];
        if cur.len() > 0 && cur.len() + u.len() > max {
            hard_split_from(us.drop_first(), chunks.push(cur), u, max)
        } else {
            hard_split_from(us.drop_first(), chunks, cur + u, max)
        }
    }
}

/// `token` cut into pieces of whole units.
pub open spec fn hard_split_spec(token: Seq<char>, max: nat) -> Seq<Seq<char>> {
    hard_split_from(units(token), Seq::empty(), Seq::empty(), max)
}

/// Greedy packing of the words `ws` into chunks of at most `max` characters,
/// words joined by one space, continuing from the chunks so far and the
/// current chunk; a word longer than `max` is hard-split on its own.
pub open spec fn pack_from(
    ws: Seq<Seq<char>>,
    chunks: Seq<Seq<char>>,
    cur: Seq<char>,
    max: nat,
) -> Seq<Seq<char>>
    decreases ws.len(),
{
    if ws.len() == 0 {
        flush_word(chunks, cur)
    } else {
        let w = ws[0];
        let full = cur.len() > 0 && cur.len() + 1 + w.len() > max;
        let chunks1 = if full {
            chunks.push(cur)
        } else {
            chunks
        };
        let cur1 = if full {
            Seq::empty()
        } else {
            cur
        };
        if w.len() > max {
            pack_from(
                ws.drop_first(),
                flush_word(chunks1, cur1) + hard_split_spec(w, max),
                Seq::empty(),
                max,
            )
        } else if cur1.len() > 0 {
            pack_from(ws.drop_first(), chunks1, cur1.push(' ') + w, max)
        } else {
            pack_from(ws.drop_first(), chunks1, w, max)
        }
    }
}

/// The chunks of one sentence.
pub open spec fn sentence_chunks(sentence: Seq<char>, max: nat) -> Seq<Seq<char>> {
    pack_from(tag_words(sentence), Seq::empty(), Seq::empty(), max)
}

/// The chunks of a sequence of sentences, in order.
pub open spec fn chunks_of_sentences(ss: Seq<Seq<char>>, max: nat) -> Seq<Seq<char>>
    decreases ss.len(),
{
    if ss.len() == 0 {
        Seq::empty()
    } else {
        sentence_chunks(ss[0], max) + chunks_of_sentences(ss.drop_first(), max)
    }
}

/// What `split_phonemes` returns: nothing for blank input, the trimmed input
/// whole without a positive limit, otherwise the chunks of its sentences.
pub open spec fn split_phonemes_spec(input: Seq<char>, max_chars: Option<usize>) -> Seq<Seq<char>> {
    let t = trim(input);
    if t.len() == 0 {
        Seq::empty()
    } else {
        match max_chars {
            Some(m) if m > 0 => chunks_of_sentences(split_sentences_spec(t), m as nat),
            _ => seq![t],
        }
    }
}

/// Whether `ch` ends a sentence.
pub fn is_sentence_boundary(ch: char) -> (b: bool)
    ensures
        b == is_sentence_boundary_spec(ch),
{
    ch == '.' || ch == '!' || ch == '?' || ch == ';' || ch == '…' || ch == '।' || ch == '؟' || ch
        == '。'
}

/// Adds the trimmed `value` to `items` unless it is empty.
pub fn push_trimmed(items: &mut Vec<Vec<char>>, value: &[char])
    ensures
        seqs_of(final(items)@) == push_trimmed_spec(seqs_of(old(items)@), value@),
{
    let t = trim_chars(value);
    if t.len() > 0 {
        let ghost before = items@;
        let ghost tv = t@;
        items.push(t);
        assert(seqs_of(items@) == seqs_of(before).push(tv));
    }
}

/// Moves a non-empty `current` word into `words`.
pub fn push_word(words: &mut Vec<Vec<char>>, current: &mut Vec<char>)
    ensures
        seqs_of(final(words)@) == flush_word(seqs_of(old(words)@), old(current)@),
        final(current)@ == Seq::<char>::empty(),
{
    if current.len() > 0 {
        let ghost before = words@;
        let mut w: Vec<char> = Vec::new();
        std::mem::swap(&mut w, current);
        let ghost wv = w@;
        words.push(w);
        assert(seqs_of(words@) == seqs_of(before).push(wv));
    }
    assert(current@ == Seq::<char>::empty());
}

/// Splits after sentence-ending punctuation outside a `<…>` literal.
pub fn split_sentences(input: &[char]) -> (out: Vec<Vec<char>>)
    ensures
        seqs_of(out@) == split_sentences_spec(input@),
{
    let mut sentences: Vec<Vec<char>> = Vec::new();
    let mut cur: Vec<char> = Vec::new();
    let mut in_tag = false;
    let mut i: usize = 0;
    assert(input@.skip(0) == input@);
    assert(seqs_of(sentences@) == Seq::<Seq<char>>::empty());
    while i < input.len()
        invariant
            i <= input@.len(),
            sentences_from(input@.skip(i as int), seqs_of(sentences@), cur@, in_tag)
                == split_sentences_spec(input@),
        decreases input.len() - i,
    {
        let c = input[i];
        assert(input@.skip(i as int).drop_first() == input@.skip(i + 1));
        assert(input@.skip(i as int)[0] == c);
        cur.push(c);
        if c == '<' {
            in_tag = true;
        } else if c == '>' && in_tag {
            in_tag = false;
        } else if !in_tag && is_sentence_boundary(c) {
            push_trimmed(&mut sentences, cur.as_slice());
            cur = Vec::new();
            assert(cur@ == Seq::<char>::empty());
        }
        i += 1;
    }
    push_trimmed(&mut sentences, cur.as_slice());
    sentences
}

/// Splits on white space outside a `<…>` literal.
pub fn split_words_preserving_tags(input: &[char]) -> (out: Vec<Vec<char>>)
    ensures
        seqs_of(out@) == tag_words(input@),
{
    let mut words: Vec<Vec<char>> = Vec::new();
    let mut cur: Vec<char> = Vec::new();
    let mut in_tag = false;
    let mut i: usize = 0;
    assert(input@.skip(0) == input@);
    assert(seqs_of(words@) == Seq::<Seq<char>>::empty());
    while i < input.len()
        invariant
            i <= input@.len(),
            tag_words_from(input@.skip(i as int), seqs_of(words@), cur@, in_tag) == tag_words(
                input@,
            ),
        decreases input.len() - i,
    {
        let c = input[i];
        assert(input@.skip(i as int).drop_first() == input@.skip(i + 1));
        assert(input@.skip(i as int)[0] == c);
        if c == '<' {
            in_tag = true;
            cur.push(c);
        } else if c == '>' && in_tag {
            in_tag = false;
            cur.push(c);
        } else if !in_tag && is_whitespace(c) {
            push_word(&mut words, &mut cur);
        } else {
            cur.push(c);
        }
        i += 1;
    }
    push_word(&mut words, &mut cur);
    words
}

/// The length of the unit at `index`: up to and including the first `>`
/// when a `<` starts there, one character otherwise.
fn unit_len_at(token: &[char], index: usize) -> (k: usize)
    requires
        index < token@.len(),
    ensures
        k == unit_len(token@.skip(index as int)),
        1 <= k <= token@.len() - index,
{
    let ghost rest = token@.skip(index as int);
    proof {
        lemma_first_gt(rest);
    }
    if token[index] != '<' {
        return 1;
    }
    let mut j: usize = index + 1;
    while j < token.len() && token[j] != '>'
        invariant
            index < j <= token@.len(),
            rest == token@.skip(index as int),
            forall|m: int| 0 <= m < j - index ==> rest[m] != '>',
        decreases token.len() - j,
    {
        j += 1;
    }
    if j < token.len() {
        assert(rest[j - index] == '>');
        assert(first_gt(rest) == Some((j - index) as int));
        j - index + 1
    } else {
        assert(first_gt(rest) is None);
        1
    }
}

/// Hard-splits an overlong token without cutting a `<…>` literal.
pub fn hard_split_token(token: &[char], max_chars: usize) -> (out: Vec<Vec<char>>)
    ensures
        seqs_of(out@) == hard_split_spec(token@, max_chars as nat),
{
    let mut chunks: Vec<Vec<char>> = Vec::new();
    let mut cur: Vec<char> = Vec::new();
    let mut index: usize = 0;
    let ghost max = max_chars as nat;
    assert(token@.skip(0) == token@);
    assert(seqs_of(chunks@) == Seq::<Seq<char>>::empty());
    while index < token.len()
        invariant
            index <= token@.len(),
            max == max_chars as nat,
            hard_split_from(units(token@.skip(index as int)), seqs_of(chunks@), cur@, max)
                == hard_split_spec(token@, max),
        decreases token.len() - index,
    {
        let k = unit_len_at(token, index);
        let ghost rest = token@.skip(index as int);
        let ghost u = rest.take(k as int);
        assert(rest.skip(k as int) == token@.skip(index + k));
        assert(units(rest) == seq![u] + units(token@.skip(index + k)));
        assert((seq![u] + units(token@.skip(index + k))).drop_first() == units(
            token@.skip(index + k),
        ));
        let mut unit: Vec<char> = Vec::new();
        let mut m: usize = 0;
        while m < k
            invariant
                m <= k <= token@.len() - index,
                index + k <= token.len(),
                unit@ == token@.subrange(index as int, index + m),
            decreases k - m,
        {
            unit.push(token[index + m]);
            m += 1;
            assert(unit@ == token@.subrange(index as int, index + m));
        }
        assert(unit@ == u);
        if cur.len() > 0 && (cur.len() > max_chars || k > max_chars - cur.len()) {
            let ghost before = chunks@;
            let ghost cv = cur@;
            chunks.push(cur);
            assert(seqs_of(chunks@) == seqs_of(before).push(cv));
            cur = unit;
        } else {
            append_chars(&mut cur, unit.as_slice());
        }
        index += k;
    }
    push_word(&mut chunks, &mut cur);
    chunks
}

/// Greedily packs the words of `sentence` into `chunks`.
pub fn pack_sentence(sentence: &[char], max_chars: usize, chunks: &mut Vec<Vec<char>>)
    ensures
        seqs_of(final(chunks)@) == seqs_of(old(chunks)@) + sentence_chunks(
            sentence@,
            max_chars as nat,
        ),
{
    let words = split_words_preserving_tags(sentence);
    let ghost ws = seqs_of(words@);
    let ghost max = max_chars as nat;
    let mut local: Vec<Vec<char>> = Vec::new();
    let mut cur: Vec<char> = Vec::new();
    let mut i: usize = 0;
    assert(ws.skip(0) == ws);
    assert(seqs_of(local@) == Seq::<Seq<char>>::empty());
    while i < words.len()
        invariant
            i <= words@.len(),
            ws == seqs_of(words@),
            max == max_chars as nat,
            pack_from(ws.skip(i as int), seqs_of(local@), cur@, max) == sentence_chunks(
                sentence@,
                max,
            ),
        decreases words.len() - i,
    {
        let word = &words[i];
        let word_len = word.len();
        assert(ws.skip(i as int).drop_first() == ws.skip(i + 1));
        assert(ws.skip(i as int)[0] == word@);
        if cur.len() > 0 && (cur.len() >= max_chars || word_len > max_chars - cur.len() - 1) {
            let ghost before = local@;
            let ghost cv = cur@;
            local.push(cur);
            assert(seqs_of(local@) == seqs_of(before).push(cv));
            cur = Vec::new();
        }
        assert(cur@.len() == 0 ==> cur@ == Seq::<char>::empty());
        if word_len > max_chars {
            push_word(&mut local, &mut cur);
            let pieces = hard_split_token(word.as_slice(), max_chars);
            let ghost before = local@;
            let mut p: usize = 0;
            while p < pieces.len()
                invariant
                    p <= pieces@.len(),
                    seqs_of(local@) == seqs_of(before) + seqs_of(pieces@).take(p as int),
                decreases pieces.len() - p,
            {
                let ghost mid = local@;
                local.push(pieces[p].clone());
                assert(seqs_of(local@) == seqs_of(mid).push(pieces@[p as int]@));
                assert(seqs_of(pieces@).take(p + 1) == seqs_of(pieces@).take(p as int).push(
                    pieces@[p as int]@,
                ));
                p += 1;
            }
            assert(seqs_of(pieces@).take(pieces.len() as int) == seqs_of(pieces@));
        } else {
            if cur.len() > 0 {
                cur.push(' ');
            }
            append_chars(&mut cur, word.as_slice());
        }
        i += 1;
    }
    push_word(&mut local, &mut cur);
    let ghost before = chunks@;
    let mut p: usize = 0;
    while p < local.len()
        invariant
            p <= local@.len(),
            seqs_of(chunks@) == seqs_of(before) + seqs_of(local@).take(p as int),
        decreases local.len() - p,
    {
        let ghost mid = chunks@;
        chunks.push(local[p].clone());
        assert(seqs_of(chunks@) == seqs_of(mid).push(local@[p as int]@));
        assert(seqs_of(local@).take(p + 1) == seqs_of(local@).take(p as int).push(
            local@[p as int]@,
        ));
        p += 1;
    }
    assert(seqs_of(local@).take(local.len() as int) == seqs_of(local@));
}

/// Splits phoneme input into chunks of at most `max_chars` characters where
/// possible: nothing for blank input, the whole trimmed input without a
/// positive limit, otherwise sentence by sentence.
pub fn split_phonemes(input: &str, max_chars: Option<usize>) -> (out: Vec<String>)
    ensures
        seqs_of_strings(out@) == split_phonemes_spec(input@, max_chars),
{
    let v = chars_of(input);
    let t = trim_chars(v.as_slice());
    if t.len() == 0 {
        let out: Vec<String> = Vec::new();
        assert(seqs_of_strings(out@) == Seq::<Seq<char>>::empty());
        return out;
    }
    let max = match max_chars {
        Some(m) if m > 0 => m,
        _ => {
            let mut out: Vec<String> = Vec::new();
            out.push(string_of(t.as_slice()));
            assert(seqs_of_strings(out@) == seq![t@]);
            return out;
        },
    };
    let sentences = split_sentences(t.as_slice());
    let ghost ss = seqs_of(sentences@);
    let mut chunks: Vec<Vec<char>> = Vec::new();
    let mut i: usize = 0;
    assert(ss.skip(0) == ss);
    assert(seqs_of(chunks@) == Seq::<Seq<char>>::empty());
    while i < sentences.len()
        invariant
            i <= sentences@.len(),
            ss == seqs_of(sentences@),
            seqs_of(chunks@) + chunks_of_sentences(ss.skip(i as int), max as nat)
                == chunks_of_sentences(ss, max as nat),
        decreases sentences.len() - i,
    {
        let ghost before = seqs_of(chunks@);
        pack_sentence(sentences[i].as_slice(), max, &mut chunks);
        assert(ss.skip(i as int).drop_first() == ss.skip(i + 1));
        assert(ss.skip(i as int)[0] == sentences@[i as int]@);
        assert(chunks_of_sentences(ss.skip(i as int), max as nat) == sentence_chunks(
            sentences@[i as int]@,
            max as nat,
        ) + chunks_of_sentences(ss.skip(i + 1), max as nat));
        assert(seqs_of(chunks@) + chunks_of_sentences(ss.skip(i + 1), max as nat) == before
            + chunks_of_sentences(ss.skip(i as int), max as nat));
        i += 1;
    }
    assert(chunks_of_sentences(ss.skip(sentences.len() as int), max as nat) == Seq::<
        Seq<char>,
    >::empty());
    assert(seqs_of(chunks@) == chunks_of_sentences(ss, max as nat));
    strings_of(chunks)
}


/// A `<…>` literal of at least two characters whose only `>` is its last.
pub open spec fn is_tag_literal(c: Seq<char>) -> bool {
    c.len() >= 2 && c[0] == '<' && first_gt(c) == Some(c.len() - 1)
}

/// A chunk is non-empty and within `max` characters, unless it is one
/// `<…>` literal that is longer by itself.
pub open spec fn chunk_within_limit(c: Seq<char>, max: nat) -> bool {
    c.len() > 0 && (c.len() <= max || is_tag_literal(c))
}

/// A unit is one character or one `<…>` literal.
pub open spec fn unit_ok(u: Seq<char>) -> bool {
    u.len() == 1 || is_tag_literal(u)
}

proof fn lemma_tag_words_nonempty(s: Seq<char>, words: Seq<Seq<char>>, cur: Seq<char>, in_tag: bool)
    requires
        forall|i: int| 0 <= i < words.len() ==> #[trigger] words[i].len() > 0,
    ensures
        forall|i: int|
            0 <= i < tag_words_from(s, words, cur, in_tag).len() ==> #[trigger] tag_words_from(
                s,
                words,
                cur,
                in_tag,
            )[i].len() > 0,
    decreases s.len(),
{
    if s.len() == 0 {
        let r = flush_word(words, cur);
        assert forall|i: int| 0 <= i < r.len() implies #[trigger] r[i].len() > 0 by {
            if i < words.len() {
                assert(r[i] == words[i]);
            }
        }
        assert(tag_words_from(s, words, cur, in_tag) == r);
        assert(forall|i: int| 0 <= i < tag_words_from(s, words, cur, in_tag).len() ==> #[trigger] tag_words_from(s, words, cur, in_tag)[i].len() > 0);
    } else {
        let c = s[0];
        let rest = s.drop_first();
        if c == '<' {
            lemma_tag_words_nonempty(rest, words, cur.push(c), true);
            assert(tag_words_from(s, words, cur, in_tag) == tag_words_from(rest, words, cur.push(c), true));
        } else if c == '>' && in_tag {
            lemma_tag_words_nonempty(rest, words, cur.push(c), false);
            assert(tag_words_from(s, words, cur, in_tag) == tag_words_from(rest, words, cur.push(c), false));
        } else if !in_tag && is_white_space(c) {
            lemma_tag_words_nonempty(rest, flush_word(words, cur), Seq::empty(), in_tag);
            assert(tag_words_from(s, words, cur, in_tag) == tag_words_from(rest, flush_word(words, cur), Seq::empty(), in_tag));
        } else {
            lemma_tag_words_nonempty(rest, words, cur.push(c), in_tag);
            assert(tag_words_from(s, words, cur, in_tag) == tag_words_from(rest, words, cur.push(c), in_tag));
        }
    }
}

proof fn lemma_units_ok(s: Seq<char>)
    ensures
        forall|i: int| 0 <= i < units(s).len() ==> unit_ok(#[trigger] units(s)[i]),
    decreases s.len(),
{
    if s.len() > 0 {
        lemma_unit_len(s);
        let k = unit_len(s);
        let u = s.take(k);
        lemma_units_ok(s.skip(k));
        if k > 1 {
            lemma_first_gt(s);
            lemma_first_gt(u);
            assert(u[k - 1] == '>');
        }
        assert(unit_ok(u));
        assert forall|i: int| 0 <= i < units(s).len() implies unit_ok(#[trigger] units(s)[i]) by {
            if i > 0 {
                assert(units(s)[i] == units(s.skip(k))[i - 1]);
            }
        }
    }
}

proof fn lemma_hard_split_within(us: Seq<Seq<char>>, chunks: Seq<Seq<char>>, cur: Seq<char>, max: nat)
    requires
        max > 0,
        forall|i: int| 0 <= i < us.len() ==> unit_ok(#[trigger] us[i]),
        forall|i: int| 0 <= i < chunks.len() ==> chunk_within_limit(#[trigger] chunks[i], max),
        cur.len() == 0 || chunk_within_limit(cur, max),
    ensures
        forall|i: int|
            0 <= i < hard_split_from(us, chunks, cur, max).len() ==> chunk_within_limit(
                #[trigger] hard_split_from(us, chunks, cur, max)[i],
                max,
            ),
    decreases us.len(),
{
    if us.len() == 0 {
        let r = flush_word(chunks, cur);
        assert forall|i: int| 0 <= i < r.len() implies chunk_within_limit(#[trigger] r[i], max) by {
            if i < chunks.len() {
                assert(r[i] == chunks[i]);
            }
        }
    } else {
        let u = us[0];
        assert(unit_ok(u));
        assert forall|i: int| 0 <= i < us.drop_first().len() implies unit_ok(
            #[trigger] us.drop_first()[i],
        ) by {
            assert(us.drop_first()[i] == us[i + 1]);
        }
        if cur.len() > 0 && cur.len() + u.len() > max {
            lemma_hard_split_within(us.drop_first(), chunks.push(cur), u, max);
            assert(hard_split_from(us, chunks, cur, max) == hard_split_from(us.drop_first(), chunks.push(cur), u, max));
        } else {
            lemma_hard_split_within(us.drop_first(), chunks, cur + u, max);
            assert(hard_split_from(us, chunks, cur, max) == hard_split_from(us.drop_first(), chunks, cur + u, max));
        }
    }
}

proof fn lemma_pack_within(ws: Seq<Seq<char>>, chunks: Seq<Seq<char>>, cur: Seq<char>, max: nat)
    requires
        max > 0,
        forall|i: int| 0 <= i < ws.len() ==> #[trigger] ws[i].len() > 0,
        forall|i: int| 0 <= i < chunks.len() ==> chunk_within_limit(#[trigger] chunks[i], max),
        cur.len() <= max,
    ensures
        forall|i: int|
            0 <= i < pack_from(ws, chunks, cur, max).len() ==> chunk_within_limit(
                #[trigger] pack_from(ws, chunks, cur, max)[i],
                max,
            ),
    decreases ws.len(),
{
    if ws.len() == 0 {
        let r = flush_word(chunks, cur);
        assert forall|i: int| 0 <= i < r.len() implies chunk_within_limit(#[trigger] r[i], max) by {
            if i < chunks.len() {
                assert(r[i] == chunks[i]);
            }
        }
    } else {
        let w = ws[0];
        assert(w.len() > 0);
        assert forall|i: int| 0 <= i < ws.drop_first().len() implies #[trigger] ws.drop_first()[
            i
        ].len() > 0 by {
            assert(ws.drop_first()[i] == ws[i + 1]);
        }
        let full = cur.len() > 0 && cur.len() + 1 + w.len() > max;
        let chunks1 = if full {
            chunks.push(cur)
        } else {
            chunks
        };
        let cur1 = if full {
            Seq::empty()
        } else {
            cur
        };
        if w.len() > max {
            let hs = hard_split_spec(w, max);
            lemma_units_ok(w);
            lemma_hard_split_within(units(w), Seq::empty(), Seq::empty(), max);
            let next = flush_word(chunks1, cur1) + hs;
            assert forall|i: int| 0 <= i < next.len() implies chunk_within_limit(
                #[trigger] next[i],
                max,
            ) by {
                if i >= flush_word(chunks1, cur1).len() {
                    assert(next[i] == hs[i - flush_word(chunks1, cur1).len()]);
                }
            }
            lemma_pack_within(ws.drop_first(), next, Seq::empty(), max);
            assert(pack_from(ws, chunks, cur, max) == pack_from(ws.drop_first(), next, Seq::empty(), max));
        } else if cur1.len() > 0 {
            lemma_pack_within(ws.drop_first(), chunks1, cur1.push(' ') + w, max);
            assert(pack_from(ws, chunks, cur, max) == pack_from(ws.drop_first(), chunks1, cur1.push(' ') + w, max));
        } else {
            lemma_pack_within(ws.drop_first(), chunks1, w, max);
            assert(pack_from(ws, chunks, cur, max) == pack_from(ws.drop_first(), chunks1, w, max));
        }
    }
}

proof fn lemma_sentences_within(ss: Seq<Seq<char>>, max: nat)
    requires
        max > 0,
    ensures
        forall|i: int|
            0 <= i < chunks_of_sentences(ss, max).len() ==> chunk_within_limit(
                #[trigger] chunks_of_sentences(ss, max)[i],
                max,
            ),
    decreases ss.len(),
{
    if ss.len() > 0 {
        let first = sentence_chunks(ss[0], max);
        lemma_tag_words_nonempty(ss[0], Seq::empty(), Seq::empty(), false);
        lemma_pack_within(tag_words(ss[0]), Seq::empty(), Seq::empty(), max);
        lemma_sentences_within(ss.drop_first(), max);
        let all = chunks_of_sentences(ss, max);
        assert forall|i: int| 0 <= i < all.len() implies chunk_within_limit(#[trigger] all[i], max) by {
            if i >= first.len() {
                assert(all[i] == chunks_of_sentences(ss.drop_first(), max)[i - first.len()]);
            }
        }
    }
}

/// Every chunk is non-empty and holds at most `max_chars` characters; the
/// only exception is a chunk that is a single `<…>` literal longer than the
/// limit, which is never cut.
pub proof fn law_chunks_within_limit(input: Seq<char>, max_chars: usize)
    requires
        max_chars > 0,
    ensures
        forall|i: int|
            0 <= i < split_phonemes_spec(input, Some(max_chars)).len() ==> chunk_within_limit(
                #[trigger] split_phonemes_spec(input, Some(max_chars))[i],
                max_chars as nat,
            ),
{
    lemma_sentences_within(split_sentences_spec(trim(input)), max_chars as nat);
}

/// Without a positive limit the trimmed input is returned whole, and blank
/// input gives no chunk at all.
pub proof fn law_no_limit_keeps_input_whole(input: Seq<char>, max_chars: Option<usize>)
    requires
        max_chars matches Some(m) ==> m == 0,
    ensures
        trim(input).len() == 0 ==> split_phonemes_spec(input, max_chars) == Seq::<Seq<char>>::empty(),
        trim(input).len() > 0 ==> split_phonemes_spec(input, max_chars) == seq![trim(input)],
{
}

proof fn lemma_flatten_units(s: Seq<char>)
    ensures
        units(s).flatten() == s,
    decreases s.len(),
{
    if s.len() > 0 {
        lemma_unit_len(s);
        let k = unit_len(s);
        lemma_flatten_units(s.skip(k));
        assert(units(s).drop_first() == units(s.skip(k)));
        assert(s.take(k) + s.skip(k) == s);
    }
}

proof fn lemma_hard_split_content(us: Seq<Seq<char>>, chunks: Seq<Seq<char>>, cur: Seq<char>, max: nat)
    ensures
        hard_split_from(us, chunks, cur, max).flatten() == chunks.flatten() + cur + us.flatten(),
    decreases us.len(),
{
    if us.len() == 0 {
        if cur.len() > 0 {
            chunks.lemma_flatten_push(cur);
        }
        assert(chunks.flatten() + cur + us.flatten() == chunks.flatten() + cur);
        assert(cur.len() == 0 ==> chunks.flatten() + cur == chunks.flatten());
    } else {
        let u = us[0];
        if cur.len() > 0 && cur.len() + u.len() > max {
            lemma_hard_split_content(us.drop_first(), chunks.push(cur), u, max);
            chunks.lemma_flatten_push(cur);
        } else {
            lemma_hard_split_content(us.drop_first(), chunks, cur + u, max);
        }
        assert(us.flatten() == u + us.drop_first().flatten());
    }
}

/// Hard splitting loses nothing: the pieces of a token put back together
/// give the token.
pub proof fn law_hard_split_keeps_content(token: Seq<char>, max_chars: nat)
    ensures
        hard_split_spec(token, max_chars).flatten() == token,
{
    lemma_hard_split_content(units(token), Seq::empty(), Seq::empty(), max_chars);
    lemma_flatten_units(token);
    assert(Seq::<Seq<char>>::empty().flatten() == Seq::<char>::empty());
}


/// `s` without its white space.
pub open spec fn without_white_space(s: Seq<char>) -> Seq<char> {
    s.filter(|c: char| !is_white_space(c))
}

proof fn lemma_ws_add(a: Seq<char>, b: Seq<char>)
    ensures
        without_white_space(a + b) == without_white_space(a) + without_white_space(b),
{
    Seq::filter_distributes_over_add(a, b, |c: char| !is_white_space(c));
}

proof fn lemma_ws_one(c: char)
    ensures
        without_white_space(seq![c]) == if is_white_space(c) {
            Seq::<char>::empty()
        } else {
            seq![c]
        },
{
    reveal_with_fuel(Seq::filter, 2);
    assert(seq![c].drop_last() == Seq::<char>::empty());
}

proof fn lemma_ws_empty()
    ensures
        without_white_space(Seq::<char>::empty()) == Seq::<char>::empty(),
{
    reveal(Seq::filter);
}

proof fn lemma_ws_trim_start(s: Seq<char>)
    ensures
        without_white_space(trim_start(s)) == without_white_space(s),
    decreases s.len(),
{
    if s.len() > 0 && is_white_space(s[0]) {
        lemma_ws_trim_start(s.drop_first());
        assert(s == seq![s[0]] + s.drop_first());
        lemma_ws_add(seq![s[0]], s.drop_first());
        lemma_ws_one(s[0]);
        assert(Seq::<char>::empty() + without_white_space(s.drop_first()) == without_white_space(
            s.drop_first(),
        ));
    }
}

proof fn lemma_ws_trim_end(s: Seq<char>)
    ensures
        without_white_space(trim_end(s)) == without_white_space(s),
    decreases s.len(),
{
    if s.len() > 0 && is_white_space(s.last()) {
        lemma_ws_trim_end(s.drop_last());
        assert(s == s.drop_last() + seq![s.last()]);
        lemma_ws_add(s.drop_last(), seq![s.last()]);
        lemma_ws_one(s.last());
        assert(without_white_space(s.drop_last()) + Seq::<char>::empty() == without_white_space(
            s.drop_last(),
        ));
    }
}

proof fn lemma_ws_trim(s: Seq<char>)
    ensures
        without_white_space(trim(s)) == without_white_space(s),
        trim(s).len() == 0 ==> without_white_space(s) == Seq::<char>::empty(),
{
    lemma_ws_trim_start(s);
    lemma_ws_trim_end(trim_start(s));
    if trim(s).len() == 0 {
        assert(trim(s) == Seq::<char>::empty());
        lemma_ws_empty();
    }
}

proof fn lemma_ws_push(cur: Seq<char>, c: char)
    ensures
        without_white_space(cur.push(c)) == without_white_space(cur) + without_white_space(seq![c]),
{
    assert(cur.push(c) == cur + seq![c]);
    lemma_ws_add(cur, seq![c]);
}

proof fn lemma_ws_push_trimmed(items: Seq<Seq<char>>, value: Seq<char>)
    ensures
        without_white_space(push_trimmed_spec(items, value).flatten()) == without_white_space(
            items.flatten(),
        ) + without_white_space(value),
{
    lemma_ws_trim(value);
    if trim(value).len() > 0 {
        items.lemma_flatten_push(trim(value));
        lemma_ws_add(items.flatten(), trim(value));
    } else {
        assert(without_white_space(items.flatten()) + Seq::<char>::empty() == without_white_space(
            items.flatten(),
        ));
    }
}

proof fn lemma_ws_flush(words: Seq<Seq<char>>, cur: Seq<char>)
    ensures
        without_white_space(flush_word(words, cur).flatten()) == without_white_space(
            words.flatten(),
        ) + without_white_space(cur),
{
    if cur.len() > 0 {
        words.lemma_flatten_push(cur);
        lemma_ws_add(words.flatten(), cur);
    } else {
        assert(cur == Seq::<char>::empty());
        lemma_ws_empty();
        assert(without_white_space(words.flatten()) + Seq::<char>::empty() == without_white_space(
            words.flatten(),
        ));
    }
}

/// The step shared by the character scanners: `c` moves from the input to
/// the current piece.
proof fn lemma_ws_step(acc: Seq<char>, cur: Seq<char>, s: Seq<char>)
    requires
        s.len() > 0,
    ensures
        acc + without_white_space(cur.push(s[0])) + without_white_space(s.drop_first()) == acc
            + without_white_space(cur) + without_white_space(s),
{
    lemma_ws_push(cur, s[0]);
    assert(s == seq![s[0]] + s.drop_first());
    lemma_ws_add(seq![s[0]], s.drop_first());
    assert(acc + (without_white_space(cur) + without_white_space(seq![s[0]]))
        + without_white_space(s.drop_first()) == acc + without_white_space(cur) + (
    without_white_space(seq![s[0]]) + without_white_space(s.drop_first())));
}

proof fn lemma_ws_sentences(s: Seq<char>, sentences: Seq<Seq<char>>, cur: Seq<char>, in_tag: bool)
    ensures
        without_white_space(sentences_from(s, sentences, cur, in_tag).flatten())
            == without_white_space(sentences.flatten()) + without_white_space(cur)
            + without_white_space(s),
    decreases s.len(),
{
    if s.len() == 0 {
        lemma_ws_push_trimmed(sentences, cur);
        lemma_ws_empty();
        assert(without_white_space(s) == Seq::<char>::empty());
    } else {
        let c = s[0];
        let rest = s.drop_first();
        let a = without_white_space(sentences.flatten());
        lemma_ws_step(a, cur, s);
        if c == '<' {
            lemma_ws_sentences(rest, sentences, cur.push(c), true);
        } else if c == '>' && in_tag {
            lemma_ws_sentences(rest, sentences, cur.push(c), false);
        } else if !in_tag && is_sentence_boundary_spec(c) {
            let next = push_trimmed_spec(sentences, cur.push(c));
            lemma_ws_sentences(rest, next, Seq::empty(), in_tag);
            lemma_ws_push_trimmed(sentences, cur.push(c));
            lemma_ws_empty();
            assert(without_white_space(next.flatten()) + Seq::<char>::empty() + without_white_space(
                rest,
            ) == a + without_white_space(cur.push(c)) + without_white_space(rest));
        } else {
            lemma_ws_sentences(rest, sentences, cur.push(c), in_tag);
        }
    }
}

proof fn lemma_ws_tag_words(s: Seq<char>, words: Seq<Seq<char>>, cur: Seq<char>, in_tag: bool)
    ensures
        without_white_space(tag_words_from(s, words, cur, in_tag).flatten())
            == without_white_space(words.flatten()) + without_white_space(cur)
            + without_white_space(s),
    decreases s.len(),
{
    if s.len() == 0 {
        lemma_ws_flush(words, cur);
        lemma_ws_empty();
        assert(without_white_space(s) == Seq::<char>::empty());
    } else {
        let c = s[0];
        let rest = s.drop_first();
        let a = without_white_space(words.flatten());
        lemma_ws_step(a, cur, s);
        if c == '<' {
            lemma_ws_tag_words(rest, words, cur.push(c), true);
        } else if c == '>' && in_tag {
            lemma_ws_tag_words(rest, words, cur.push(c), false);
        } else if !in_tag && is_white_space(c) {
            let next = flush_word(words, cur);
            lemma_ws_tag_words(rest, next, Seq::empty(), in_tag);
            lemma_ws_flush(words, cur);
            lemma_ws_empty();
            lemma_ws_push(cur, c);
            lemma_ws_one(c);
            assert(without_white_space(cur.push(c)) == without_white_space(cur));
            assert(without_white_space(next.flatten()) + Seq::<char>::empty() + without_white_space(
                rest,
            ) == a + without_white_space(cur.push(c)) + without_white_space(rest));
        } else {
            lemma_ws_tag_words(rest, words, cur.push(c), in_tag);
        }
    }
}

proof fn lemma_ws_pack(ws: Seq<Seq<char>>, chunks: Seq<Seq<char>>, cur: Seq<char>, max: nat)
    ensures
        without_white_space(pack_from(ws, chunks, cur, max).flatten()) == without_white_space(
            chunks.flatten(),
        ) + without_white_space(cur) + without_white_space(ws.flatten()),
    decreases ws.len(),
{
    if ws.len() == 0 {
        lemma_ws_flush(chunks, cur);
        lemma_ws_empty();
        assert(ws.flatten() == Seq::<char>::empty());
    } else {
        let w = ws[0];
        let rest = ws.drop_first();
        assert(ws.flatten() == w + rest.flatten());
        lemma_ws_add(w, rest.flatten());
        let full = cur.len() > 0 && cur.len() + 1 + w.len() > max;
        let chunks1 = if full {
            chunks.push(cur)
        } else {
            chunks
        };
        let cur1 = if full {
            Seq::empty()
        } else {
            cur
        };
        lemma_ws_empty();
        if full {
            chunks.lemma_flatten_push(cur);
            lemma_ws_add(chunks.flatten(), cur);
        }
        assert(without_white_space(chunks1.flatten()) + without_white_space(cur1)
            == without_white_space(chunks.flatten()) + without_white_space(cur));
        let a = without_white_space(chunks.flatten()) + without_white_space(cur);
        if w.len() > max {
            let hs = hard_split_spec(w, max);
            let next = flush_word(chunks1, cur1) + hs;
            lemma_ws_pack(rest, next, Seq::empty(), max);
            lemma_flatten_concat(flush_word(chunks1, cur1), hs);
            law_hard_split_keeps_content(w, max);
            lemma_ws_flush(chunks1, cur1);
            lemma_ws_add(flush_word(chunks1, cur1).flatten(), w);
            assert(without_white_space(next.flatten()) + Seq::<char>::empty() + without_white_space(
                rest.flatten(),
            ) == a + (without_white_space(w) + without_white_space(rest.flatten())));
        } else if cur1.len() > 0 {
            let next = cur1.push(' ') + w;
            lemma_ws_pack(rest, chunks1, next, max);
            lemma_ws_add(cur1.push(' '), w);
            lemma_ws_push(cur1, ' ');
            lemma_ws_one(' ');
            assert(without_white_space(cur1.push(' ')) == without_white_space(cur1));
            assert(without_white_space(chunks1.flatten()) + without_white_space(next)
                + without_white_space(rest.flatten()) == a + (without_white_space(w)
                + without_white_space(rest.flatten())));
        } else {
            lemma_ws_pack(rest, chunks1, w, max);
            assert(cur1 == Seq::<char>::empty());
            assert(without_white_space(chunks1.flatten()) + without_white_space(w)
                + without_white_space(rest.flatten()) == a + (without_white_space(w)
                + without_white_space(rest.flatten())));
        }
    }
}

proof fn lemma_ws_sentence_chunks(sentence: Seq<char>, max: nat)
    ensures
        without_white_space(sentence_chunks(sentence, max).flatten()) == without_white_space(
            sentence,
        ),
{
    lemma_ws_empty();
    let e = Seq::<Seq<char>>::empty();
    assert(e.flatten() == Seq::<char>::empty());
    lemma_ws_pack(tag_words(sentence), e, Seq::empty(), max);
    lemma_ws_tag_words(sentence, e, Seq::empty(), false);
    assert(Seq::<char>::empty() + Seq::<char>::empty() + without_white_space(sentence)
        == without_white_space(sentence));
    assert(Seq::<char>::empty() + Seq::<char>::empty() + without_white_space(
        tag_words(sentence).flatten(),
    ) == without_white_space(tag_words(sentence).flatten()));
}

proof fn lemma_ws_chunks_of_sentences(ss: Seq<Seq<char>>, max: nat)
    ensures
        without_white_space(chunks_of_sentences(ss, max).flatten()) == without_white_space(
            ss.flatten(),
        ),
    decreases ss.len(),
{
    if ss.len() == 0 {
        assert(chunks_of_sentences(ss, max).flatten() == Seq::<char>::empty());
        assert(ss.flatten() == Seq::<char>::empty());
    } else {
        let first = sentence_chunks(ss[0], max);
        let rest = chunks_of_sentences(ss.drop_first(), max);
        lemma_ws_chunks_of_sentences(ss.drop_first(), max);
        lemma_ws_sentence_chunks(ss[0], max);
        lemma_flatten_concat(first, rest);
        lemma_ws_add(first.flatten(), rest.flatten());
        assert(ss.flatten() == ss[0] + ss.drop_first().flatten());
        lemma_ws_add(ss[0], ss.drop_first().flatten());
    }
}

/// Chunking never loses, adds or reorders phoneme characters: apart from
/// white space, the chunks put together give the input.
pub proof fn law_chunks_keep_content(input: Seq<char>, max_chars: Option<usize>)
    ensures
        without_white_space(split_phonemes_spec(input, max_chars).flatten()) == without_white_space(
            input,
        ),
{
    let t = trim(input);
    lemma_ws_trim(input);
    lemma_ws_empty();
    if t.len() == 0 {
        assert(split_phonemes_spec(input, max_chars).flatten() == Seq::<char>::empty());
    } else {
        match max_chars {
            Some(m) => {
                if m > 0 {
                    lemma_ws_chunks_of_sentences(split_sentences_spec(t), m as nat);
                    let e = Seq::<Seq<char>>::empty();
                    assert(e.flatten() == Seq::<char>::empty());
                    lemma_ws_sentences(t, e, Seq::empty(), false);
                    assert(Seq::<char>::empty() + Seq::<char>::empty() + without_white_space(t)
                        == without_white_space(t));
                } else {
                    seq![t].lemma_flatten_singleton();
                }
            },
            None => {
                seq![t].lemma_flatten_singleton();
            },
        }
    }
}


/// The `<…>` state after reading `c` in state `in_tag`: `<` opens a tag
/// literal and a `>` closes an open one.
pub open spec fn next_tag_state(c: char, in_tag: bool) -> bool {
    if c == '<' {
        true
    } else if c == '>' && in_tag {
        false
    } else {
        in_tag
    }
}

/// Whether position `i` of `s` lies inside a `<…>` literal, reading `s`
/// from the state `in_tag`.
pub open spec fn tag_open_at(s: Seq<char>, in_tag: bool, i: int) -> bool
    decreases s.len(),
{
    if i <= 0 || s.len() == 0 {
        in_tag
    } else {
        tag_open_at(s.drop_first(), next_tag_state(s[0], in_tag), i - 1)
    }
}

proof fn lemma_trim_start_keeps_last(x: Seq<char>)
    requires
        x.len() > 0,
        !is_white_space(x.last()),
    ensures
        trim_start(x).len() > 0,
        trim_start(x).last() == x.last(),
    decreases x.len(),
{
    if is_white_space(x[0]) {
        assert(x.len() > 1);
        assert(x.drop_first().last() == x.last());
        lemma_trim_start_keeps_last(x.drop_first());
    }
}

/// Trimming keeps a last character that is not white space.
proof fn lemma_trim_keeps_last(x: Seq<char>)
    requires
        x.len() > 0,
        !is_white_space(x.last()),
    ensures
        trim(x).len() > 0,
        trim(x).last() == x.last(),
{
    lemma_trim_start_keeps_last(x);
}

proof fn lemma_sentences_keep_prefix(s: Seq<char>, ss: Seq<Seq<char>>, cur: Seq<char>, in_tag: bool)
    ensures
        sentences_from(s, ss, cur, in_tag).len() >= ss.len(),
        forall|j: int| 0 <= j < ss.len() ==> #[trigger] sentences_from(s, ss, cur, in_tag)[j] == ss[j],
    decreases s.len(),
{
    if s.len() > 0 {
        let c = s[0];
        let rest = s.drop_first();
        if c == '<' {
            lemma_sentences_keep_prefix(rest, ss, cur.push(c), true);
        } else if c == '>' && in_tag {
            lemma_sentences_keep_prefix(rest, ss, cur.push(c), false);
        } else if !in_tag && is_sentence_boundary_spec(c) {
            let ss2 = push_trimmed_spec(ss, cur.push(c));
            lemma_sentences_keep_prefix(rest, ss2, Seq::empty(), in_tag);
            assert forall|j: int| 0 <= j < ss.len() implies ss2[j] == ss[j] by {}
        } else {
            lemma_sentences_keep_prefix(rest, ss, cur.push(c), in_tag);
        }
    }
}

/// A sentence-ending character outside a tag literal ends a sentence.
proof fn lemma_boundary_ends_sentence(s: Seq<char>, ss: Seq<Seq<char>>, cur: Seq<char>, in_tag: bool, i: int)
    requires
        0 <= i < s.len(),
        is_sentence_boundary_spec(s[i]),
        !is_white_space(s[i]),
        !tag_open_at(s, in_tag, i),
    ensures
        exists|j: int|
            0 <= j < sentences_from(s, ss, cur, in_tag).len() && #[trigger] sentences_from(
                s,
                ss,
                cur,
                in_tag,
            )[j].len() > 0 && sentences_from(s, ss, cur, in_tag)[j].last() == s[i],
    decreases s.len(),
{
    let c = s[0];
    let rest = s.drop_first();
    let res = sentences_from(s, ss, cur, in_tag);
    if i == 0 {
        assert(c != '<' && !(c == '>' && in_tag));
        let x = cur.push(c);
        lemma_trim_keeps_last(x);
        let ss2 = push_trimmed_spec(ss, x);
        assert(ss2 == ss.push(trim(x)));
        lemma_sentences_keep_prefix(rest, ss2, Seq::empty(), in_tag);
        assert(res[ss.len() as int] == ss2[ss.len() as int]);
    } else {
        assert(rest[i - 1] == s[i]);
        assert(tag_open_at(s, in_tag, i) == tag_open_at(rest, next_tag_state(c, in_tag), i - 1));
        if c == '<' {
            lemma_boundary_ends_sentence(rest, ss, cur.push(c), true, i - 1);
        } else if c == '>' && in_tag {
            lemma_boundary_ends_sentence(rest, ss, cur.push(c), false, i - 1);
        } else if !in_tag && is_sentence_boundary_spec(c) {
            lemma_boundary_ends_sentence(
                rest,
                push_trimmed_spec(ss, cur.push(c)),
                Seq::empty(),
                in_tag,
                i - 1,
            );
        } else {
            lemma_boundary_ends_sentence(rest, ss, cur.push(c), in_tag, i - 1);
        }
    }
}

/// The last word of a text that ends in a character other than white
/// space ends with that character.
proof fn lemma_last_word(s: Seq<char>, words: Seq<Seq<char>>, cur: Seq<char>, in_tag: bool)
    requires
        s.len() > 0,
        !is_white_space(s.last()),
    ensures
        tag_words_from(s, words, cur, in_tag).len() > 0,
        tag_words_from(s, words, cur, in_tag).last().len() > 0,
        tag_words_from(s, words, cur, in_tag).last().last() == s.last(),
    decreases s.len(),
{
    let c = s[0];
    let rest = s.drop_first();
    if s.len() == 1 {
        assert(c == s.last());
        assert(rest.len() == 0);
    } else {
        assert(rest.last() == s.last());
        if c == '<' {
            lemma_last_word(rest, words, cur.push(c), true);
        } else if c == '>' && in_tag {
            lemma_last_word(rest, words, cur.push(c), false);
        } else if !in_tag && is_white_space(c) {
            lemma_last_word(rest, flush_word(words, cur), Seq::empty(), in_tag);
        } else {
            lemma_last_word(rest, words, cur.push(c), in_tag);
        }
    }
}

/// The units of a non-empty text are non-empty and the last one ends the
/// text.
proof fn lemma_units_last(s: Seq<char>)
    requires
        s.len() > 0,
    ensures
        units(s).len() > 0,
        units(s).last().len() > 0,
        units(s).last().last() == s.last(),
    decreases s.len(),
{
    lemma_unit_len(s);
    let k = unit_len(s);
    let rest = s.skip(k);
    if rest.len() == 0 {
        assert(units(rest) == Seq::<Seq<char>>::empty());
        assert(units(s) == seq![s.take(k)]);
        assert(s.take(k).last() == s[k - 1]);
    } else {
        lemma_units_last(rest);
        assert(units(s).last() == units(rest).last());
        assert(rest.last() == s.last());
    }
}

proof fn lemma_hard_split_last(us: Seq<Seq<char>>, chunks: Seq<Seq<char>>, cur: Seq<char>, max: nat)
    requires
        us.len() > 0,
        us.last().len() > 0,
    ensures
        hard_split_from(us, chunks, cur, max).len() > 0,
        hard_split_from(us, chunks, cur, max).last().len() > 0,
        hard_split_from(us, chunks, cur, max).last().last() == us.last().last(),
    decreases us.len(),
{
    let u = us[0];
    let rest = us.drop_first();
    let full = cur.len() > 0 && cur.len() + u.len() > max;
    if us.len() == 1 {
        assert(u == us.last());
        assert(rest.len() == 0);
        if full {
            assert(hard_split_from(us, chunks, cur, max) == flush_word(chunks.push(cur), u));
        } else {
            assert(hard_split_from(us, chunks, cur, max) == flush_word(chunks, cur + u));
            assert((cur + u).last() == u.last());
        }
    } else {
        assert(rest.last() == us.last());
        if full {
            lemma_hard_split_last(rest, chunks.push(cur), u, max);
        } else {
            lemma_hard_split_last(rest, chunks, cur + u, max);
        }
    }
}

proof fn lemma_pack_last(ws: Seq<Seq<char>>, chunks: Seq<Seq<char>>, cur: Seq<char>, max: nat)
    requires
        ws.len() > 0,
        ws.last().len() > 0,
    ensures
        pack_from(ws, chunks, cur, max).len() > 0,
        pack_from(ws, chunks, cur, max).last().len() > 0,
        pack_from(ws, chunks, cur, max).last().last() == ws.last().last(),
    decreases ws.len(),
{
    let w = ws[0];
    let rest = ws.drop_first();
    let full = cur.len() > 0 && cur.len() + 1 + w.len() > max;
    let chunks1 = if full {
        chunks.push(cur)
    } else {
        chunks
    };
    let cur1 = if full {
        Seq::empty()
    } else {
        cur
    };
    if ws.len() == 1 {
        assert(w == ws.last());
        assert(rest.len() == 0);
        if w.len() > max {
            lemma_units_last(w);
            lemma_hard_split_last(units(w), Seq::empty(), Seq::empty(), max);
            let hs = hard_split_spec(w, max);
            let all = flush_word(chunks1, cur1) + hs;
            assert(all.last() == hs.last());
            assert(pack_from(ws, chunks, cur, max) == flush_word(all, Seq::empty()));
        } else if cur1.len() > 0 {
            assert((cur1.push(' ') + w).last() == w.last());
        } else {
        }
    } else {
        assert(rest.last() == ws.last());
        if w.len() > max {
            lemma_pack_last(rest, flush_word(chunks1, cur1) + hard_split_spec(w, max), Seq::empty(), max);
        } else if cur1.len() > 0 {
            lemma_pack_last(rest, chunks1, cur1.push(' ') + w, max);
        } else {
            lemma_pack_last(rest, chunks1, w, max);
        }
    }
}

/// A sentence that ends in a character other than white space has its last
/// chunk end with that character.
proof fn lemma_sentence_last_chunk(sentence: Seq<char>, max: nat)
    requires
        sentence.len() > 0,
        !is_white_space(sentence.last()),
    ensures
        sentence_chunks(sentence, max).len() > 0,
        sentence_chunks(sentence, max).last().len() > 0,
        sentence_chunks(sentence, max).last().last() == sentence.last(),
{
    lemma_last_word(sentence, Seq::empty(), Seq::empty(), false);
    lemma_pack_last(tag_words(sentence), Seq::empty(), Seq::empty(), max);
}

proof fn lemma_chunks_of_sentence_end(ss: Seq<Seq<char>>, max: nat, j: int)
    requires
        0 <= j < ss.len(),
        ss[j].len() > 0,
        !is_white_space(ss[j].last()),
    ensures
        exists|k: int|
            0 <= k < chunks_of_sentences(ss, max).len() && #[trigger] chunks_of_sentences(ss, max)[k].len()
                > 0 && chunks_of_sentences(ss, max)[k].last() == ss[j].last(),
    decreases ss.len(),
{
    let first = sentence_chunks(ss[0], max);
    let later = chunks_of_sentences(ss.drop_first(), max);
    assert(chunks_of_sentences(ss, max) == first + later);
    if j == 0 {
        lemma_sentence_last_chunk(ss[0], max);
        let k = first.len() - 1;
        assert((first + later)[k] == first[k]);
    } else {
        assert(ss.drop_first()[j - 1] == ss[j]);
        lemma_chunks_of_sentence_end(ss.drop_first(), max, j - 1);
        let k = choose|k: int|
            0 <= k < later.len() && #[trigger] later[k].len() > 0 && later[k].last() == ss[j].last();
        assert((first + later)[first.len() + k] == later[k]);
    }
}

/// Sentence ends are chunk ends: with a positive limit, each `.`, `!`,
/// `?`, `;`, `…`, `।`, `؟` or `。` of the trimmed input that stands outside
/// a `<…>` literal is the last character of some chunk.
pub proof fn law_sentence_end_ends_a_chunk(input: Seq<char>, max_chars: usize, i: int)
    requires
        max_chars > 0,
        0 <= i < trim(input).len(),
        !tag_open_at(trim(input), false, i),
        ({
            let c = trim(input)[i];
            c == '.' || c == '!' || c == '?' || c == ';' || c == '…' || c == '।' || c == '؟'
                || c == '。'
        }),
    ensures
        exists|k: int|
            0 <= k < split_phonemes_spec(input, Some(max_chars)).len()
                && #[trigger] split_phonemes_spec(input, Some(max_chars))[k].len() > 0
                && split_phonemes_spec(input, Some(max_chars))[k].last() == trim(input)[i],
{
    let t = trim(input);
    let ss = split_sentences_spec(t);
    lemma_boundary_ends_sentence(t, Seq::empty(), Seq::empty(), false, i);
    let j = choose|j: int| 0 <= j < ss.len() && #[trigger] ss[j].len() > 0 && ss[j].last() == t[i];
    lemma_chunks_of_sentence_end(ss, max_chars as nat, j);
    let cs = chunks_of_sentences(ss, max_chars as nat);
    assert(split_phonemes_spec(input, Some(max_chars)) == cs);
    let k = choose|k: int| 0 <= k < cs.len() && #[trigger] cs[k].len() > 0 && cs[k].last() == ss[j].last();
    assert(cs[k].len() > 0);
}


/// The sentence-ending characters: `.`, `!`, `?`, `;`, `…`, `।`, `؟`, `。`.
pub open spec fn ends_sentence(c: char) -> bool {
    c == '.' || c == '!' || c == '?' || c == ';' || c == '…' || c == '।' || c == '؟' || c == '。'
}

proof fn lemma_no_boundary_one_sentence(s: Seq<char>, ss: Seq<Seq<char>>, cur: Seq<char>, in_tag: bool)
    requires
        forall|i: int| 0 <= i < s.len() ==> !ends_sentence(#[trigger] s[i]),
    ensures
        sentences_from(s, ss, cur, in_tag) == push_trimmed_spec(ss, cur + s),
    decreases s.len(),
{
    if s.len() == 0 {
        assert(cur + s == cur);
    } else {
        let c = s[0];
        let rest = s.drop_first();
        assert(!ends_sentence(s[0]));
        assert forall|i: int| 0 <= i < rest.len() implies !ends_sentence(#[trigger] rest[i]) by {
            assert(rest[i] == s[i + 1]);
        }
        assert(cur.push(c) + rest == cur + s);
        if c == '<' {
            lemma_no_boundary_one_sentence(rest, ss, cur.push(c), true);
        } else if c == '>' && in_tag {
            lemma_no_boundary_one_sentence(rest, ss, cur.push(c), false);
        } else {
            lemma_no_boundary_one_sentence(rest, ss, cur.push(c), in_tag);
        }
    }
}

/// Only sentence-ending characters end sentences: with a positive limit,
/// trimmed input without any `.`, `!`, `?`, `;`, `…`, `।`, `؟` or `。` is
/// packed as one sentence.
pub proof fn law_no_sentence_end_one_sentence(input: Seq<char>, max_chars: usize)
    requires
        max_chars > 0,
        trim(input).len() > 0,
        forall|i: int| 0 <= i < trim(input).len() ==> !ends_sentence(#[trigger] trim(input)[i]),
    ensures
        split_phonemes_spec(input, Some(max_chars)) == sentence_chunks(trim(input), max_chars as nat),
{
    let t = trim(input);
    lemma_no_boundary_one_sentence(t, Seq::empty(), Seq::empty(), false);
    assert(Seq::<char>::empty() + t == t);
    crate::text_util::law_trim_idempotent(input);
    let ss = seq![t];
    assert(split_sentences_spec(t) == ss);
    assert(ss.drop_first() == Seq::<Seq<char>>::empty());
    assert(ss[0] == t);
    assert(chunks_of_sentences(Seq::<Seq<char>>::empty(), max_chars as nat) == Seq::<Seq<char>>::empty());
    assert(sentence_chunks(t, max_chars as nat) + Seq::<Seq<char>>::empty() == sentence_chunks(t, max_chars as nat));
    assert(chunks_of_sentences(ss, max_chars as nat) == sentence_chunks(t, max_chars as nat) + Seq::<
        Seq<char>,
    >::empty());
}

} // verus!
