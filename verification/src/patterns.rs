//! Compiled text patterns from the `regex` crate, and what the library reads
//! from a search: the text between matches and each match's groups.
use vstd::prelude::*;
use crate::speech::{group_text, interleave};

verus! {

#[verifier::external_type_specification]
#[verifier::external_body]
pub struct ExRegex(regex::Regex);

#[verifier::external_type_specification]
#[verifier::external_body]
pub struct ExRegexError(regex::Error);

/// Whether `regex::Regex::new` accepts `pattern`.
pub uninterp spec fn regex_compiles(pattern: Seq<char>) -> bool;

/// The pieces of `text` between the matches of `pattern`, as
/// `regex::Regex::split` yields them (including empty ones).
pub uninterp spec fn regex_split_pieces(pattern: Seq<char>, text: Seq<char>) -> Seq<Seq<char>>;

/// For each match of `pattern` in `text`, in order, its capture groups as
/// `regex::Regex::captures_iter` yields them: group 0 is the whole match, a
/// group that did not take part is `None`.
pub uninterp spec fn regex_capture_groups(pattern: Seq<char>, text: Seq<char>) -> Seq<
    Seq<Option<Seq<char>>>,
>;

/// The characters of one match's groups.
pub open spec fn groups_view(groups: Seq<Option<String>>) -> Seq<Option<Seq<char>>> {
    groups.map_values(
        |g: Option<String>|
            match g {
                Some(s) => Some(s@),
                None => None,
            },
    )
}

/// The characters of every match's groups.
pub open spec fn matches_view(ms: Seq<Vec<Option<String>>>) -> Seq<Seq<Option<Seq<char>>>> {
    ms.map_values(|m: Vec<Option<String>>| groups_view(m@))
}

/// Compiles `pattern` with `regex::Regex::new`; it succeeds exactly on the
/// patterns the crate accepts.
#[verifier::external_body]
fn regex_new(pattern: &str) -> (r: Result<regex::Regex, regex::Error>)
    ensures
        r is Ok <==> regex_compiles(pattern@),
{
    regex::Regex::new(pattern)
}

/// A regular expression together with the pattern it was compiled from.
pub struct CompiledPattern {
    re: regex::Regex,
    source: String,
}

impl CompiledPattern {
    /// The pattern text.
    pub closed spec fn source_spec(&self) -> Seq<char> {
        self.source@
    }

    /// Compiles `pattern`; `None` exactly when the `regex` crate refuses it.
    pub fn compile(pattern: &str) -> (r: Option<CompiledPattern>)
        ensures
            r is Some <==> regex_compiles(pattern@),
            r matches Some(p) ==> p.source_spec() == pattern@,
    {
        match regex_new(pattern) {
            Ok(re) => Some(CompiledPattern { re, source: pattern.to_owned() }),
            Err(_) => None,
        }
    }

    /// The pieces of `text` between matches, via `regex::Regex::split`.
    #[verifier::external_body]
    pub(crate) fn split_pieces(&self, text: &str) -> (r: Vec<String>)
        ensures
            r@.map_values(|s: String| s@) == regex_split_pieces(self.source_spec(), text@),
    {
        self.re.split(text).map(|piece| piece.to_owned()).collect()
    }

    /// Every match's groups, via `regex::Regex::captures_iter`. These are
    /// the matches that `regex::Regex::split` cuts the text at: one fewer
    /// than the pieces, and the pieces with each match's whole text
    /// (group 0) between them give the text back.
    #[verifier::external_body]
    pub(crate) fn capture_groups(&self, text: &str) -> (r: Vec<Vec<Option<String>>>)
        ensures
            matches_view(r@) == regex_capture_groups(self.source_spec(), text@),
            regex_split_pieces(self.source_spec(), text@).len() == r@.len() + 1,
            interleave(
                regex_split_pieces(self.source_spec(), text@),
                matches_view(r@).map_values(|g: Seq<Option<Seq<char>>>| group_text(g, 0)),
            ) == text@,
    {
        self.re.captures_iter(text).map(
            |caps| caps.iter().map(|m| m.map(|m| m.as_str().to_owned())).collect(),
        ).collect()
    }
}

} // verus!
