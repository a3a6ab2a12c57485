//! Regular expressions, through the `regex` crate.
//!
//! What a regular expression matches takes the crate's whole engine to
//! state, so each operation's result is given a name: a function of the
//! pattern's text and of the haystack alone.  The wrappers compile the
//! pattern where they use it; compiling is deterministic, so the names
//! depend on nothing else.
use regex::Regex;
use vstd::prelude::*;

verus! {

/// Whether `regex::Regex::new` accepts `pattern`.
pub uninterp spec fn regex_compiles(pattern: Seq<char>) -> bool;

/// What `regex::Regex::is_match` answers for the compiled `pattern` on `text`.
pub uninterp spec fn regex_matches(pattern: Seq<char>, text: Seq<char>) -> bool;

/// What `regex::Regex::replace` gives: `text` with its leftmost-first match
/// of `pattern` replaced by `rep` (where `$name` expands to a group).
pub uninterp spec fn regex_replace_first(pattern: Seq<char>, text: Seq<char>, rep: Seq<char>) -> Seq<
    char,
>;

/// What `regex::Regex::replace_all` gives: `text` with every
/// non-overlapping match of `pattern` replaced by `rep`.
pub uninterp spec fn regex_replace_every(pattern: Seq<char>, text: Seq<char>, rep: Seq<char>) -> Seq<
    char,
>;

/// Calls `regex::Regex::new` on `pattern`; claims only that the answer is
/// the named, deterministic `regex_compiles` of the pattern's text.
#[verifier::external_body]
pub(crate) fn regex_is_valid(pattern: &str) -> (res: bool)
    ensures
        res == regex_compiles(pattern@),
{
    Regex::new(pattern).is_ok()
}

/// Calls `regex::Regex::is_match` on the compiled `pattern`; claims that the
/// answer is `regex_matches` of the pattern's text and the haystack.
#[verifier::external_body]
pub(crate) fn regex_is_match(pattern: &str, text: &str) -> (res: bool)
    requires
        regex_compiles(pattern@),
    ensures
        res == regex_matches(pattern@, text@),
{
    match Regex::new(pattern) {
        Ok(re) => re.is_match(text),
        Err(_) => false,
    }
}

/// Calls `regex::Regex::replace` with a string replacement; claims that the
/// result is `regex_replace_first` of the three texts.
#[verifier::external_body]
pub(crate) fn regex_replace(pattern: &str, text: &str, rep: &str) -> (res: String)
    requires
        regex_compiles(pattern@),
    ensures
        res@ == regex_replace_first(pattern@, text@, rep@),
{
    match Regex::new(pattern) {
        Ok(re) => re.replace(text, rep).to_string(),
        Err(_) => String::new(),
    }
}

/// Calls `regex::Regex::replace_all` with a string replacement; claims that
/// the result is `regex_replace_every` of the three texts.
#[verifier::external_body]
pub(crate) fn regex_replace_all(pattern: &str, text: &str, rep: &str) -> (res: String)
    requires
        regex_compiles(pattern@),
    ensures
        res@ == regex_replace_every(pattern@, text@, rep@),
{
    match Regex::new(pattern) {
        Ok(re) => re.replace_all(text, rep).to_string(),
        Err(_) => String::new(),
    }
}

} // verus!
