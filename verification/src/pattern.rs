//! The pattern set: user-configurable regular expressions, compiled once at
//! construction. The regex engine is an outside collaborator; what a compiled
//! pattern accepts, and what its first capture group yields, are named by the
//! uninterpreted functions below, and every contract about pattern matching
//! goes through those names.

use vstd::prelude::*;

verus! {

#[verifier::external_type_specification]
#[verifier::external_body]
pub struct ExRegex(regex::Regex);

/// Whether `pat` is a valid regular expression (whether compiling it
/// succeeds).
pub uninterp spec fn re_valid(pat: Seq<char>) -> bool;

/// Whether the pattern `pat` matches anywhere in `s`.
pub uninterp spec fn re_match(pat: Seq<char>, s: Seq<char>) -> bool;

/// The first capture group of the first match of `pat` in `s`, if the
/// pattern matches and the group participates.
pub uninterp spec fn re_capture1(pat: Seq<char>, s: Seq<char>) -> Option<Seq<char>>;

/// A compiled pattern together with the source text it was compiled from;
/// its view is that source text. The fields are private, so every value is
/// built by `pattern_new` and the compiled regex always belongs to `src`.
pub struct Pattern {
    re: regex::Regex,
    src: String,
}

impl View for Pattern {
    type V = Seq<char>;

    closed spec fn view(&self) -> Seq<char> {
        self.src@
    }
}

/// Relies on regex::Regex::new: compiling succeeds exactly on valid pattern
/// syntax, and the error's rendering is an arbitrary message string.
#[verifier::external_body]
pub fn pattern_new(pat: &str) -> (r: Result<Pattern, String>)
    ensures
        r is Ok <==> re_valid(pat@),
        r matches Ok(p) ==> p@ == pat@,
{
    match regex::Regex::new(pat) {
        Ok(re) => Ok(Pattern { re, src: pat.to_string() }),
        Err(e) => Err(e.to_string()),
    }
}

/// Relies on regex::Regex::is_match: the answer is a function of the pattern
/// source and the searched text alone.
#[verifier::external_body]
pub fn pattern_matches(p: &Pattern, s: &Vec<char>) -> (r: bool)
    ensures
        r == re_match(p@, s@),
{
    let t: String = s.iter().collect();
    p.re.is_match(&t)
}

/// Relies on regex::Regex::captures: group 1 of the first match, a function
/// of the pattern source and the searched text alone.
#[verifier::external_body]
pub fn pattern_capture1(p: &Pattern, s: &Vec<char>) -> (r: Option<Vec<char>>)
    ensures
        match r {
            Some(c) => re_capture1(p@, s@) == Some(c@),
            None => re_capture1(p@, s@) is None,
        },
{
    let t: String = s.iter().collect();
    p.re.captures(&t).and_then(|c| c.get(1)).map(|m| m.as_str().chars().collect())
}

} // verus!
