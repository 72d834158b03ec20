//! Regular expressions, through the `regex` crate. What a regex matches is
//! not restated here: the compiled program's verdicts are named results of
//! the pattern text and the haystack, and the parsers state their contracts
//! over those names.

use vstd::prelude::*;

verus! {

/// `regex::Regex`, a compiled regular expression, known to Verus only as
/// an opaque value.
#[verifier::external_type_specification]
#[verifier::external_body]
pub struct ExRegex(regex::Regex);

/// `regex::Error`, why a pattern did not compile, known to Verus only as an
/// opaque value.
#[verifier::external_type_specification]
#[verifier::external_body]
pub struct ExRegexError(regex::Error);

/// Whether `regex::Regex::new` accepts the pattern.
pub uninterp spec fn regex_compiles(pattern: Seq<char>) -> bool;

/// The capture groups of every match that `Regex::captures_iter` yields for
/// the pattern on the haystack, in order; each match lists group 0 first and
/// has `None` for a group that did not participate.
pub uninterp spec fn regex_captures_all(pattern: Seq<char>, haystack: Seq<char>) -> Seq<
    Seq<Option<Seq<char>>>,
>;

/// The capture groups of the first match that `Regex::captures` finds for
/// the pattern on the haystack, if there is a match.
pub uninterp spec fn regex_captures_first(pattern: Seq<char>, haystack: Seq<char>) -> Option<
    Seq<Option<Seq<char>>>,
>;

/// The characters that `regex_syntax::is_meta_character` reports.
pub open spec fn is_meta_character(c: char) -> bool {
    c == '\\' || c == '.' || c == '+' || c == '*' || c == '?' || c == '(' || c == ')' || c == '|'
        || c == '[' || c == ']' || c == '{' || c == '}' || c == '^' || c == '$' || c == '#' || c
        == '&' || c == '-' || c == '~'
}

/// `regex::escape`: a backslash before every meta character.
pub open spec fn regex_escape(s: Seq<char>) -> Seq<char>
    decreases s.len(),
{
    if s.len() == 0 {
        seq![]
    } else {
        (if is_meta_character(s[0]) {
            seq!['\\', s[0]]
        } else {
            seq![s[0]]
        }) + regex_escape(s.drop_first())
    }
}

/// Calls `regex::Regex::new`. The contract claims only that the call
/// succeeds exactly when the named predicate `regex_compiles` holds of the
/// pattern; the compiled program itself stays opaque.
#[verifier::external_body]
fn regex_new(pattern: &str) -> (r: Result<regex::Regex, regex::Error>)
    ensures
        r is Ok == regex_compiles(pattern@),
{
    regex::Regex::new(pattern)
}

/// Calls `regex::escape`, which (as its source shows) copies the text and
/// puts a backslash before each character for which
/// `regex_syntax::is_meta_character` holds.
#[verifier::external_body]
pub(crate) fn escape(text: &str) -> (r: String)
    ensures
        r@ == regex_escape(text@),
{
    regex::escape(text)
}

/// A compiled regular expression together with the pattern it was compiled
/// from. Only `Pattern::new` builds one, so `regex` is always the compilation
/// of `source`.
pub struct Pattern {
    source: String,
    regex: regex::Regex,
}

impl View for Pattern {
    type V = Seq<char>;

    closed spec fn view(&self) -> Seq<char> {
        self.source@
    }
}

impl Pattern {
    /// Compiles `source`; `None` when the `regex` crate rejects it.
    pub fn new(source: &str) -> (r: Option<Pattern>)
        ensures
            r is Some == regex_compiles(source@),
            r matches Some(p) ==> p@ == source@,
    {
        match regex_new(source) {
            Ok(regex) => Some(Pattern { source: String::from_str(source), regex }),
            Err(_) => None,
        }
    }
}

/// Calls `regex::Regex::captures_iter` and copies each match's groups out as
/// owned strings. The contract claims that the copy equals the named result
/// `regex_captures_all` of the pattern's source and the haystack.
#[verifier::external_body]
pub(crate) fn captures_all(p: &Pattern, haystack: &str) -> (r: Vec<Vec<Option<String>>>)
    ensures
        r.deep_view() == regex_captures_all(p@, haystack@),
{
    p.regex.captures_iter(haystack).map(
        |caps| caps.iter().map(|m| m.map(|m| m.as_str().to_string())).collect(),
    ).collect()
}

/// Calls `regex::Regex::captures` and copies the groups of the first match
/// out as owned strings. The contract claims that the copy equals the named
/// result `regex_captures_first` of the pattern's source and the haystack.
#[verifier::external_body]
pub(crate) fn captures_first(p: &Pattern, haystack: &str) -> (r: Option<Vec<Option<String>>>)
    ensures
        r.deep_view() == regex_captures_first(p@, haystack@),
{
    p.regex.captures(haystack).map(
        |caps| caps.iter().map(|m| m.map(|m| m.as_str().to_string())).collect(),
    )
}

} // verus!
