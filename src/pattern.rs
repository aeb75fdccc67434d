//! Regular expressions, compiled once and matched against chat text.
use vstd::prelude::*;
use regex::Regex;

verus! {

#[verifier::external_type_specification]
#[verifier::external_body]
pub struct ExRegex(Regex);

/// Whether `pattern` is a regular expression that the `regex` crate accepts.
pub uninterp spec fn regex_compiles(pattern: Seq<char>) -> bool;

/// Whether `pattern` matches somewhere in `text`.
pub uninterp spec fn regex_is_match(pattern: Seq<char>, text: Seq<char>) -> bool;

/// Whether `pattern` matches in `text`, and if so what its named group
/// `group` captured in the leftmost match.
pub uninterp spec fn regex_named_capture(pattern: Seq<char>, text: Seq<char>, group: Seq<char>) -> Option<
    Option<Seq<char>>,
>;

/// Relies on `regex::Regex::new`: it compiles the patterns of the crate's
/// syntax and refuses the others.
#[verifier::external_body]
fn compile(pattern: &str) -> (r: Option<Regex>)
    ensures
        r is Some <==> regex_compiles(pattern@),
{
    Regex::new(pattern).ok()
}

/// A regular expression together with the text it was compiled from.
pub struct Pattern {
    source: String,
    compiled: Regex,
}

impl Pattern {
    /// The text the expression was compiled from.
    pub closed spec fn source(&self) -> Seq<char> {
        self.source@
    }

    /// Compiles `source`; `None` when it is no valid expression.
    pub fn new(source: &str) -> (r: Option<Pattern>)
        ensures
            r is Some <==> regex_compiles(source@),
            r matches Some(p) ==> p.source() == source@,
    {
        match compile(source) {
            Some(compiled) => Some(Pattern { source: source.to_owned(), compiled }),
            None => None,
        }
    }

    pub fn as_str(&self) -> (r: &str)
        ensures
            r@ == self.source(),
    {
        self.source.as_str()
    }
}

/// Relies on `regex::Regex::is_match`, on an expression that `Pattern::new`
/// compiled from `p.source()`: whether it matches somewhere in `text`.
#[verifier::external_body]
pub(crate) fn is_match(p: &Pattern, text: &str) -> (r: bool)
    ensures
        r == regex_is_match(p.source(), text@),
{
    p.compiled.is_match(text)
}

/// Relies on `regex::Regex::captures` and `regex::Captures::name`, on an
/// expression that `Pattern::new` compiled from `p.source()`: whether it
/// matches `text`, and what group `group` of the leftmost match captured.
#[verifier::external_body]
pub(crate) fn named_capture(p: &Pattern, text: &str, group: &str) -> (r: Option<Option<String>>)
    ensures
        match r {
            None => regex_named_capture(p.source(), text@, group@) is None,
            Some(None) => regex_named_capture(p.source(), text@, group@) == Some(
                None::<Seq<char>>,
            ),
            Some(Some(s)) => regex_named_capture(p.source(), text@, group@) == Some(Some(s@)),
        },
{
    p.compiled.captures(text).map(|c| c.name(group).map(|m| m.as_str().to_string()))
}

} // verus!
