//! Regular expressions, which the `regex` crate compiles and runs. Whether a
//! pattern compiles and what it matches is the crate's to say: the contracts
//! here give those answers names and state only how the calls hang together.

use crate::text::strings;
use vstd::prelude::*;

verus! {

#[verifier::external_type_specification]
#[verifier::external_body]
pub struct ExRegex(regex::Regex);

#[verifier::external_type_specification]
#[verifier::external_body]
pub struct ExRegexSet(regex::RegexSet);

#[verifier::external_type_specification]
#[verifier::external_body]
pub struct ExRegexError(regex::Error);

/// Whether `Regex::new` accepts `source`, under the crate's default limits.
pub uninterp spec fn regex_compiles(source: Seq<char>) -> bool;

/// Whether the regex compiled from `source` matches somewhere in `text`.
pub uninterp spec fn regex_matches(source: Seq<char>, text: Seq<char>) -> bool;

/// The pattern that a compiled regex was made from.
pub uninterp spec fn regex_source(re: regex::Regex) -> Seq<char>;

/// Whether `RegexSet::new` accepts `sources`, under the crate's default limits.
pub uninterp spec fn regex_set_compiles(sources: Seq<Seq<char>>) -> bool;

/// Whether the set compiled from `sources` has a regex that matches somewhere
/// in `text`.
pub uninterp spec fn regex_set_matches(sources: Seq<Seq<char>>, text: Seq<char>) -> bool;

/// The patterns that a compiled set was made from, in their order.
pub uninterp spec fn regex_set_sources(set: regex::RegexSet) -> Seq<Seq<char>>;

/// A character that means something in a regex: the characters that
/// `regex::escape` puts a backslash before.
pub open spec fn is_meta_character(c: char) -> bool {
    c == '\\' || c == '.' || c == '+' || c == '*' || c == '?' || c == '(' || c == ')' || c == '|'
        || c == '[' || c == ']' || c == '{' || c == '}' || c == '^' || c == '$' || c == '#' || c
        == '&' || c == '-' || c == '~'
}

/// `s` with a backslash before each of its meta characters.
pub open spec fn escaped(s: Seq<char>) -> Seq<char>
    decreases s.len(),
{
    if s.len() == 0 {
        Seq::empty()
    } else if is_meta_character(s.last()) {
        escaped(s.drop_last()).push('\\').push(s.last())
    } else {
        escaped(s.drop_last()).push(s.last())
    }
}

/// Compiles a pattern with `Regex::new`. The result is `Ok` exactly where the
/// crate accepts the pattern, and the regex then stands for that pattern.
#[verifier::external_body]
pub(crate) fn compile(source: &str) -> (r: Result<regex::Regex, regex::Error>)
    ensures
        r is Ok <==> regex_compiles(source@),
        r matches Ok(re) ==> regex_source(re) == source@,
{
    regex::Regex::new(source)
}

/// Runs `Regex::is_match`: whether the regex matches somewhere in `text`.
#[verifier::external_body]
pub(crate) fn is_match(re: &regex::Regex, text: &str) -> (b: bool)
    ensures
        b == regex_matches(regex_source(*re), text@),
{
    re.is_match(text)
}

/// Compiles patterns into one set with `RegexSet::new`. The result is `Ok`
/// exactly where the crate accepts them, and the set then stands for them.
#[verifier::external_body]
pub(crate) fn compile_set(sources: &Vec<String>) -> (r: Result<regex::RegexSet, regex::Error>)
    ensures
        r is Ok <==> regex_set_compiles(strings(sources@)),
        r matches Ok(set) ==> regex_set_sources(set) == strings(sources@),
{
    regex::RegexSet::new(sources)
}

/// Runs `RegexSet::is_match`: whether a regex of the set matches somewhere in
/// `text`.
#[verifier::external_body]
pub(crate) fn set_is_match(set: &regex::RegexSet, text: &str) -> (b: bool)
    ensures
        b == regex_set_matches(regex_set_sources(*set), text@),
{
    set.is_match(text)
}

/// Escapes a text with `regex::escape`, which walks the characters and puts
/// a backslash before each meta character.
#[verifier::external_body]
pub(crate) fn escape(text: &str) -> (r: String)
    ensures
        r@ == escaped(text@),
{
    regex::escape(text)
}

} // verus!
