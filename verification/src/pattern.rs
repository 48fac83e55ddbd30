//! Regular expressions: the compiled patterns of the `regex` crate and what
//! the rules ask of them.

use regex::{Regex, RegexSet};
use vstd::prelude::*;

verus! {

/// `regex::Regex`, a compiled expression; nothing of its inside is known
/// here.
#[verifier::external_type_specification]
#[verifier::external_body]
pub struct ExRegex(Regex);

/// `regex::RegexSet`, a compiled set of expressions; nothing of its inside
/// is known here.
#[verifier::external_type_specification]
#[verifier::external_body]
pub struct ExRegexSet(RegexSet);

/// One capture group of a match: its name, if it has one, and the text it
/// captured, if it took part in the match.
pub type Group = (Option<String>, Option<String>);

/// The expression that `source` compiles to, or `None` where it is not a
/// valid expression.
pub uninterp spec fn compiled(source: Seq<char>) -> Option<Regex>;

/// Whether `re` matches somewhere in `text`.
pub uninterp spec fn accepts(re: Regex, text: Seq<char>) -> bool;

/// The capture groups of the leftmost match of `re` in `text`, one entry
/// per group of the expression in the order of their opening brackets, or
/// `None` where `re` does not match.
pub uninterp spec fn groups(re: Regex, text: Seq<char>) -> Option<
    Seq<(Option<Seq<char>>, Option<Seq<char>>)>,
>;

/// The set that the expressions `sources` compile to, with or without
/// regard to case, or `None` where one of them is not a valid expression.
pub uninterp spec fn compiled_set(sources: Seq<Seq<char>>, case_insensitive: bool) -> Option<
    RegexSet,
>;

/// Whether some expression of `set` matches somewhere in `text`.
pub uninterp spec fn set_accepts(set: RegexSet, text: Seq<char>) -> bool;

/// Whether `c` has a meaning of its own in an expression.
pub open spec fn is_meta_character(c: char) -> bool {
    c == '\\' || c == '.' || c == '+' || c == '*' || c == '?' || c == '(' || c == ')' || c == '|'
        || c == '[' || c == ']' || c == '{' || c == '}' || c == '^' || c == '$' || c == '#' || c
        == '&' || c == '-' || c == '~'
}

/// `text` with a backslash put before every character that has a meaning
/// of its own in an expression.
pub open spec fn escaped(text: Seq<char>) -> Seq<char>
    decreases text.len(),
{
    if text.len() == 0 {
        Seq::empty()
    } else if is_meta_character(text.last()) {
        escaped(text.drop_last()) + seq!['\\', text.last()]
    } else {
        escaped(text.drop_last()).push(text.last())
    }
}

/// The content of one capture group.
pub open spec fn group_view(g: Group) -> (Option<Seq<char>>, Option<Seq<char>>) {
    (crate::text::option_text(g.0), crate::text::option_text(g.1))
}

/// The content of the capture groups of a match, if there was one.
pub open spec fn groups_view(found: Option<Vec<Group>>) -> Option<
    Seq<(Option<Seq<char>>, Option<Seq<char>>)>,
> {
    match found {
        Some(v) => Some(Seq::new(v@.len(), |i: int| group_view(v@[i]))),
        None => None,
    }
}

/// Compiles `source` with `Regex::new`. The contract names the outcome, a
/// function of the source text, and folds the crate's error into `None`.
#[verifier::external_body]
pub(crate) fn compile(source: &str) -> (re: Option<Regex>)
    ensures
        re == compiled(source@),
{
    Regex::new(source).ok()
}

/// Asks `Regex::is_match`. The contract names the answer.
#[verifier::external_body]
pub(crate) fn is_match(re: &Regex, text: &str) -> (yes: bool)
    ensures
        yes == accepts(*re, text@),
{
    re.is_match(text)
}

/// Asks `Regex::captures` for the leftmost match and copies out, for each
/// group that `Regex::capture_names` lists, its name and what
/// `Captures::name` holds for it. The contract names the outcome and states
/// that there is one exactly where the expression matches.
#[verifier::external_body]
pub(crate) fn capture_groups(re: &Regex, text: &str) -> (found: Option<Vec<Group>>)
    ensures
        groups_view(found) == groups(*re, text@),
        found.is_some() == accepts(*re, text@),
{
    re.captures(text).map(
        |caps|
            re.capture_names().map(
                |name|
                    (
                        name.map(|n| n.to_owned()),
                        name.and_then(|n| caps.name(n)).map(|m| m.as_str().to_owned()),
                    ),
            ).collect(),
    )
}

/// Builds a set with `RegexSetBuilder::new`, `case_insensitive` and
/// `build`. The contract names the outcome and folds the crate's error into
/// `None`.
#[verifier::external_body]
pub(crate) fn compile_set(sources: &Vec<String>, case_insensitive: bool) -> (set: Option<RegexSet>)
    ensures
        set == compiled_set(crate::text::texts(sources@), case_insensitive),
{
    regex::RegexSetBuilder::new(sources.iter()).case_insensitive(case_insensitive).build().ok()
}

/// Asks `RegexSet::is_match`. The contract names the answer.
#[verifier::external_body]
pub(crate) fn set_is_match(set: &RegexSet, text: &str) -> (yes: bool)
    ensures
        yes == set_accepts(*set, text@),
{
    set.is_match(text)
}

/// Calls `regex::escape`, which copies the text and puts a backslash before
/// each of the characters that `regex_syntax::is_meta_character` lists. The
/// contract states exactly that.
#[verifier::external_body]
pub(crate) fn escape(text: &str) -> (out: String)
    ensures
        out@ == escaped(text@),
{
    regex::escape(text)
}

} // verus!
