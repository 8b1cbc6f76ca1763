//! Matching a path against a compiled pattern.
//!
//! Regular expressions are those of the `regex` crate. What it decides is
//! named here, not restated: whether it accepts an expression, and what an
//! expression captures in a text.

use vstd::prelude::*;
use vstd::string::*;

verus! {

/// A compiled regular expression of the `regex` crate.
#[verifier::external_type_specification]
#[verifier::external_body]
pub struct ExRegex(regex::Regex);

/// The expression that a compiled regular expression was built from, as
/// `Regex::as_str` gives it back.
pub uninterp spec fn regex_source(re: regex::Regex) -> Seq<char>;

/// Whether `Regex::new` accepts the expression.
pub uninterp spec fn regex_accepts(expr: Seq<char>) -> bool;

/// What `Regex::captures` finds with a compiled expression in `text`:
/// `None` where the text does not match, and else one entry for each group
/// of the expression, group 0 being the whole match, with the text it
/// captured or `None` where the group took no part.
pub uninterp spec fn regex_groups(re: regex::Regex, text: Seq<char>) -> Option<
    Seq<Option<Seq<char>>>,
>;

pub open spec fn groups_view(groups: Seq<Option<String>>) -> Seq<Option<Seq<char>>> {
    groups.map_values(
        |g: Option<String>|
            match g {
                Some(s) => Some(s@),
                None => None,
            },
    )
}

/// Compiles an expression with `Regex::new`. On failure the result is the
/// crate's message.
#[verifier::external_body]
pub(crate) fn build_regex(expr: &str) -> (built: core::result::Result<regex::Regex, String>)
    ensures
        built is Ok == regex_accepts(expr@),
        built matches Ok(re) ==> regex_source(re) == expr@,
{
    regex::Regex::new(expr).map_err(|e| e.to_string())
}

/// The expression of a compiled regular expression: `Regex::as_str`.
#[verifier::external_body]
pub(crate) fn source_of(re: &regex::Regex) -> (expr: &str)
    ensures
        expr@ == regex_source(*re),
{
    re.as_str()
}

/// Runs `Regex::captures` and copies out what each group captured.
#[verifier::external_body]
pub(crate) fn capture_groups(re: &regex::Regex, text: &str) -> (groups: Option<Vec<Option<String>>>)
    ensures
        match groups {
            Some(g) => regex_groups(*re, text@) == Some(groups_view(g@)),
            None => regex_groups(*re, text@) is None,
        },
{
    re.captures(text).map(|caps| caps.iter().map(|m| m.map(|m| m.as_str().to_string())).collect())
}

/// A path as it is compared: without the slash at its end, if it has
/// one; the root path stays what it is.
pub open spec fn normal(path: Seq<char>) -> Seq<char> {
    if path.len() > 1 && path.last() == '/' {
        path.drop_last()
    } else {
        path
    }
}

/// Takes the slash off the end of a path; the root path is left alone.
pub fn normalize(path: &str) -> (r: &str)
    ensures
        r@ == normal(path@),
{
    let n = path.unicode_len();
    if n > 1 && path.get_char(n - 1) == '/' {
        let r = path.substring_char(0, n - 1);
        assert(r@ =~= path@.drop_last());
        r
    } else {
        path
    }
}

/// Whether a literal pattern matches a path: the two are the same once
/// both are normalised.
pub open spec fn literal_match(pattern: Seq<char>, path: Seq<char>) -> bool {
    normal(pattern) == normal(path)
}

/// A literal pattern matches itself and itself followed by a slash, and
/// no other path.
///
/// This holds of a pattern that is not empty and that is the root path or
/// does not end in a slash. A pattern that ends in a slash is compared
/// without it, and so matches what is shorter than itself.
pub proof fn law_literal_matches_itself(pattern: Seq<char>, path: Seq<char>)
    requires
        pattern.len() > 0,
        pattern == "/"@ || pattern.last() != '/',
    ensures
        literal_match(pattern, path) <==> (path == pattern || path == pattern + "/"@),
{
    reveal_strlit("/");
    let slash = "/"@;
    assert(slash =~= seq!['/']);
    assert(pattern + slash =~= pattern.push('/'));
    assert(pattern.push('/').drop_last() =~= pattern);
    if path.len() > 1 && path.last() == '/' {
        assert(path =~= path.drop_last().push('/'));
    }
    if pattern == slash {
        if path.len() > 1 && path.last() == '/' && path.drop_last() == slash {
            assert(path =~= pattern.push('/'));
        }
    }
}

} // verus!
