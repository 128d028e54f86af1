use vstd::prelude::*;

verus! {

#[verifier::external_type_specification]
#[verifier::external_body]
pub struct ExRegex(regex::Regex);

#[verifier::external_type_specification]
#[verifier::external_body]
pub struct ExRegexError(regex::Error);

/// The pattern text a compiled regex holds, i.e. the text it was built from.
pub uninterp spec fn regex_pattern(r: regex::Regex) -> Seq<char>;

/// Whether the regex parser (with its default limits) accepts `pattern`.
pub uninterp spec fn regex_valid(pattern: Seq<char>) -> bool;

/// Whether the regex compiled from `pattern` finds a match anywhere in
/// `input`.
pub uninterp spec fn regex_found(pattern: Seq<char>, input: Seq<char>) -> bool;

/// The capture groups, group 1 onward, of the leftmost match of the regex
/// compiled from `pattern` on `input`: one entry per group of the pattern,
/// `None` for a group that did not take part in the match.
pub uninterp spec fn regex_groups(pattern: Seq<char>, input: Seq<char>) -> Seq<Option<Seq<char>>>;

/// Relies on regex::Regex::new: it compiles the pattern, with `Err` exactly
/// on a pattern the default builder rejects, and the compiled regex holds the
/// pattern it was built from.
#[verifier::external_body]
pub(crate) fn regex_new(pattern: &str) -> (r: Result<regex::Regex, regex::Error>)
    ensures
        r is Ok <==> regex_valid(pattern@),
        (r matches Ok(re) ==> regex_pattern(re) == pattern@),
{
    regex::Regex::new(pattern)
}

/// Relies on regex::Regex::is_match: true if and only if there is a match for
/// the regex anywhere in the haystack, a function of pattern and haystack.
#[verifier::external_body]
pub(crate) fn regex_is_match(re: &regex::Regex, haystack: &str) -> (b: bool)
    ensures
        b == regex_found(regex_pattern(*re), haystack@),
{
    re.is_match(haystack)
}

/// Relies on regex::Regex::captures, which finds the leftmost match exactly
/// when Regex::is_match reports one, and on Captures::get, Captures::len and
/// Match::as_str for the text of each numbered group of that match.
#[verifier::external_body]
pub(crate) fn regex_captures(re: &regex::Regex, haystack: &str) -> (res: Option<
    Vec<Option<String>>,
>)
    ensures
        res is Some <==> regex_found(regex_pattern(*re), haystack@),
        (res matches Some(gs) ==> gs.deep_view() == regex_groups(regex_pattern(*re), haystack@)),
{
    match re.captures(haystack) {
        None => None,
        Some(caps) => {
            let mut gs: Vec<Option<String>> = Vec::new();
            for i in 1..caps.len() {
                gs.push(caps.get(i).map(|m| m.as_str().to_string()));
            }
            Some(gs)
        },
    }
}

} // verus!
