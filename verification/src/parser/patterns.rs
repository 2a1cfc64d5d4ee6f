//! Calls into the `regex` crate, and names for what they return.

use vstd::prelude::*;
use crate::parser::blocks::opt_view;

verus! {

/// What capture group `group` matched in the leftmost-first match of the
/// regular expression `pattern` in `text`, as the `regex` crate reports it;
/// `None` when the pattern is not valid, nothing matches, or the group took
/// no part in the match.
pub uninterp spec fn regex_group(pattern: Seq<char>, text: Seq<char>, group: nat) -> Option<Seq<char>>;

/// `Regex::new(pattern)` followed by `captures(text)` and `get(group)`:
/// the result is the group's text, as named by `regex_group`. An invalid
/// pattern gives `None`.
#[verifier::external_body]
pub(crate) fn regex_first_group(pattern: &str, text: &str, group: usize) -> (r: Option<String>)
    ensures
        opt_view(r) == regex_group(pattern@, text@, group as nat),
{
    match regex::Regex::new(pattern) {
        Ok(re) => match re.captures(text) {
            Some(caps) => match caps.get(group) {
                Some(m) => Some(m.as_str().to_string()),
                None => None,
            },
            None => None,
        },
        Err(_) => None,
    }
}

/// What capture group `group` matched in each of the successive
/// non-overlapping matches of the regular expression `pattern` in `text`,
/// from left to right, as the `regex` crate reports them (`None` for a
/// match in which the group took no part); empty when the pattern is not
/// valid.
pub uninterp spec fn regex_all_groups(pattern: Seq<char>, text: Seq<char>, group: nat) -> Seq<Option<Seq<char>>>;

/// The views of a list of optional strings.
pub open spec fn opt_views(v: Seq<Option<String>>) -> Seq<Option<Seq<char>>> {
    v.map_values(|o: Option<String>| opt_view(o))
}

/// `Regex::new(pattern)` followed by `captures_iter(text)`, with `get(group)`
/// of each match: the results are as named by `regex_all_groups`. An invalid
/// pattern gives no results.
#[verifier::external_body]
pub(crate) fn regex_each_group(pattern: &str, text: &str, group: usize) -> (r: Vec<Option<String>>)
    ensures
        opt_views(r@) == regex_all_groups(pattern@, text@, group as nat),
{
    let mut out = Vec::new();
    if let Ok(re) = regex::Regex::new(pattern) {
        for caps in re.captures_iter(text) {
            out.push(match caps.get(group) {
                Some(m) => Some(m.as_str().to_string()),
                None => None,
            });
        }
    }
    out
}

} // verus!
