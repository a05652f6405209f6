//! Delivery windows: finding the hours in a delivery text and testing them
//! against a configured window.

use vstd::prelude::*;
use crate::text::{chars_of, optional_text};

verus! {

#[verifier::external_type_specification]
#[verifier::external_body]
pub struct ExRegex(regex::Regex);

/// The pattern text that a matcher holds, which `regex::Regex::as_str`
/// returns: the text that `regex::Regex::new` built it from.
pub uninterp spec fn regex_source(re: regex::Regex) -> Seq<char>;

/// Whether `regex::Regex::new` accepts `pattern` and builds a matcher from
/// it. That depends on the pattern alone.
pub uninterp spec fn regex_accepts(pattern: Seq<char>) -> bool;

/// What the leftmost match of `pattern` in `text` captured in its first two
/// groups, as the `regex` crate finds it: `None` where the pattern matches
/// nowhere in the text, and `None` for a group that took no part in the match.
pub uninterp spec fn regex_groups(pattern: Seq<char>, text: Seq<char>) -> Option<
    (Option<Seq<char>>, Option<Seq<char>>),
>;

/// `regex::Regex::new`. A matcher comes back exactly for the patterns that
/// the crate accepts, which the contract only names, and it was built from
/// `pattern`.
#[verifier::external_body]
fn compile(pattern: &str) -> (out: Option<regex::Regex>)
    ensures
        (out is Some) == regex_accepts(pattern@),
        out matches Some(re) ==> regex_source(re) == pattern@,
{
    match regex::Regex::new(pattern) {
        Ok(re) => Some(re),
        Err(_) => None,
    }
}

/// `regex::Regex::captures`, then `Captures::get` for groups 1 and 2 and
/// `Match::as_str` on each. The contract only names the result: it depends on
/// the matcher's pattern and on the text alone.
#[verifier::external_body]
fn first_groups(re: &regex::Regex, text: &str) -> (out: Option<(Option<String>, Option<String>)>)
    ensures
        match out {
            Some((a, b)) => regex_groups(regex_source(*re), text@) == Some(
                (optional_text(a), optional_text(b)),
            ),
            None => regex_groups(regex_source(*re), text@) is None,
        },
{
    match re.captures(text) {
        Some(found) => Some((
            found.get(1).map(|m| m.as_str().to_string()),
            found.get(2).map(|m| m.as_str().to_string()),
        )),
        None => None,
    }
}

/// The pattern of a delivery window: one or two digits, `AM`, a hyphen
/// between two spaces, one or two digits, `PM`. The first group is the
/// morning hour, the second the afternoon hour.
pub open spec fn window_pattern() -> Seq<char> {
    "([0-9]{1,2})AM - ([0-9]{1,2})PM"@
}

/// The value of a decimal digit, where `c` is one.
pub open spec fn digit_value(c: char) -> Option<int> {
    if '0' <= c && c <= '9' {
        Some(c as int - '0' as int)
    } else {
        None
    }
}

/// The hour that a text of one or two decimal digits spells.
pub open spec fn hour_value(t: Seq<char>) -> Option<int> {
    if t.len() == 1 {
        digit_value(t[0])
    } else if t.len() == 2 {
        match (digit_value(t[0]), digit_value(t[1])) {
            (Some(tens), Some(units)) => Some(10 * tens + units),
            _ => None,
        }
    } else {
        None
    }
}

/// The pair of hours that two captured texts spell, where both do.
pub open spec fn hours_value(from_text: Seq<char>, to_text: Seq<char>) -> Option<(int, int)> {
    match (hour_value(from_text), hour_value(to_text)) {
        (Some(from), Some(to)) => Some((from, to)),
        _ => None,
    }
}

/// The hours of a delivery text, given what the window pattern captured in
/// it: present where the pattern matched and both groups spell an hour.
pub open spec fn window_hours(
    groups: Option<(Option<Seq<char>>, Option<Seq<char>>)>,
) -> Option<(int, int)> {
    match groups {
        Some((Some(from_text), Some(to_text))) => hours_value(from_text, to_text),
        _ => None,
    }
}

/// The hours that the window pattern finds in a delivery text.
pub open spec fn delivery_hours(delivery: Seq<char>) -> Option<(int, int)> {
    window_hours(regex_groups(window_pattern(), delivery))
}

/// The view of an optional pair of hours.
pub open spec fn hours_view(hours: Option<(i32, i32)>) -> Option<(int, int)> {
    match hours {
        Some((from, to)) => Some((from as int, to as int)),
        None => None,
    }
}

fn digit_of(c: char) -> (out: Option<i32>)
    ensures
        match out {
            Some(d) => digit_value(c) == Some(d as int) && 0 <= d <= 9,
            None => digit_value(c) is None,
        },
{
    if '0' <= c && c <= '9' {
        Some((c as u32 - '0' as u32) as i32)
    } else {
        None
    }
}

/// The hour that `text` spells, where it is one or two decimal digits.
pub fn parse_hour(text: &str) -> (out: Option<i32>)
    ensures
        match out {
            Some(h) => hour_value(text@) == Some(h as int) && 0 <= h <= 99,
            None => hour_value(text@) is None,
        },
{
    let cs = chars_of(text);
    if cs.len() == 1 {
        digit_of(cs[0])
    } else if cs.len() == 2 {
        match (digit_of(cs[0]), digit_of(cs[1])) {
            (Some(tens), Some(units)) => Some(10 * tens + units),
            _ => None,
        }
    } else {
        None
    }
}

/// The hours that two captured texts spell, where both spell one.
pub fn parse_hours(from_text: &str, to_text: &str) -> (out: Option<(i32, i32)>)
    ensures
        hours_view(out) == hours_value(from_text@, to_text@),
{
    match (parse_hour(from_text), parse_hour(to_text)) {
        (Some(from), Some(to)) => Some((from, to)),
        _ => None,
    }
}

/// The compiled window pattern. It is built once and handed to every
/// function that reads a delivery text.
pub struct DeliveryPattern {
    matcher: regex::Regex,
}

impl DeliveryPattern {
    #[verifier::type_invariant]
    spec fn built_from_window_pattern(self) -> bool {
        regex_source(self.matcher) == window_pattern()
    }

    /// Compiles the window pattern. `None` where the `regex` crate refuses
    /// the pattern; a matcher that comes back was built from the window
    /// pattern and from nothing else.
    pub fn new() -> (out: Option<DeliveryPattern>)
        ensures
            (out is Some) == regex_accepts(window_pattern()),
            out matches Some(pattern) ==> pattern.source() == window_pattern(),
    {
        match compile("([0-9]{1,2})AM - ([0-9]{1,2})PM") {
            Some(matcher) => Some(DeliveryPattern { matcher }),
            None => None,
        }
    }

    /// The hours of the first delivery window in `delivery`, if it has one.
    pub fn find_hours(&self, delivery: &str) -> (out: Option<(i32, i32)>)
        ensures
            hours_view(out) == delivery_hours(delivery@),
    {
        proof {
            use_type_invariant(self);
        }
        match first_groups(&self.matcher, delivery) {
            Some((Some(from_text), Some(to_text))) => parse_hours(
                from_text.as_str(),
                to_text.as_str(),
            ),
            _ => None,
        }
    }

    /// The pattern text that the matcher was built from.
    pub closed spec fn source(&self) -> Seq<char> {
        regex_source(self.matcher)
    }
}

} // verus!
