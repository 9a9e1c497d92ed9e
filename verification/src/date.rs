//! The moment at which a filesystem entry was made or changed.

use crate::text::{opt_view, to_chars};
use vstd::prelude::*;
use vstd::string::*;

verus! {

/// A moment in time: whole seconds since the start of 1970 in UTC, and the
/// nanoseconds past that second.
#[derive(Debug, Clone, Copy, PartialEq, Eq, Structural)]
pub struct NodeDateTime {
    pub secs: i64,
    pub nanos: u32,
}

/// The text that `chrono` prints for the moment `secs` seconds and `nanos`
/// nanoseconds after the start of 1970 in UTC; nothing where its calendar
/// does not reach that moment.
pub uninterp spec fn date_text(secs: int, nanos: int) -> Option<Seq<char>>;

/// Calls `chrono::DateTime::<Utc>::to_string` on the moment that
/// `chrono::DateTime::from_timestamp` makes of `secs` and `nanos`. The
/// contract only gives the outcome its name: the text depends on nothing but
/// the two numbers.
#[verifier::external_body]
fn timestamp_text(secs: i64, nanos: u32) -> (r: Option<String>)
    ensures
        opt_view(r) == date_text(secs as int, nanos as int),
{
    match chrono::DateTime::from_timestamp(secs, nanos) {
        Some(moment) => Some(moment.to_string()),
        None => None,
    }
}

/// Whether the character is a sign.
pub open spec fn is_sign(c: char) -> bool {
    c == '+' || c == '-'
}

/// Whether the character is a decimal digit.
pub open spec fn is_digit(c: char) -> bool {
    '0' <= c <= '9'
}

/// Whether a sign stands at place `i` with two digits behind it that count
/// 24 hours or more: a time zone farther from UTC than any can be.
pub open spec fn far_zone_at(s: Seq<char>, i: int) -> bool {
    &&& 0 <= i
    &&& i + 2 < s.len()
    &&& is_sign(s[i])
    &&& is_digit(s[i + 1])
    &&& is_digit(s[i + 2])
    &&& 10 * (s[i + 1] as int - '0' as int) + (s[i + 2] as int - '0' as int) >= 24
}

/// Whether no time zone of 24 hours or more can be read at the end of the
/// text. A zone written as a number is a sign, two digits for the hours
/// and two for the minutes, with a colon between them or without: it
/// begins five or six characters before the end.
pub open spec fn zone_in_reach(s: Seq<char>) -> bool {
    !far_zone_at(s, s.len() - 5) && !far_zone_at(s, s.len() - 6)
}

/// Whether a sign followed by 24 hours or more stands `back` characters
/// before the end.
fn far_zone(chars: &Vec<char>, back: usize) -> (r: bool)
    requires
        back >= 3,
    ensures
        r == far_zone_at(chars@, chars@.len() - back),
{
    if chars.len() < back {
        return false;
    }
    let i: usize = chars.len() - back;
    let sign = chars[i];
    let tens = chars[i + 1];
    let ones = chars[i + 2];
    if !(sign == '+' || sign == '-') {
        return false;
    }
    if !('0' <= tens && tens <= '9' && '0' <= ones && ones <= '9') {
        return false;
    }
    let hours: u32 = 10 * (tens as u32 - '0' as u32) + (ones as u32 - '0' as u32);
    hours >= 24
}

/// Whether no time zone of 24 hours or more can be read at the end of the
/// text.
pub fn has_zone_in_reach(text: &str) -> (r: bool)
    ensures
        r == zone_in_reach(text@),
{
    let chars = to_chars(text);
    !far_zone(&chars, 5) && !far_zone(&chars, 6)
}

/// Calls `dateparser::parse` and takes the moment apart into seconds and
/// nanoseconds. Text without a time zone is read in the zone of the machine,
/// so nothing is promised about the outcome. The parser hands a zone that
/// is written as a number at the end of the text to
/// `chrono::FixedOffset::east`, which does not return for 24 hours or more:
/// such texts are left out.
#[verifier::external_body]
fn parse_moment(text: &str) -> (r: Option<NodeDateTime>)
    requires
        zone_in_reach(text@),
{
    match dateparser::parse(text) {
        Ok(moment) => Some(
            NodeDateTime { secs: moment.timestamp(), nanos: moment.timestamp_subsec_nanos() },
        ),
        Err(_) => None,
    }
}

impl NodeDateTime {
    /// The text of the moment as a listing shows it; empty for a moment
    /// outside the calendar.
    pub open spec fn text(self) -> Seq<char> {
        match date_text(self.secs as int, self.nanos as int) {
            Some(t) => t,
            None => Seq::empty(),
        }
    }

    /// Reads a date written in one of the usual forms. A text that ends in
    /// a time zone of 24 hours or more is not read. Whether any other text
    /// is understood, and which moment a text without time zone means, is
    /// decided by the date parser and the machine's time zone.
    pub fn parse(text: &str) -> (r: Option<NodeDateTime>)
        ensures
            !zone_in_reach(text@) ==> r is None,
    {
        if has_zone_in_reach(text) {
            parse_moment(text)
        } else {
            None
        }
    }

    /// The text of the moment as a listing shows it.
    pub fn to_text(&self) -> (r: String)
        ensures
            r@ == self.text(),
    {
        match timestamp_text(self.secs, self.nanos) {
            Some(t) => t,
            None => String::new(),
        }
    }
}

} // verus!
