//! Time stamps for file names.

use crate::numbers::is_digit;
use vstd::prelude::*;
use vstd::string::*;

verus! {

/// Digits, with an optional plus sign in front: a year.
pub open spec fn is_year(s: Seq<char>) -> bool {
    &&& s.len() >= 4
    &&& is_digit(s[0]) || s[0] == '+'
    &&& forall|i: int| 0 < i < s.len() ==> is_digit(#[trigger] s[i])
}

pub open spec fn two_digits(s: Seq<char>, i: int) -> bool {
    is_digit(s[i]) && is_digit(s[i + 1])
}

/// A stamp like `20260101_101010`.
pub open spec fn compact_stamp(s: Seq<char>) -> bool {
    let n = s.len() - 11;
    &&& n >= 4
    &&& is_year(s.take(n))
    &&& two_digits(s, n)
    &&& two_digits(s, n + 2)
    &&& s[n + 4] == '_'
    &&& two_digits(s, n + 5)
    &&& two_digits(s, n + 7)
    &&& two_digits(s, n + 9)
}

/// A stamp like `2026-01-01_10-10-10`.
pub open spec fn dashed_stamp(s: Seq<char>) -> bool {
    let n = s.len() - 15;
    &&& n >= 4
    &&& is_year(s.take(n))
    &&& s[n] == '-'
    &&& two_digits(s, n + 1)
    &&& s[n + 3] == '-'
    &&& two_digits(s, n + 4)
    &&& s[n + 6] == '_'
    &&& two_digits(s, n + 7)
    &&& s[n + 9] == '-'
    &&& two_digits(s, n + 10)
    &&& s[n + 12] == '-'
    &&& two_digits(s, n + 13)
}

/// `chrono::Local::now`, formatted: the local time, in one of the two forms that
/// the file names use. What time it is, is left open. A year has four digits,
/// or more behind a plus sign; it is never negative, because `now` panics if the
/// clock of the machine is set before 1970. (So it does past the year 262142.)
#[verifier::external_body]
fn local_now(format: &str) -> (r: String)
    requires
        format@ == "%Y%m%d_%H%M%S"@ || format@ == "%Y-%m-%d_%H-%M-%S"@,
    ensures
        format@ == "%Y%m%d_%H%M%S"@ ==> compact_stamp(r@),
        format@ == "%Y-%m-%d_%H-%M-%S"@ ==> dashed_stamp(r@),
{
    chrono::Local::now().format(format).to_string()
}

/// The local time, for the name of a session's folder.
pub fn session_stamp() -> (r: String)
    ensures
        compact_stamp(r@),
{
    local_now("%Y%m%d_%H%M%S")
}

/// The local time, for the name of a finished capture.
pub fn capture_stamp() -> (r: String)
    ensures
        dashed_stamp(r@),
{
    local_now("%Y-%m-%d_%H-%M-%S")
}

} // verus!
