//! The current time, as the server stamps its reports with it.
use vstd::prelude::*;

use crate::text::is_digit;

verus! {

/// The characters of `s` at positions `from` up to `to` are decimal digits.
pub open spec fn digits_at(s: Seq<char>, from: int, to: int) -> bool {
    forall|i: int| from <= i < to ==> is_digit(s[i])
}

/// The date written before the `T` at position `t`: a year of four digits,
/// or `+` and at least five digits, then `-`, two digits, `-`, two digits.
pub open spec fn rfc3339_date(s: Seq<char>, t: int) -> bool {
    &&& (t == 10 && digits_at(s, 0, 4)) || (t >= 12 && s[0] == '+' && digits_at(s, 1, t - 6))
    &&& s[t - 6] == '-'
    &&& digits_at(s, t - 5, t - 3)
    &&& s[t - 3] == '-'
    &&& digits_at(s, t - 2, t)
}

/// The fraction of a second: none, or `.` and three, six or nine digits.
pub open spec fn rfc3339_fraction(f: Seq<char>) -> bool {
    f.len() == 0 || ((f.len() == 4 || f.len() == 7 || f.len() == 10) && f[0] == '.' && digits_at(
        f,
        1,
        f.len() as int,
    ))
}

/// A UTC time in RFC 3339 form: the date, `T`, hours, minutes and seconds
/// of two digits each separated by `:`, a fraction of a second if there is
/// one, and the offset `+00:00`.
pub open spec fn rfc3339_utc(s: Seq<char>) -> bool {
    exists|t: int|
        #![trigger s[t]]
        10 <= t && t + 15 <= s.len() && s[t] == 'T' && rfc3339_date(s, t) && digits_at(s, t + 1, t + 3)
            && s[t + 3] == ':' && digits_at(s, t + 4, t + 6) && s[t + 6] == ':' && digits_at(
            s,
            t + 7,
            t + 9,
        ) && rfc3339_fraction(s.subrange(t + 9, s.len() - 6)) && s.skip(s.len() - 6) == "+00:00"@
}

/// `chrono::Utc::now().to_rfc3339()`: the current time in RFC 3339 form.
/// Which time it is depends on the clock; what is claimed is the form that
/// chrono writes for every UTC time after 1970 (a four-digit year up to
/// 9999, `+` and the year above that; seconds followed by 3, 6 or 9
/// fraction digits unless they are whole; offset `+00:00`).  `Utc::now`
/// panics when the system clock reads a time before 1970 or beyond what
/// chrono can represent; that depends on the machine, not on anything
/// passed here.
#[verifier::external_body]
pub(crate) fn now_rfc3339() -> (s: String)
    ensures
        rfc3339_utc(s@),
{
    chrono::Utc::now().to_rfc3339()
}

} // verus!
