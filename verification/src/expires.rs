//! The `Expires` attribute: a broken-down timestamp, parsed by trying
//! four fixed date formats in order and formatted back in RFC 822 form.
//!
//! The date grammar itself lives in the `time` crate; this module holds
//! the timestamp as plain fields and reaches the crate only through the
//! two trusted wrappers below.

use vstd::prelude::*;

verus! {

/// A calendar date and time broken down into its components, mirroring
/// the broken-down time value of the `time` crate: seconds `[0, 60]`,
/// minutes and hours from zero, day of month from one, month `[0, 11]`,
/// years since 1900, day of week from Sunday = 0, day of year from zero,
/// a daylight-saving flag, seconds east of UTC, and nanoseconds.
#[derive(Clone, Copy, PartialEq, Eq, Structural, Debug)]
pub struct Tm {
    pub sec: i32,
    pub min: i32,
    pub hour: i32,
    pub mday: i32,
    pub mon: i32,
    pub year: i32,
    pub wday: i32,
    pub yday: i32,
    pub isdst: i32,
    pub utcoff: i32,
    pub nsec: i32,
}

/// The field ranges that every parsed timestamp meets, and that RFC 822
/// formatting needs (it looks the day and month names up in tables and
/// adds 1900 to the year).
pub open spec fn tm_in_range(t: Tm) -> bool {
    &&& 0 <= t.wday <= 6
    &&& 0 <= t.mon <= 11
    &&& -1900 <= t.year <= 8099
}

/// What `time::strptime` returns for an input and a format string: a pure
/// function of the two arguments.
pub uninterp spec fn strptime_of(s: Seq<char>, fmt: Seq<char>) -> Option<Tm>;

/// What RFC 822 formatting of a broken-down time yields: a pure function
/// of the fields.
pub uninterp spec fn rfc822_of(t: Tm) -> Seq<char>;

/// Relies on `time::strptime` (time 0.1): a pure parser of its two string
/// arguments. For the four formats admitted here it draws the day of week
/// and the month from fixed name tables (`0..=6` and `0..=11`), bounds a
/// four-digit year by `[0, 9999]` and a two-digit one by `[0, 99]`, and
/// leaves fields the format does not mention at zero.
#[verifier::external_body]
fn strptime_raw(s: &str, fmt: &str) -> (r: Option<Tm>)
    requires
        fmt@ == "%a, %d %b %Y %H:%M:%S %Z"@ || fmt@ == "%A, %d-%b-%y %H:%M:%S %Z"@ || fmt@
            == "%a, %d-%b-%Y %H:%M:%S %Z"@ || fmt@ == "%a %b %d %H:%M:%S %Y"@,
    ensures
        r == strptime_of(s@, fmt@),
        r matches Some(t) ==> tm_in_range(t),
{
    match time::strptime(s, fmt) {
        Ok(t) => Some(Tm {
            sec: t.tm_sec, min: t.tm_min, hour: t.tm_hour, mday: t.tm_mday,
            mon: t.tm_mon, year: t.tm_year, wday: t.tm_wday, yday: t.tm_yday,
            isdst: t.tm_isdst, utcoff: t.tm_utcoff, nsec: t.tm_nsec,
        }),
        Err(_) => None,
    }
}

/// Relies on `Tm::rfc822` of the `time` crate (time 0.1): formatting is a
/// pure function of the broken-down fields; the field ranges keep its
/// day-name, month-name and year lookups in bounds.
#[verifier::external_body]
pub(crate) fn rfc822_string(t: &Tm) -> (r: String)
    requires
        tm_in_range(*t),
    ensures
        r@ == rfc822_of(*t),
{
    let tm = time::Tm {
        tm_sec: t.sec, tm_min: t.min, tm_hour: t.hour, tm_mday: t.mday,
        tm_mon: t.mon, tm_year: t.year, tm_wday: t.wday, tm_yday: t.yday,
        tm_isdst: t.isdst, tm_utcoff: t.utcoff, tm_nsec: t.nsec,
    };
    format!("{}", tm.rfc822())
}

/// What the `Expires` attribute value yields: the first of the four date
/// formats that parses it, or nothing if all four fail.
pub open spec fn expires_of(v: Seq<char>) -> Option<Tm> {
    match strptime_of(v, "%a, %d %b %Y %H:%M:%S %Z"@) {
        Some(t) => Some(t),
        None => match strptime_of(v, "%A, %d-%b-%y %H:%M:%S %Z"@) {
            Some(t) => Some(t),
            None => match strptime_of(v, "%a, %d-%b-%Y %H:%M:%S %Z"@) {
                Some(t) => Some(t),
                None => strptime_of(v, "%a %b %d %H:%M:%S %Y"@),
            },
        },
    }
}

/// Parses an `Expires` attribute value, trying the four date formats in
/// order and keeping the first success.
pub(crate) fn parse_expires(v: &str) -> (r: Option<Tm>)
    ensures
        r == expires_of(v@),
        r matches Some(t) ==> tm_in_range(t),
{
    if let Some(t) = strptime_raw(v, "%a, %d %b %Y %H:%M:%S %Z") {
        return Some(t);
    }
    if let Some(t) = strptime_raw(v, "%A, %d-%b-%y %H:%M:%S %Z") {
        return Some(t);
    }
    if let Some(t) = strptime_raw(v, "%a, %d-%b-%Y %H:%M:%S %Z") {
        return Some(t);
    }
    strptime_raw(v, "%a %b %d %H:%M:%S %Y")
}

} // verus!
