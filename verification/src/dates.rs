//! Calendar dates: the civil date of a count of days since 1970-01-01,
//! today's date, and whether a page's date lies after or before a day.
use vstd::prelude::*;

use crate::feed::{text_less, text_lt};
use crate::model::opt_text;
use crate::permalink::{date_prefix_of, date_slice_ok, simple_date_prefix};
use crate::text::{chars_of, push_char, push_chars};
use crate::url::decimal;

verus! {

broadcast use vstd::string::group_string_axioms;

/// The civil date (year, month, day) of the day `days` days after
/// 1970-01-01, by the days-from-civil inverse of a proleptic Gregorian
/// calendar whose years run from March.
pub open spec fn civil_of(days: nat) -> (nat, nat, nat) {
    let z = days + 719468;
    let era = z / 146097;
    let doe = z - era * 146097;
    let yoe = (doe - doe / 1460 + doe / 36524 - doe / 146096) / 365;
    let y = yoe + era * 400;
    let doy = doe - (365 * yoe + yoe / 4 - yoe / 100);
    let mp = (5 * doy + 2) / 153;
    let d = doy - (153 * mp + 2) / 5 + 1;
    let m = if mp < 10 {
        mp + 3
    } else {
        mp - 9
    };
    (
        (y + if m <= 2 {
            1int
        } else {
            0int
        }) as nat,
        m as nat,
        d as nat,
    )
}

/// Within a 400-year era the year of the era is below 400 and the day of
/// the year below 366.
proof fn lemma_year_of_era(doe: u32)
    requires
        doe < 146097,
    ensures
        doe / 1460 <= doe,
        doe / 146096 <= doe - doe / 1460 + doe / 36524,
        ({
            let yoe = (doe - doe / 1460 + doe / 36524 - doe / 146096) / 365;
            &&& yoe <= 399
            &&& yoe / 100 <= yoe / 4
            &&& 365 * yoe + yoe / 4 - yoe / 100 <= doe
            &&& doe - (365 * yoe + yoe / 4 - yoe / 100) <= 365
        }),
{
    assert(doe / 1460 <= doe && doe / 146096 <= doe - doe / 1460 + doe / 36524) by (bit_vector)
        requires
            doe < 146097,
    ;
    assert({
        let yoe = (doe - doe / 1460 + doe / 36524 - doe / 146096) / 365;
        &&& yoe <= 399
        &&& yoe / 100 <= yoe / 4
        &&& 365 * yoe + yoe / 4 - yoe / 100 <= doe
        &&& doe - (365 * yoe + yoe / 4 - yoe / 100) <= 365
    }) by (bit_vector)
        requires
            doe < 146097,
    ;
}

/// Within a year from March the month index is below 12 and the day of
/// the month from 1 to 31.
proof fn lemma_day_of_year(doy: u32)
    requires
        doy <= 365,
    ensures
        ({
            let mp = (5 * doy + 2) / 153;
            &&& mp <= 11
            &&& (153 * mp + 2) / 5 <= doy
            &&& doy - (153 * mp + 2) / 5 + 1 <= 31
        }),
{
    assert({
        let mp = (5 * doy + 2) / 153;
        &&& mp <= 11
        &&& (153 * mp + 2) / 5 <= doy
        &&& doy - (153 * mp + 2) / 5 + 1 <= 31
    }) by (bit_vector)
        requires
            doy <= 365,
    ;
}

/// The day of the era lies within the era.
proof fn lemma_day_of_era(z: nat)
    ensures
        (z / 146097) * 146097 <= z,
        z - (z / 146097) * 146097 < 146097,
        (z / 146097) * 400 <= z,
{
    assert((z / 146097) * 146097 <= z && z - (z / 146097) * 146097 < 146097 && (z / 146097) * 400
        <= z) by (nonlinear_arith);
}

/// Every civil date has a month from 1 to 12 and a day from 1 to 31.
pub proof fn lemma_civil_valid(days: nat)
    ensures
        1 <= civil_of(days).1 <= 12,
        1 <= civil_of(days).2 <= 31,
{
    let z = days + 719468;
    lemma_day_of_era(z);
    let doe = z - (z / 146097) * 146097;
    lemma_year_of_era(doe as u32);
    let yoe = (doe - doe / 1460 + doe / 36524 - doe / 146096) / 365;
    let doy = doe - (365 * yoe + yoe / 4 - yoe / 100);
    lemma_day_of_year(doy as u32);
}

/// The civil date (year, month, day) of the day `days` days after
/// 1970-01-01.
pub fn civil_from_days(days: u64) -> (r: (u64, u32, u32))
    requires
        days <= u64::MAX - 719468,
    ensures
        (r.0 as nat, r.1 as nat, r.2 as nat) == civil_of(days as nat),
{
    let z = days + 719468;
    proof {
        lemma_day_of_era(z as nat);
    }
    let era = z / 146097;
    let doe = z - era * 146097;
    proof {
        lemma_year_of_era(doe as u32);
    }
    let yoe = (doe - doe / 1460 + doe / 36524 - doe / 146096) / 365;
    let y = yoe + era * 400;
    let doy = doe - (365 * yoe + yoe / 4 - yoe / 100);
    proof {
        lemma_day_of_year(doy as u32);
    }
    let mp = (5 * doy + 2) / 153;
    let d = doy - (153 * mp + 2) / 5 + 1;
    let m = if mp < 10 {
        mp + 3
    } else {
        mp - 9
    };
    let year = y + if m <= 2 {
        1
    } else {
        0
    };
    (year, m as u32, d as u32)
}

/// The decimal text of `n`, padded with zeros in front to `width`
/// characters.
pub open spec fn padded(n: nat, width: nat) -> Seq<char> {
    let d = decimal(n);
    if d.len() < width {
        Seq::new((width - d.len()) as nat, |_i: int| '0') + d
    } else {
        d
    }
}

/// The `YYYY-MM-DD` text of the day `days` days after 1970-01-01.
pub open spec fn date_text_of(days: nat) -> Seq<char> {
    let (y, m, d) = civil_of(days);
    padded(y, 4) + "-"@ + padded(m, 2) + "-"@ + padded(d, 2)
}

fn push_padded(s: &mut String, n: u64, width: usize)
    ensures
        final(s)@ == old(s)@ + padded(n as nat, width as nat),
{
    let digits = crate::http::decimal_chars(n);
    let ghost start = s@;
    if digits.len() < width {
        let mut k: usize = digits.len();
        while k < width
            invariant
                digits.len() <= k <= width,
                s@ == start + Seq::new((k - digits.len()) as nat, |_i: int| '0'),
            decreases width - k,
        {
            push_char(s, '0');
            assert(s@ =~= start + Seq::new((k + 1 - digits.len()) as nat, |_i: int| '0'));
            k += 1;
        }
    }
    push_chars(s, &digits);
    assert(s@ =~= start + padded(n as nat, width as nat));
}

/// The `YYYY-MM-DD` text of the day `days` days after 1970-01-01.
pub fn date_of_days(days: u64) -> (r: String)
    requires
        days <= u64::MAX - 719468,
    ensures
        r@ == date_text_of(days as nat),
{
    let (y, m, d) = civil_from_days(days);
    let mut s = String::new();
    push_padded(&mut s, y, 4);
    push_chars(&mut s, &chars_of("-"));
    push_padded(&mut s, m as u64, 2);
    push_chars(&mut s, &chars_of("-"));
    push_padded(&mut s, d as u64, 2);
    assert(s@ =~= date_text_of(days as nat));
    s
}

/// Seconds since 1970-01-01 UTC by the system clock (0 when the clock is
/// set before that). What the clock says is not stated.
#[verifier::external_body]
fn unix_seconds() -> u64 {
    match std::time::SystemTime::now().duration_since(std::time::UNIX_EPOCH) {
        Ok(d) => d.as_secs(),
        Err(_) => 0,
    }
}

/// Today's date in UTC, as `YYYY-MM-DD`: the date of some day, whichever
/// the clock says it is.
pub fn today_ymd_utc() -> (r: String)
    ensures
        exists|days: nat| days <= u64::MAX / 86400 && r@ == date_text_of(days),
{
    let secs = unix_seconds();
    let days = secs / 86400;
    date_of_days(days)
}

/// The `YYYY-MM-DD` prefix of a page's date, if it has one.
pub open spec fn page_day_of(date: Option<Seq<char>>) -> Option<Seq<char>> {
    match date {
        Some(d) => date_prefix_of(d),
        None => None,
    }
}

/// Whether a page's date lies after day `today` (compared as
/// `YYYY-MM-DD` text); a page without such a date is not in the future.
pub fn is_future_date(date: &Option<String>, today: &str) -> (r: bool)
    requires
        date matches Some(d) ==> date_slice_ok(d@),
    ensures
        r == (page_day_of(opt_text(*date)) matches Some(p) && text_lt(today@, p)),
{
    match date {
        Some(d) => match simple_date_prefix(d.as_str()) {
            Some(p) => text_less(&chars_of(today), &chars_of(p.as_str())),
            None => false,
        },
        None => false,
    }
}

/// Whether a page's date lies before day `today`; a page without such a
/// date has not expired.
pub fn is_expired_date(date: &Option<String>, today: &str) -> (r: bool)
    requires
        date matches Some(d) ==> date_slice_ok(d@),
    ensures
        r == (page_day_of(opt_text(*date)) matches Some(p) && text_lt(p, today@)),
{
    match date {
        Some(d) => match simple_date_prefix(d.as_str()) {
            Some(p) => text_less(&chars_of(p.as_str()), &chars_of(today)),
            None => false,
        },
        None => false,
    }
}

} // verus!
