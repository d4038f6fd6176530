use vstd::prelude::*;

use crate::text::{append_padded, zero_padded};


verus! {

pub open spec fn is_leap(y: int) -> bool {
    (y % 4 == 0 && y % 100 != 0) || y % 400 == 0
}

/// Days in month `m` of year `y`.
pub open spec fn month_len(y: int, m: int) -> int {
    if m == 2 {
        if is_leap(y) {
            29
        } else {
            28
        }
    } else if m == 4 || m == 6 || m == 9 || m == 11 {
        30
    } else {
        31
    }
}

/// Days of year `y` before the first of month `m`.
pub open spec fn days_before_month(y: int, m: int) -> int {
    let base: int = if m == 1 {
        0
    } else if m == 2 {
        31
    } else if m == 3 {
        59
    } else if m == 4 {
        90
    } else if m == 5 {
        120
    } else if m == 6 {
        151
    } else if m == 7 {
        181
    } else if m == 8 {
        212
    } else if m == 9 {
        243
    } else if m == 10 {
        273
    } else if m == 11 {
        304
    } else {
        334
    };
    base + if m > 2 && is_leap(y) {
        1int
    } else {
        0int
    }
}

/// Leap years from year 1 up to, not including, `y`.
pub open spec fn leaps_before(y: int) -> int {
    (y - 1) / 4 - (y - 1) / 100 + (y - 1) / 400
}

/// The day number of the date `(y, m, d)`, counted from 1970-01-01 as day 0.
pub open spec fn day_number(y: int, m: int, d: int) -> int {
    365 * (y - 1970) + leaps_before(y) - leaps_before(1970) + days_before_month(y, m) + d - 1
}

/// `(y, m, d)` is a date of the proleptic Gregorian calendar.
pub open spec fn valid_date(y: int, m: int, d: int) -> bool {
    1 <= m <= 12 && 1 <= d <= month_len(y, m)
}

/// Days from March 1 to the first of the `mp`-th month after March.
pub open spec fn days_before_march_month(mp: int) -> int {
    (153 * mp + 2) / 5
}

#[verifier::rlimit(40)]
proof fn lemma_year_of_era(doe: int)
    requires
        0 <= doe < 146097,
    ensures
        ({
            let yoe = (doe - doe / 1460 + doe / 36524 - doe / 146096) / 365;
            let doy = doe - (365 * yoe + yoe / 4 - yoe / 100);
            &&& 0 <= yoe < 400
            &&& 0 <= doy
            &&& doy <= 364 + if is_leap(yoe + 1) {
                1int
            } else {
                0int
            }
        }),
{
}

#[verifier::rlimit(40)]
proof fn lemma_month_of_year(doy: int, y: int)
    requires
        0 <= doy <= 364 + if is_leap(y) {
            1int
        } else {
            0int
        },
    ensures
        ({
            let mp = (5 * doy + 2) / 153;
            let d = doy - days_before_march_month(mp) + 1;
            let m = if mp < 10 {
                mp + 3
            } else {
                mp - 9
            };
            &&& 0 <= mp <= 11
            &&& 1 <= d <= month_len(y, m)
            &&& m >= 3 ==> days_before_march_month(mp) == days_before_month(1970, m) - 59
            &&& m < 3 ==> days_before_march_month(mp) == days_before_month(1970, m) + 306
        }),
{
}

/// Leap days up to the March-based year `y`, counted as the era arithmetic does.
proof fn lemma_leaps(y: int)
    requires
        y >= 1,
    ensures
        leaps_before(y + 1) == y / 4 - y / 100 + y / 400,
        leaps_before(y) + (if is_leap(y) { 1int } else { 0int }) == y / 4 - y / 100 + y / 400,
{
}

#[verifier::rlimit(40)]
proof fn lemma_day_number(era: int, yoe: int, doy: int, mp: int, d: int)
    requires
        era >= 4,
        0 <= yoe < 400,
        0 <= mp <= 11,
        doy == days_before_march_month(mp) + d - 1,
        mp < 10 ==> days_before_march_month(mp) == days_before_month(1970, mp + 3) - 59,
        mp >= 10 ==> days_before_march_month(mp) == days_before_month(1970, mp - 9) + 306,
    ensures
        ({
            let m = if mp < 10 {
                mp + 3
            } else {
                mp - 9
            };
            let y = era * 400 + yoe + if m <= 2 {
                1int
            } else {
                0int
            };
            day_number(y, m, d) == era * 146097 + 365 * yoe + yoe / 4 - yoe / 100 + doy - 719468
        }),
{
    let yy = era * 400 + yoe;
    assert(yy / 4 == era * 100 + yoe / 4);
    assert(yy / 100 == era * 4 + yoe / 100);
    assert(yy / 400 == era);
    lemma_leaps(yy);
    if mp < 10 {
        assert(days_before_month(yy, mp + 3) == days_before_month(1970, mp + 3) + if is_leap(yy) {
            1int
        } else {
            0int
        });
    } else {
        assert(days_before_month(yy + 1, mp - 9) == days_before_month(1970, mp - 9));
    }
}

spec fn civil_from_days(days: int) -> (int, int, int) {
    let z = days + 719468;
    let era = z / 146097;
    let doe = z - era * 146097;
    let yoe = (doe - doe / 1460 + doe / 36524 - doe / 146096) / 365;
    let doy = doe - (365 * yoe + yoe / 4 - yoe / 100);
    let mp = (5 * doy + 2) / 153;
    let d = doy - (153 * mp + 2) / 5 + 1;
    let m = if mp < 10 {
        mp + 3
    } else {
        mp - 9
    };
    (era * 400 + yoe + if m <= 2 {
        1int
    } else {
        0int
    }, m, d)
}

#[verifier::rlimit(40)]
proof fn lemma_civil_from_days(days: int)
    requires
        days >= 0,
    ensures
        ({
            let (y, m, d) = civil_from_days(days);
            valid_date(y, m, d) && day_number(y, m, d) == days && y >= 1970
        }),
{
    let z = days + 719468;
    let era = z / 146097;
    let doe = z - era * 146097;
    lemma_year_of_era(doe);
    let yoe = (doe - doe / 1460 + doe / 36524 - doe / 146096) / 365;
    let doy = doe - (365 * yoe + yoe / 4 - yoe / 100);
    let yy = era * 400 + yoe;
    assert(is_leap(yoe + 1) == is_leap(yy + 1));
    lemma_month_of_year(doy, yy + 1);
    let mp = (5 * doy + 2) / 153;
    let d = doy - (153 * mp + 2) / 5 + 1;
    lemma_day_number(era, yoe, doy, mp, d);
}

/// The date of the day `days` after 1970-01-01.
pub fn days_to_ymd(days: u64) -> (r: (u64, u64, u64))
    requires
        days <= u64::MAX - 719468,
    ensures
        valid_date(r.0 as int, r.1 as int, r.2 as int),
        day_number(r.0 as int, r.1 as int, r.2 as int) == days,
{
    proof {
        lemma_civil_from_days(days as int);
        lemma_year_of_era((days + 719468) as int % 146097);
    }
    let z = days + 719468;
    let era = z / 146097;
    let doe = z - era * 146097;
    let yoe = (doe - doe / 1460 + doe / 36524 - doe / 146096) / 365;
    let doy = doe - (365 * yoe + yoe / 4 - yoe / 100);
    let mp = (5 * doy + 2) / 153;
    let d = doy - (153 * mp + 2) / 5 + 1;
    let m = if mp < 10 {
        mp + 3
    } else {
        mp - 9
    };
    let y = yoe + era * 400;
    let y = if m <= 2 {
        y + 1
    } else {
        y
    };
    assert((y as int, m as int, d as int) == civil_from_days(days as int));
    (y, m, d)
}

/// `YYYY-MM-DD HH:MM UTC`, each field zero-padded.
pub open spec fn stamp_text(y: nat, m: nat, d: nat, h: nat, mi: nat) -> Seq<char> {
    zero_padded(y, 4) + seq!['-'] + zero_padded(m, 2) + seq!['-'] + zero_padded(d, 2) + seq![' ']
        + zero_padded(h, 2) + seq![':'] + zero_padded(mi, 2) + " UTC"@
}

/// A Unix timestamp as `YYYY-MM-DD HH:MM UTC`; zero, an unset timestamp, as `n/a`.
pub fn format_timestamp(ts: u64) -> (r: String)
    ensures
        ts == 0 ==> r@ == "n/a"@,
        ts > 0 ==> exists|y: nat, m: nat, d: nat|
            valid_date(y as int, m as int, d as int) && day_number(y as int, m as int, d as int) == ts
                / 86400 && r@ == stamp_text(y, m, d, (ts % 86400 / 3600) as nat, (ts % 3600 / 60) as nat),
{
    if ts == 0 {
        return String::from_str("n/a");
    }
    let days = ts / 86400;
    let remaining = ts % 86400;
    let hours = remaining / 3600;
    let minutes = (remaining % 3600) / 60;
    let (year, month, day) = days_to_ymd(days);
    let mut r = String::new();
    append_padded(&mut r, year, 4);
    r.append("-");
    append_padded(&mut r, month, 2);
    r.append("-");
    append_padded(&mut r, day, 2);
    r.append(" ");
    append_padded(&mut r, hours, 2);
    r.append(":");
    append_padded(&mut r, minutes, 2);
    r.append(" UTC");
    proof {
        reveal_strlit("-");
        reveal_strlit(" ");
        reveal_strlit(":");
        assert(ts % 3600 == remaining % 3600);
        assert(r@ =~= stamp_text(year as nat, month as nat, day as nat, hours as nat, minutes as nat));
    }
    r
}

} // verus!
