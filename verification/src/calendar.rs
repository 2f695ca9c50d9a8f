//! Proleptic Gregorian calendar arithmetic: day numbers relative to
//! 1970-01-01 and their civil dates.
use vstd::prelude::*;
use crate::text::{chars_of, parse_unsigned, parse_unsigned_range, push_zero_padded, zero_padded};

verus! {

/// Gregorian leap-year rule.
pub open spec fn is_leap_year(y: int) -> bool {
    y % 4 == 0 && (y % 100 != 0 || y % 400 == 0)
}

/// Number of days in month `m` (1..=12) of year `y`.
pub open spec fn days_in_month(y: int, m: int) -> int {
    if m == 2 {
        if is_leap_year(y) {
            29
        } else {
            28
        }
    } else if m == 4 || m == 6 || m == 9 || m == 11 {
        30
    } else {
        31
    }
}

/// `(y, m, d)` names an existing day of the proleptic Gregorian calendar.
pub open spec fn is_valid_date(y: int, m: int, d: int) -> bool {
    1 <= m <= 12 && 1 <= d <= days_in_month(y, m)
}

/// Days of year `y` that come before the first of month `m`.
pub open spec fn days_before_month(y: int, m: int) -> int {
    let common: int = if m == 1 {
        0
    } else if m == 2 {
        31
    } else if m == 3 {
        59
    } else if m == 4 {
        90
    } else if m == 5 {
        120
    } else if m == 6 {
        151
    } else if m == 7 {
        181
    } else if m == 8 {
        212
    } else if m == 9 {
        243
    } else if m == 10 {
        273
    } else if m == 11 {
        304
    } else {
        334
    };
    if m > 2 && is_leap_year(y) {
        common + 1
    } else {
        common
    }
}

/// Number of days from 1970-01-01 to `(y, m, d)`: 365 days a year, one more
/// for each leap year before `y`, then the days of `y` before the date.
/// Divisions are floor divisions, so the count extends to years before 1.
pub open spec fn days_from_civil(y: int, m: int, d: int) -> int {
    365 * y + (y - 1) / 4 - (y - 1) / 100 + (y - 1) / 400 + days_before_month(y, m) + d - 1
        - 719527
}

/// The civil date of day number `z`: the valid date whose day number is `z`
/// (there is exactly one, see `lemma_civil_date_unique`).
pub open spec fn date_of_days(z: int) -> (int, int, int) {
    choose|t: (int, int, int)| is_valid_date(t.0, t.1, t.2) && days_from_civil(t.0, t.1, t.2) == z
}

/// Year of the 400-year cycle that contains day `doe` of that cycle, years
/// counted from March.
spec fn year_of_era(doe: int) -> int {
    (doe - doe / 1460 + doe / 36524 - doe / 146096) / 365
}

/// First day (within the cycle) of March-based year `yoe`.
spec fn year_start(yoe: int) -> int {
    365 * yoe + yoe / 4 - yoe / 100
}

/// 1 when the March-based year `yoe` of a cycle ends with a 29th of February.
spec fn march_leap(yoe: int) -> int {
    if (yoe + 1) % 4 == 0 && ((yoe + 1) % 100 != 0 || yoe + 1 == 400) {
        1
    } else {
        0
    }
}

/// Length of the March-based month `mp` (0 is March, 11 is February of a
/// common year).
spec fn march_month_len(mp: int) -> int {
    if mp == 11 {
        28
    } else if mp == 1 || mp == 3 || mp == 6 || mp == 8 {
        30
    } else {
        31
    }
}

/// The date of day number `z`, computed era by era.
spec fn civil_parts(z: int) -> (int, int, int) {
    let zp = z + 719468;
    let era = zp / 146097;
    let doe = zp - era * 146097;
    let yoe = year_of_era(doe);
    let doy = doe - year_start(yoe);
    let mp = (5 * doy + 2) / 153;
    let d = doy - (153 * mp + 2) / 5 + 1;
    let m = if mp < 10 {
        mp + 3
    } else {
        mp - 9
    };
    let y = yoe + era * 400 + if m <= 2 {
        1int
    } else {
        0int
    };
    (y, m, d)
}

#[verifier::spinoff_prover]
#[verifier::rlimit(40)]
proof fn lemma_year_of_era(doe: int)
    requires
        0 <= doe <= 146096,
    ensures
        0 <= year_of_era(doe) <= 399,
        year_start(year_of_era(doe)) <= doe,
        doe - year_start(year_of_era(doe)) <= 364 + march_leap(year_of_era(doe)),
{
}

#[verifier::spinoff_prover]
#[verifier::rlimit(40)]
proof fn lemma_year_of_era_inverse(yoe: int, k: int)
    requires
        0 <= yoe <= 399,
        0 <= k <= 364 + march_leap(yoe),
    ensures
        year_of_era(year_start(yoe) + k) == yoe,
        0 <= year_start(yoe) + k <= 146096,
{
}

#[verifier::spinoff_prover]
#[verifier::rlimit(40)]
proof fn lemma_march_month(doy: int)
    requires
        0 <= doy <= 365,
    ensures
        0 <= (5 * doy + 2) / 153 <= 11,
        1 <= doy - (153 * ((5 * doy + 2) / 153) + 2) / 5 + 1,
        doy - (153 * ((5 * doy + 2) / 153) + 2) / 5 + 1 <= march_month_len((5 * doy + 2) / 153)
            + if doy == 365 {
            1int
        } else {
            0int
        },
        doy == 365 ==> (5 * doy + 2) / 153 == 11,
{
}

#[verifier::spinoff_prover]
#[verifier::rlimit(40)]
proof fn lemma_march_month_inverse(mp: int, d: int)
    requires
        0 <= mp <= 11,
        1 <= d <= march_month_len(mp) + if mp == 11 {
            1int
        } else {
            0int
        },
    ensures
        (5 * ((153 * mp + 2) / 5 + d - 1) + 2) / 153 == mp,
        (153 * mp + 2) / 5 + d - 1 <= 365,
        (153 * mp + 2) / 5 + d - 1 == 365 ==> mp == 11 && d == 29,
        d == 29 && mp == 11 ==> (153 * mp + 2) / 5 + d - 1 == 365,
{
}

/// Counting by 400-year cycles agrees with `days_from_civil`.
#[verifier::spinoff_prover]
#[verifier::rlimit(40)]
proof fn lemma_era_count(era: int, yoe: int, mp: int, d: int)
    requires
        0 <= yoe <= 399,
        0 <= mp <= 11,
    ensures
        ({
            let m = if mp < 10 {
                mp + 3
            } else {
                mp - 9
            };
            let y = yoe + era * 400 + if m <= 2 {
                1int
            } else {
                0int
            };
            days_from_civil(y, m, d) == era * 146097 + year_start(yoe) + (153 * mp + 2) / 5 + d
                - 1 - 719468
        }),
{
    let m = if mp < 10 {
        mp + 3
    } else {
        mp - 9
    };
    let y = yoe + era * 400 + if m <= 2 {
        1int
    } else {
        0int
    };
    let c = if m <= 2 {
        1int
    } else {
        0int
    };
    assert((y - 1) / 4 == era * 100 + (yoe + c - 1) / 4);
    assert((y - 1) / 100 == era * 4 + (yoe + c - 1) / 100);
    assert((y - 1) / 400 == era + (yoe + c - 1) / 400);
    assert(is_leap_year(y) == is_leap_year(yoe + c));
}

/// A March-based date of a cycle, within its month, is a valid civil date.
#[verifier::spinoff_prover]
#[verifier::rlimit(40)]
proof fn lemma_march_date_valid(era: int, yoe: int, mp: int, d: int)
    requires
        0 <= yoe <= 399,
        0 <= mp <= 11,
        1 <= d <= march_month_len(mp) + if mp == 11 && march_leap(yoe) == 1 {
            1int
        } else {
            0int
        },
    ensures
        ({
            let m = if mp < 10 {
                mp + 3
            } else {
                mp - 9
            };
            let y = yoe + era * 400 + if m <= 2 {
                1int
            } else {
                0int
            };
            is_valid_date(y, m, d)
        }),
{
    if mp == 11 {
        let y = yoe + era * 400 + 1;
        assert(y % 4 == (yoe + 1) % 4);
        assert(y % 100 == (yoe + 1) % 100);
        assert(y % 400 == (yoe + 1) % 400);
        assert(is_leap_year(y) <==> march_leap(yoe) == 1);
    }
}

/// Every day number has a valid civil date, and `civil_parts` finds it.
#[verifier::spinoff_prover]
#[verifier::rlimit(40)]
proof fn lemma_civil_parts(z: int)
    ensures
        ({
            let t = civil_parts(z);
            is_valid_date(t.0, t.1, t.2) && days_from_civil(t.0, t.1, t.2) == z
        }),
{
    let zp = z + 719468;
    let era = zp / 146097;
    let doe = zp - era * 146097;
    assert(0 <= doe <= 146096);
    lemma_year_of_era(doe);
    let yoe = year_of_era(doe);
    let doy = doe - year_start(yoe);
    lemma_march_month(doy);
    let mp = (5 * doy + 2) / 153;
    let d = doy - (153 * mp + 2) / 5 + 1;
    assert(d <= march_month_len(mp) + if mp == 11 && march_leap(yoe) == 1 {
        1int
    } else {
        0int
    });
    lemma_march_date_valid(era, yoe, mp, d);
    lemma_era_count(era, yoe, mp, d);
}

/// Each valid date is found again from its day number.
#[verifier::spinoff_prover]
#[verifier::rlimit(40)]
proof fn lemma_civil_parts_of_date(y: int, m: int, d: int)
    requires
        is_valid_date(y, m, d),
    ensures
        civil_parts(days_from_civil(y, m, d)) == (y, m, d),
{
    let c = if m <= 2 {
        1int
    } else {
        0int
    };
    let yy = y - c;
    let era = yy / 400;
    let yoe = yy - era * 400;
    assert(0 <= yoe <= 399);
    let mp = if m > 2 {
        m - 3
    } else {
        m + 9
    };
    assert(d <= march_month_len(mp) + if mp == 11 && march_leap(yoe) == 1 {
        1int
    } else {
        0int
    }) by {
        if mp == 11 && d == 29 {
            assert(y % 4 == (yoe + 1) % 4);
            assert(y % 100 == (yoe + 1) % 100);
            assert(y % 400 == (yoe + 1) % 400);
        }
    }
    lemma_march_month_inverse(mp, d);
    let doy = (153 * mp + 2) / 5 + d - 1;
    assert(doy <= 364 + march_leap(yoe));
    lemma_year_of_era_inverse(yoe, doy);
    lemma_era_count(era, yoe, mp, d);
    let z = days_from_civil(y, m, d);
    assert(z + 719468 == era * 146097 + year_start(yoe) + doy);
    assert((z + 719468) / 146097 == era);
}

/// Two valid dates with the same day number are the same date.
pub proof fn lemma_civil_date_unique(y1: int, m1: int, d1: int, y2: int, m2: int, d2: int)
    requires
        is_valid_date(y1, m1, d1),
        is_valid_date(y2, m2, d2),
        days_from_civil(y1, m1, d1) == days_from_civil(y2, m2, d2),
    ensures
        y1 == y2 && m1 == m2 && d1 == d2,
{
    lemma_civil_parts_of_date(y1, m1, d1);
    lemma_civil_parts_of_date(y2, m2, d2);
}

/// Every day number has exactly one civil date, and `date_of_days` names it.
pub proof fn lemma_date_of_days(z: int)
    ensures
        ({
            let t = date_of_days(z);
            is_valid_date(t.0, t.1, t.2) && days_from_civil(t.0, t.1, t.2) == z
        }),
        forall|y: int, m: int, d: int|
            is_valid_date(y, m, d) && days_from_civil(y, m, d) == z ==> date_of_days(z) == (y, m,
                d),
{
    lemma_civil_parts(z);
    let w = civil_parts(z);
    assert(is_valid_date(w.0, w.1, w.2) && days_from_civil(w.0, w.1, w.2) == z);
    let t = date_of_days(z);
    assert forall|y: int, m: int, d: int|
        is_valid_date(y, m, d) && days_from_civil(y, m, d) == z implies date_of_days(z) == (
        y,
        m,
        d,
    ) by {
        lemma_civil_date_unique(t.0, t.1, t.2, y, m, d);
    }
}

/// Round trip from dates: the day number of a valid date leads back to it.
pub proof fn lemma_date_round_trip(y: int, m: int, d: int)
    requires
        is_valid_date(y, m, d),
    ensures
        date_of_days(days_from_civil(y, m, d)) == (y, m, d),
{
    lemma_date_of_days(days_from_civil(y, m, d));
}

/// Civil date `(year, month, day)` of the day `z` days after 1970-01-01
/// (negative `z` counts back), by 400-year cycles of 146097 days.
pub fn civil_from_days(z: i64) -> (date: (i64, i64, i64))
    requires
        i64::MIN + 146096 - 719468 <= z <= i64::MAX - 719468,
    ensures
        is_valid_date(date.0 as int, date.1 as int, date.2 as int),
        days_from_civil(date.0 as int, date.1 as int, date.2 as int) == z,
        (date.0 as int, date.1 as int, date.2 as int) == date_of_days(z as int),
{
    let zp = z + 719468;
    let era: i64 = if zp >= 0 {
        zp / 146097
    } else {
        -((-(zp + 1)) / 146097) - 1
    };
    assert(era == zp / 146097);
    let doe = zp - era * 146097;
    assert(0 <= doe <= 146096);
    let yoe = (doe - doe / 1460 + doe / 36524 - doe / 146096) / 365;
    let y = yoe + era * 400;
    let doy = doe - (365 * yoe + yoe / 4 - yoe / 100);
    proof {
        lemma_year_of_era(doe as int);
        lemma_march_month(doy as int);
    }
    let mp = (5 * doy + 2) / 153;
    let d = doy - (153 * mp + 2) / 5 + 1;
    let m = if mp < 10 {
        mp + 3
    } else {
        mp - 9
    };
    let y = if m <= 2 {
        y + 1
    } else {
        y
    };
    proof {
        lemma_civil_parts(z as int);
        lemma_date_of_days(z as int);
    }
    (y, m, d)
}

/// The days on or after 1970-01-01 fall in years from 1970 on.
#[verifier::spinoff_prover]
#[verifier::rlimit(40)]
pub proof fn lemma_year_of_nonnegative_day(y: int, m: int, d: int)
    requires
        is_valid_date(y, m, d),
        days_from_civil(y, m, d) >= 0,
    ensures
        y >= 1970,
{
}

/// `YYYY-MM-DDTHH:MM:SS.000Z` for the UTC instant `total_secs` seconds after
/// 1970-01-01T00:00:00Z (the year takes more digits after 9999).
pub open spec fn iso8601_text(total_secs: nat) -> Seq<char> {
    let t = date_of_days((total_secs / 86400) as int);
    let sod = total_secs % 86400;
    zero_padded(t.0 as nat, 4) + seq!['-'] + zero_padded(t.1 as nat, 2) + seq!['-']
        + zero_padded(t.2 as nat, 2) + seq!['T'] + zero_padded(sod / 3600, 2) + seq![':']
        + zero_padded((sod % 3600) / 60, 2) + seq![':'] + zero_padded(sod % 60, 2) + seq![
        '.',
        '0',
        '0',
        '0',
        'Z',
    ]
}

/// Appends the one-character string `sep`.
fn push_sep(out: &mut String, sep: &str, c: Ghost<char>)
    requires
        sep@ == seq![c@],
    ensures
        final(out)@ == old(out)@ + seq![c@],
{
    out.append(sep);
}

/// ISO-8601 UTC timestamp with millisecond field for `total_secs` seconds
/// after the Unix epoch.
pub fn iso8601_utc(total_secs: u64) -> (text: String)
    ensures
        text@ == iso8601_text(total_secs as nat),
{
    let days = (total_secs / 86400) as i64;
    let sod = total_secs % 86400;
    let (y, mo, d) = civil_from_days(days);
    proof {
        lemma_year_of_nonnegative_day(y as int, mo as int, d as int);
    }
    let mut out = String::new();
    proof {
        reveal_strlit("-");
        reveal_strlit("T");
        reveal_strlit(":");
        reveal_strlit(".000Z");
        assert("-"@ =~= seq!['-']);
        assert("T"@ =~= seq!['T']);
        assert(":"@ =~= seq![':']);
    }
    push_zero_padded(&mut out, y as u64, 4);
    push_sep(&mut out, "-", Ghost('-'));
    push_zero_padded(&mut out, mo as u64, 2);
    push_sep(&mut out, "-", Ghost('-'));
    push_zero_padded(&mut out, d as u64, 2);
    push_sep(&mut out, "T", Ghost('T'));
    push_zero_padded(&mut out, sod / 3600, 2);
    push_sep(&mut out, ":", Ghost(':'));
    push_zero_padded(&mut out, (sod % 3600) / 60, 2);
    push_sep(&mut out, ":", Ghost(':'));
    push_zero_padded(&mut out, sod % 60, 2);
    out.append(".000Z");
    assert(".000Z"@ =~= seq!['.', '0', '0', '0', 'Z']);
    assert(out@ =~= iso8601_text(total_secs as nat));
    out
}

/// Seconds encoded by a build id: its first eight characters read as a
/// hexadecimal number (0 where they are missing or are no such number),
/// folded into the 30 years from 2020-01-01T00:00:00Z.
pub open spec fn build_id_seconds(id: Seq<char>) -> nat {
    let n = if id.len() >= 8 {
        match parse_unsigned(id.take(8), 16, u64::MAX as int) {
            Some(v) => v,
            None => 0,
        }
    } else {
        0
    };
    (1577836800 + n % 946080000) as nat
}

/// A stable timestamp derived from a build id (the default build date).
pub fn iso_from_build_id(id: &str) -> (text: String)
    ensures
        text@ == iso8601_text(build_id_seconds(id@)),
{
    let cs = chars_of(id);
    let n: u64 = if cs.len() >= 8 {
        match parse_unsigned_range(&cs, 0, 8, 16, u64::MAX) {
            Some(v) => v,
            None => 0,
        }
    } else {
        0
    };
    assert(cs@.subrange(0, 8) =~= id@.take(8) || cs.len() < 8);
    let base = 1_577_836_800u64;
    iso8601_utc(base + (n % 946_080_000))
}

} // verus!
