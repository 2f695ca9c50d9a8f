use abgen_serve::calendar::{civil_from_days, iso8601_utc, iso_from_build_id};

#[test]
fn civil_epoch_day() {
    assert_eq!(civil_from_days(0), (1970, 1, 1));
}

#[test]
fn civil_day_before_epoch() {
    assert_eq!(civil_from_days(-1), (1969, 12, 31));
}

#[test]
fn civil_leap_day_2000() {
    assert_eq!(civil_from_days(11016), (2000, 2, 29));
}

#[test]
fn civil_new_year_2024() {
    assert_eq!(civil_from_days(19723), (2024, 1, 1));
}

#[test]
fn civil_year_zero() {
    assert_eq!(civil_from_days(-719468), (0, 3, 1));
}

#[test]
fn civil_last_day_of_9999() {
    assert_eq!(civil_from_days(2932896), (9999, 12, 31));
}

#[test]
fn civil_round_trip_over_many_days() {
    let mut prev = civil_from_days(-800_000);
    let mut z: i64 = -799_999;
    while z < 800_000 {
        let cur = civil_from_days(z);
        let (py, pm, pd) = prev;
        let next_expected = if cur.2 == 1 {
            (cur.1 == 1 && py + 1 == cur.0 && pm == 12 && pd == 31) || (cur.1 == pm + 1 && py == cur.0)
        } else {
            cur.0 == py && cur.1 == pm && cur.2 == pd + 1
        };
        assert!(next_expected, "day {} after {:?} is {:?}", z, prev, cur);
        prev = cur;
        z += 1;
    }
}

#[test]
fn iso_epoch() {
    assert_eq!(iso8601_utc(0), "1970-01-01T00:00:00.000Z");
}

#[test]
fn iso_end_of_first_day() {
    assert_eq!(iso8601_utc(86_399), "1970-01-01T23:59:59.000Z");
}

#[test]
fn iso_leap_day_with_time() {
    assert_eq!(iso8601_utc(951_782_400 + 3723), "2000-02-29T01:02:03.000Z");
}

#[test]
fn iso_year_ten_thousand() {
    assert_eq!(iso8601_utc(2_932_897 * 86_400), "10000-01-01T00:00:00.000Z");
}

#[test]
fn build_id_hex_prefix() {
    assert_eq!(iso_from_build_id("0000003c9f"), "2020-01-01T00:01:00.000Z");
}

#[test]
fn build_id_plus_sign_prefix() {
    assert_eq!(iso_from_build_id("+000003cabc"), "2020-01-01T00:01:00.000Z");
}

#[test]
fn build_id_folds_into_thirty_years() {
    assert_eq!(iso_from_build_id("ffffffff"), "2036-03-07T06:28:15.000Z");
    assert_eq!(iso_from_build_id("DEADBEEF00"), "2048-06-11T21:55:59.000Z");
}

#[test]
fn build_id_not_hex_is_base() {
    assert_eq!(iso_from_build_id("zzzzzzzz"), "2020-01-01T00:00:00.000Z");
}

#[test]
fn build_id_short_is_base() {
    assert_eq!(iso_from_build_id("abc"), "2020-01-01T00:00:00.000Z");
}

#[test]
fn build_id_non_ascii_is_base() {
    assert_eq!(iso_from_build_id("ééééééééé"), "2020-01-01T00:00:00.000Z");
}
