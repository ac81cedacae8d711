use chrono::{DateTime, Datelike, FixedOffset, NaiveDate, Timelike};
use newbbs::ui::render::clock::{
    clock, full_date, label_day, local_time, moment, LocalTime, EPOCH_DAY, FIRST_DAY, LAST_DAY,
};

fn day(year: i32, month: u32, day: u32) -> i32 {
    NaiveDate::from_ymd_opt(year, month, day).unwrap().num_days_from_ce()
}

#[test]
fn the_calendar_has_these_ends() {
    assert_eq!(NaiveDate::MIN.num_days_from_ce(), FIRST_DAY);
    assert_eq!(NaiveDate::MAX.num_days_from_ce(), LAST_DAY);
    assert_eq!(day(1970, 1, 1), EPOCH_DAY);
}

#[test]
fn local_times() {
    for at in [0, 1, -1, 86_399_999, -86_400_001, 1_700_000_000_123] {
        for offset in [0, 3600, -3600, 20_700, -43_200, 50_400] {
            let zone = FixedOffset::east_opt(offset).unwrap();
            let want = DateTime::from_timestamp_millis(at).unwrap().with_timezone(&zone);
            let got = local_time(at, offset);
            assert_eq!(got.day, want.date_naive().num_days_from_ce());
            assert_eq!(got.minute, want.hour() * 60 + want.minute());
        }
    }
    // What is no time counts as the epoch.
    assert_eq!(local_time(i64::MAX, 60), LocalTime { day: EPOCH_DAY, minute: 1 });
    let last = 8_210_266_876_799_999;
    assert_eq!(local_time(last, 0), LocalTime { day: LAST_DAY, minute: 1439 });
    assert_eq!(local_time(last + 1, 0), LocalTime { day: EPOCH_DAY, minute: 0 });
}

#[test]
fn clocks_show_hours_and_minutes() {
    assert_eq!(clock(0), "00:00");
    assert_eq!(clock(9 * 60 + 5), "09:05");
    assert_eq!(clock(1439), "23:59");
}

#[test]
fn days_have_names() {
    let today = day(2024, 3, 1);
    assert_eq!(label_day(today, today), "today");
    assert_eq!(label_day(today - 1, today), "yesterday");
    assert_eq!(label_day(day(2024, 1, 5), today), "Friday, 5 January");
    assert_eq!(label_day(day(2023, 12, 31), today), "31 December 2023");
    assert_eq!(label_day(day(2024, 12, 31), today), "Tuesday, 31 December");
    assert_eq!(label_day(day(2025, 1, 1), today), "1 January 2025");
    assert_eq!(label_day(day(-1, 2, 3), day(-1, 5, 5)), "Wednesday, 3 February");
    assert_eq!(full_date(day(2024, 2, 29)), "29 February 2024");
    assert_eq!(moment(LocalTime { day: day(2024, 2, 29), minute: 61 }), "29 Feb 01:01");
}
