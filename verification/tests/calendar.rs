use chrono::Datelike;
use scheduler::calendar::{
    date_window, is_valid_day, menu_date, next_saturday, report_date, weekday, window_fits,
    Weekday, Weekdays, MAX_DAY, MAX_WEEKS, MIN_DAY,
};

fn day(y: i32, m: u32, d: u32) -> i32 {
    chrono::NaiveDate::from_ymd_opt(y, m, d).unwrap().num_days_from_ce()
}

fn from_chrono(w: chrono::Weekday) -> Weekday {
    match w {
        chrono::Weekday::Mon => Weekday::Mon,
        chrono::Weekday::Tue => Weekday::Tue,
        chrono::Weekday::Wed => Weekday::Wed,
        chrono::Weekday::Thu => Weekday::Thu,
        chrono::Weekday::Fri => Weekday::Fri,
        chrono::Weekday::Sat => Weekday::Sat,
        chrono::Weekday::Sun => Weekday::Sun,
    }
}

fn index(w: Weekday) -> i64 {
    match w {
        Weekday::Mon => 0,
        Weekday::Tue => 1,
        Weekday::Wed => 2,
        Weekday::Thu => 3,
        Weekday::Fri => 4,
        Weekday::Sat => 5,
        Weekday::Sun => 6,
    }
}

#[test]
fn calendar_limits_are_the_first_and_last_date() {
    assert_eq!(chrono::NaiveDate::MIN.num_days_from_ce(), MIN_DAY);
    assert_eq!(chrono::NaiveDate::MAX.num_days_from_ce(), MAX_DAY);
    assert!(chrono::NaiveDate::from_num_days_from_ce_opt(MIN_DAY).is_some());
    assert!(chrono::NaiveDate::from_num_days_from_ce_opt(MAX_DAY).is_some());
    assert!(chrono::NaiveDate::from_num_days_from_ce_opt(MIN_DAY - 1).is_none());
    assert!(chrono::NaiveDate::from_num_days_from_ce_opt(MAX_DAY + 1).is_none());
    assert!(is_valid_day(MIN_DAY));
    assert!(is_valid_day(MAX_DAY));
    assert!(!is_valid_day(MIN_DAY - 1));
    assert!(!is_valid_day(MAX_DAY + 1));
}

#[test]
fn weekday_of_known_dates() {
    assert_eq!(weekday(day(2015, 9, 8)), Weekday::Tue);
    assert_eq!(weekday(day(-308, 3, 14)), Weekday::Fri);
    assert_eq!(weekday(day(2022, 1, 1)), Weekday::Sat);
    assert_eq!(weekday(1), Weekday::Mon);
    assert_eq!(weekday(0), Weekday::Sun);
    assert_eq!(weekday(-1), Weekday::Sat);
}

#[test]
fn weekday_follows_the_day_number() {
    let mut d: i32 = -800_000;
    while d <= 800_000 {
        let expected = (i64::from(d) + 6).rem_euclid(7);
        assert_eq!(index(weekday(d)), expected);
        let date = chrono::NaiveDate::from_num_days_from_ce_opt(d).unwrap();
        assert_eq!(weekday(d), from_chrono(date.weekday()));
        d += 1;
    }
}

#[test]
fn weekday_follows_the_day_number_at_the_limits() {
    let mut k: i32 = 0;
    while k < 1000 {
        for d in [MIN_DAY + k, MAX_DAY - k] {
            let expected = (i64::from(d) + 6).rem_euclid(7);
            assert_eq!(index(weekday(d)), expected);
        }
        k += 1;
    }
}

#[test]
fn next_saturday_is_strictly_after_today() {
    // 2022-01-01 is a Saturday: the next one is a week later.
    assert_eq!(next_saturday(day(2022, 1, 1)), day(2022, 1, 8));
    assert_eq!(next_saturday(day(2021, 12, 30)), day(2022, 1, 1));
    assert_eq!(next_saturday(day(2021, 12, 31)), day(2022, 1, 1));
    assert_eq!(next_saturday(day(2021, 12, 26)), day(2022, 1, 1));
    assert_eq!(next_saturday(day(2021, 12, 25)), day(2022, 1, 1));
}

#[test]
fn one_weekend_from_a_thursday() {
    let dates = date_window(day(2021, 12, 30), 1, Some(0), &Weekdays::weekend());
    assert_eq!(dates, vec![day(2022, 1, 1), day(2022, 1, 2)]);
    let unskipped = date_window(day(2021, 12, 30), 1, None, &Weekdays::weekend());
    assert_eq!(unskipped, dates);
}

#[test]
fn skipped_weeks_move_the_window() {
    let dates = date_window(day(2021, 12, 30), 2, Some(3), &Weekdays::weekend());
    assert_eq!(
        dates,
        vec![day(2022, 1, 22), day(2022, 1, 23), day(2022, 1, 29), day(2022, 1, 30)]
    );
}

#[test]
fn window_of_every_weekday_is_every_day() {
    let mut all = Weekdays::none();
    for w in [
        Weekday::Mon,
        Weekday::Tue,
        Weekday::Wed,
        Weekday::Thu,
        Weekday::Fri,
        Weekday::Sat,
        Weekday::Sun,
    ] {
        all.insert(w);
    }
    let dates = date_window(day(2021, 12, 30), 10, None, &all);
    let first = day(2022, 1, 1);
    let expected: Vec<i32> = (0..70).map(|k| first + k).collect();
    assert_eq!(dates, expected);
}

#[test]
fn window_is_ascending_and_on_the_chosen_weekdays() {
    let mut days = Weekdays::none();
    days.insert(Weekday::Wed);
    days.insert(Weekday::Sun);
    let mut today = day(2024, 2, 20);
    while today < day(2024, 3, 10) {
        for weeks in 1..=MAX_WEEKS {
            for skip in [None, Some(0), Some(1), Some(5)] {
                let dates = date_window(today, weeks, skip, &days);
                assert_eq!(dates.len() as i64, 2 * weeks);
                for pair in dates.windows(2) {
                    assert!(pair[0] < pair[1]);
                }
                let start = next_saturday(today) + 7 * skip.unwrap_or(0) as i32;
                for d in dates.iter() {
                    assert!(days.contains(weekday(*d)));
                    assert!(start <= *d && i64::from(*d) < i64::from(start) + 7 * weeks);
                }
            }
        }
        today += 1;
    }
}

#[test]
fn empty_filter_gives_no_dates() {
    let dates = date_window(day(2021, 12, 30), 3, None, &Weekdays::none());
    assert!(dates.is_empty());
}

#[test]
fn window_fits_says_when_a_poll_can_be_made() {
    let today = day(2021, 12, 30);
    assert!(window_fits(today, 1, None));
    assert!(window_fits(today, MAX_WEEKS, Some(0)));
    assert!(!window_fits(today, 0, None));
    assert!(!window_fits(today, MAX_WEEKS + 1, None));
    assert!(!window_fits(today, 1, Some(-1)));
    assert!(!window_fits(MAX_DAY + 1, 1, None));
    assert!(!window_fits(today, 1, Some(i64::MAX)));
    assert!(!window_fits(MAX_DAY - 3, 1, None));
    // The last window that ends on the last day of the calendar.
    let sat = next_saturday(MAX_DAY - 20);
    let room = i64::from(MAX_DAY - sat) / 7;
    assert!(room >= 1);
    assert!(window_fits(MAX_DAY - 20, room, None));
    assert!(!window_fits(MAX_DAY - 20, room + 1, None));
    assert!(!window_fits(MAX_DAY - 20, room, Some(1)));
}

#[test]
fn window_at_the_end_of_the_calendar() {
    let today = MAX_DAY - 20;
    let sat = next_saturday(today);
    let room = i64::from(MAX_DAY - sat) / 7;
    let dates = date_window(today, room, None, &Weekdays::weekend());
    assert_eq!(dates.len() as i64, 2 * room);
    assert_eq!(dates[0], sat);
}

#[test]
fn dates_are_written_as_chrono_writes_them() {
    assert_eq!(report_date(day(2022, 1, 1)), "Sat 2022-01-01");
    assert_eq!(report_date(day(2022, 1, 2)), "Sun 2022-01-02");
    assert_eq!(menu_date(day(2022, 1, 1)), "Sat Jan 01");
    assert_eq!(menu_date(day(2024, 2, 29)), "Thu Feb 29");
    assert_eq!(report_date(day(2024, 2, 29)), "Thu 2024-02-29");
}

#[test]
fn weekday_sets() {
    let weekend = Weekdays::weekend();
    assert!(weekend.contains(Weekday::Sat));
    assert!(weekend.contains(Weekday::Sun));
    assert!(!weekend.contains(Weekday::Mon));
    assert!(!weekend.is_empty());
    let mut days = Weekdays::none();
    assert!(days.is_empty());
    days.insert(Weekday::Fri);
    assert!(days.contains(Weekday::Fri));
    assert!(!days.contains(Weekday::Sat));
    assert!(!days.is_empty());
}
