use centsh::date::{Date, MAX_YEAR, MIN_YEAR};
use centsh::window::Window;

fn day(year: i32, month: u32, day: u32) -> Date {
    Date::from_ymd(year, month, day).expect("a day that exists")
}

#[test]
fn from_ymd_takes_days_that_exist() {
    assert_eq!(Date::from_ymd(2024, 2, 29), Some(Date { year: 2024, month: 2, day: 29 }));
    assert_eq!(Date::from_ymd(2000, 2, 29), Some(Date { year: 2000, month: 2, day: 29 }));
    assert_eq!(Date::from_ymd(-4, 2, 29), Some(Date { year: -4, month: 2, day: 29 }));
    assert_eq!(Date::from_ymd(2023, 12, 31), Some(Date { year: 2023, month: 12, day: 31 }));
    assert_eq!(Date::from_ymd(MAX_YEAR, 12, 31).map(|d| d.year()), Some(262142));
    assert_eq!(Date::from_ymd(MIN_YEAR, 1, 1).map(|d| d.year()), Some(-262143));
}

#[test]
fn from_ymd_refuses_days_that_do_not_exist() {
    assert_eq!(Date::from_ymd(2023, 2, 29), None);
    assert_eq!(Date::from_ymd(1900, 2, 29), None);
    assert_eq!(Date::from_ymd(2023, 4, 31), None);
    assert_eq!(Date::from_ymd(2023, 0, 10), None);
    assert_eq!(Date::from_ymd(2023, 13, 10), None);
    assert_eq!(Date::from_ymd(2023, 5, 0), None);
    assert_eq!(Date::from_ymd(2023, 5, 32), None);
    assert_eq!(Date::from_ymd(MAX_YEAR + 1, 1, 1), None);
    assert_eq!(Date::from_ymd(MIN_YEAR - 1, 1, 1), None);
}

#[test]
fn getters_give_the_parts() {
    let d = day(2024, 3, 15);
    assert_eq!(d.year(), 2024);
    assert_eq!(d.month(), 3);
    assert_eq!(d.day(), 15);
}

#[test]
fn is_before_orders_by_year_month_day() {
    assert!(day(2023, 12, 31).is_before(&day(2024, 1, 1)));
    assert!(day(2024, 1, 31).is_before(&day(2024, 2, 1)));
    assert!(day(2024, 2, 1).is_before(&day(2024, 2, 2)));
    assert!(!day(2024, 2, 2).is_before(&day(2024, 2, 2)));
    assert!(!day(2024, 2, 3).is_before(&day(2024, 2, 2)));
    assert!(!day(2025, 1, 1).is_before(&day(2024, 12, 31)));
}

#[test]
fn in_month_of_wants_year_and_month() {
    assert!(day(2024, 3, 1).in_month_of(&day(2024, 3, 31)));
    assert!(!day(2023, 3, 1).in_month_of(&day(2024, 3, 1)));
    assert!(!day(2024, 4, 1).in_month_of(&day(2024, 3, 1)));
}

#[test]
fn today_is_a_day_that_exists() {
    let now = Date::today();
    assert_eq!(Date::from_ymd(now.year(), now.month(), now.day()), Some(now));
}

#[test]
fn last_days_counts_back_over_month_ends() {
    assert_eq!(Window::last_days(day(2024, 3, 31), 90), Window::Since(day(2024, 1, 1)));
    assert_eq!(Window::last_days(day(2024, 3, 15), 62), Window::Since(day(2024, 1, 13)));
    assert_eq!(Window::last_days(day(2023, 3, 1), 1), Window::Since(day(2023, 2, 28)));
    assert_eq!(Window::last_days(day(2024, 3, 1), 0), Window::Since(day(2024, 3, 1)));
}

#[test]
fn last_days_without_a_first_day_holds_every_day() {
    assert_eq!(Window::last_days(day(2024, 3, 31), u64::MAX), Window::All);
    assert_eq!(Window::last_days(day(MIN_YEAR, 1, 1), 1), Window::All);
    assert_eq!(Window::last_days(Date { year: 2024, month: 2, day: 30 }, 1), Window::All);
}

#[test]
fn window_contains_its_days() {
    let month = Window::Month(day(2024, 3, 15));
    assert!(month.contains(&day(2024, 3, 1)));
    assert!(month.contains(&day(2024, 3, 31)));
    assert!(!month.contains(&day(2024, 4, 1)));
    assert!(!month.contains(&day(2023, 3, 15)));
    let since = Window::Since(day(2024, 1, 13));
    assert!(since.contains(&day(2024, 1, 13)));
    assert!(since.contains(&day(2030, 1, 1)));
    assert!(!since.contains(&day(2024, 1, 12)));
    assert!(Window::All.contains(&day(1, 1, 1)));
}

#[test]
fn last_days_of_up_to_a_year_has_a_first_day() {
    let early = day(MIN_YEAR + 1, 1, 1);
    for days in [0, 1, 30, 90, 365] {
        match Window::last_days(early, days) {
            Window::Since(first) => {
                assert_eq!(Date::from_ymd(first.year(), first.month(), first.day()), Some(first));
                assert!(!early.is_before(&first));
            }
            other => panic!("no first day: {:?}", other),
        }
    }
    assert_eq!(Window::last_days(day(2024, 12, 31), 365), Window::Since(day(2024, 1, 1)));
    assert_eq!(Window::last_days(day(2023, 12, 31), 365), Window::Since(day(2022, 12, 31)));
}
