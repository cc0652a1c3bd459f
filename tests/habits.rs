use habit_tracker::date::{advance_month, CalDate};
use habit_tracker::date::month_length;
use habit_tracker::grid::{build_grid, DayCell};
use habit_tracker::store::{Entry, HabitData};
use habit_tracker::streak::current_streak;
use habit_tracker::tracker::{HabitTracker, Message};

fn date(y: i32, m: u32, d: u32) -> CalDate {
    CalDate::new(y, m, d).unwrap()
}

fn store_of(records: &[(CalDate, bool)]) -> HabitData {
    let mut s = HabitData::new();
    for &(d, v) in records {
        s.set_record(d, v);
    }
    s
}

#[test]
fn streak_stops_at_false_record() {
    let store = store_of(&[
        (date(2024, 3, 10), true),
        (date(2024, 3, 11), true),
        (date(2024, 3, 12), false),
    ]);
    assert_eq!(current_streak(&store, date(2024, 3, 11)), 2);
}

#[test]
fn empty_store_then_toggle_today() {
    let today = date(2024, 1, 1);
    let mut store = HabitData::new();
    assert_eq!(current_streak(&store, today), 0);
    store.toggle(today);
    assert_eq!(store.entries(), vec![Entry { date: today, done: true }]);
    assert_eq!(store.total_completions(), 1);
    assert_eq!(current_streak(&store, today), 1);
}

#[test]
fn leap_february_round_trip() {
    let cursor = date(2024, 2, 15);
    let march = advance_month(cursor, 1).unwrap();
    assert_eq!(march, date(2024, 3, 1));
    let back = advance_month(march, -1).unwrap();
    assert_eq!((back.year, back.month), (2024, 2));
    let weeks = build_grid(back, date(2024, 2, 15), &HabitData::new());
    let days: Vec<u32> = weeks
        .iter()
        .flatten()
        .filter(|c| c.in_month)
        .map(|c| c.date.day)
        .collect();
    assert_eq!(days, (1..=29).collect::<Vec<u32>>());
}

#[test]
fn toggle_twice_restores_flag() {
    let d = date(2024, 5, 6);
    let mut store = store_of(&[(date(2024, 5, 5), true)]);
    store.toggle(d);
    assert!(store.is_marked(d));
    store.toggle(d);
    assert!(!store.is_marked(d));
    let mut marked = store_of(&[(d, true)]);
    marked.toggle(d);
    marked.toggle(d);
    assert!(marked.is_marked(d));
}

#[test]
fn streak_missing_today_is_zero() {
    let store = store_of(&[(date(2024, 3, 10), true)]);
    assert_eq!(current_streak(&store, date(2024, 3, 11)), 0);
}

#[test]
fn streak_crosses_year_and_leap_day() {
    let store = store_of(&[
        (date(2023, 12, 31), true),
        (date(2024, 1, 1), true),
        (date(2024, 1, 2), true),
    ]);
    assert_eq!(current_streak(&store, date(2024, 1, 2)), 3);
    let leap = store_of(&[
        (date(2024, 2, 28), true),
        (date(2024, 2, 29), true),
        (date(2024, 3, 1), true),
    ]);
    assert_eq!(current_streak(&leap, date(2024, 3, 1)), 3);
    let plain = store_of(&[(date(2023, 2, 28), true), (date(2023, 3, 1), true)]);
    assert_eq!(current_streak(&plain, date(2023, 3, 1)), 2);
}

#[test]
fn streak_at_first_supported_date() {
    let first = date(-262143, 1, 1);
    let store = store_of(&[(first, true)]);
    assert_eq!(current_streak(&store, first), 1);
}

#[test]
fn advance_rolls_over_years() {
    assert_eq!(advance_month(date(2023, 12, 31), 1), Some(date(2024, 1, 1)));
    assert_eq!(advance_month(date(2024, 1, 31), -1), Some(date(2023, 12, 1)));
    assert_eq!(advance_month(date(2024, 1, 31), 1), Some(date(2024, 2, 1)));
    assert_eq!(advance_month(date(2024, 3, 31), -13), Some(date(2023, 2, 1)));
    assert_eq!(advance_month(date(262142, 12, 5), 1), None);
    assert_eq!(advance_month(date(-262143, 1, 5), -1), None);
}

#[test]
fn from_ymd_checks_dates() {
    assert!(CalDate::new(2023, 2, 29).is_none());
    assert!(CalDate::new(2024, 2, 29).is_some());
    assert!(CalDate::new(1900, 2, 29).is_none());
    assert!(CalDate::new(2000, 2, 29).is_some());
    assert!(CalDate::new(2024, 4, 31).is_none());
    assert!(CalDate::new(2024, 13, 1).is_none());
    assert!(CalDate::new(2024, 1, 0).is_none());
}

#[test]
fn month_lengths() {
    assert_eq!(month_length(2024, 2), 29);
    assert_eq!(month_length(2023, 2), 28);
    assert_eq!(month_length(1900, 2), 28);
    assert_eq!(month_length(2000, 2), 29);
    assert_eq!(month_length(-4, 2), 29);
    assert_eq!(month_length(2024, 4), 30);
    assert_eq!(month_length(2024, 12), 31);
}

#[test]
fn grid_of_march_2024() {
    let today = date(2024, 3, 11);
    let store = store_of(&[
        (date(2024, 3, 10), true),
        (date(2024, 2, 29), true),
        (date(2024, 3, 12), false),
    ]);
    let weeks = build_grid(date(2024, 3, 20), today, &store);
    // March 2024 starts on a Friday and has 31 days
    assert_eq!(weeks.len(), 6);
    assert!(weeks.iter().all(|w| w.len() == 7));
    let cells: Vec<DayCell> = weeks.iter().flatten().copied().collect();
    for k in 0..5 {
        assert!(!cells[k].in_month);
        assert!(!cells[k].marked);
    }
    assert_eq!(cells[0].date, date(2024, 2, 25));
    assert_eq!(cells[4].date, date(2024, 2, 29));
    assert_eq!(cells[5].date, date(2024, 3, 1));
    assert!(cells[5].in_month);
    assert_eq!(cells[35].date, date(2024, 3, 31));
    assert!(!cells[36].in_month);
    assert_eq!(cells[36].date, date(2024, 4, 1));
    assert_eq!(cells[41].date, date(2024, 4, 6));
    let tenth = cells[4 + 10];
    assert_eq!(tenth.date, date(2024, 3, 10));
    assert!(tenth.marked && !tenth.is_today);
    let eleventh = cells[4 + 11];
    assert!(eleventh.is_today && !eleventh.marked);
    assert!(!cells[4 + 12].marked);
}

#[test]
fn grid_of_february_2015_has_four_weeks() {
    // 2015-02-01 is a Sunday and the month has 28 days
    let weeks = build_grid(date(2015, 2, 1), date(2015, 2, 1), &HabitData::new());
    assert_eq!(weeks.len(), 4);
    assert!(weeks.iter().flatten().all(|c| c.in_month));
    assert_eq!(weeks[0][0].date, date(2015, 2, 1));
    assert!(weeks[0][0].is_today);
}

#[test]
fn grid_first_week_of_december_2024() {
    // 2024-12-01 is a Sunday; 31 days need five weeks
    let weeks = build_grid(date(2024, 12, 9), date(2025, 1, 1), &HabitData::new());
    assert_eq!(weeks.len(), 5);
    assert_eq!(weeks[4][2].date, date(2024, 12, 31));
    assert_eq!(weeks[4][3].date, date(2025, 1, 1));
    assert!(!weeks[4][3].in_month && !weeks[4][3].is_today);
}

#[test]
fn tracker_only_toggles_today() {
    let today = date(2024, 1, 15);
    let mut t = HabitTracker::new(HabitData::new(), today);
    assert!(!t.update(Message::ToggleDate(date(2024, 1, 14))));
    assert_eq!(t.total_completions(), 0);
    assert!(t.update(Message::ToggleDate(today)));
    assert_eq!(t.total_completions(), 1);
    assert_eq!(t.streak(), 1);
    assert!(t.update(Message::ToggleDate(today)));
    assert_eq!(t.total_completions(), 0);
    assert_eq!(t.streak(), 0);
}

#[test]
fn tracker_navigates_months() {
    let today = date(2024, 1, 15);
    let mut t = HabitTracker::new(HabitData::new(), today);
    assert!(!t.update(Message::PrevMonth));
    assert_eq!(t.current_month, date(2023, 12, 1));
    t.update(Message::NextMonth);
    t.update(Message::NextMonth);
    assert_eq!(t.current_month, date(2024, 2, 1));
    assert_eq!(t.today, today);
    let weeks = t.grid();
    assert_eq!(weeks.iter().flatten().filter(|c| c.in_month).count(), 29);
}

#[test]
fn set_record_overwrites() {
    let d = date(2024, 6, 1);
    let mut store = store_of(&[(d, true), (date(2024, 6, 2), true)]);
    assert_eq!(store.total_completions(), 2);
    store.set_record(d, false);
    assert_eq!(store.total_completions(), 1);
    assert_eq!(store.entries().len(), 2);
    assert!(!store.is_marked(d));
}
