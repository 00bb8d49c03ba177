use zkill_history_importer::calendar::{day_window, window_fits, CalendarDay, MAX_DAY, MIN_DAY};
use zkill_history_importer::endpoints::history_url;

fn tokens(days: &[CalendarDay]) -> Vec<String> {
    days.iter().map(|d| d.compact()).collect()
}

#[test]
fn from_ymd_counts_days_from_year_one() {
    assert_eq!(CalendarDay::from_ymd(1, 1, 1).unwrap().days_from_ce(), 1);
    assert_eq!(CalendarDay::from_ymd(1970, 1, 1).unwrap().days_from_ce(), 719163);
    assert_eq!(CalendarDay::from_ymd(2023, 3, 15).unwrap().days_from_ce(), 738594);
}

#[test]
fn from_ymd_rejects_invalid_dates() {
    assert!(CalendarDay::from_ymd(2023, 2, 29).is_none());
    assert!(CalendarDay::from_ymd(2023, 13, 1).is_none());
    assert!(CalendarDay::from_ymd(2023, 4, 31).is_none());
    assert!(CalendarDay::from_ymd(2023, 1, 0).is_none());
    assert!(CalendarDay::from_ymd(2024, 2, 29).is_some());
    assert!(CalendarDay::from_ymd(1900, 2, 29).is_none());
    assert!(CalendarDay::from_ymd(2000, 2, 29).is_some());
}

#[test]
fn from_days_from_ce_keeps_the_representable_range() {
    assert!(CalendarDay::from_days_from_ce(MIN_DAY).is_some());
    assert!(CalendarDay::from_days_from_ce(MAX_DAY).is_some());
    assert!(CalendarDay::from_days_from_ce(MIN_DAY - 1).is_none());
    assert!(CalendarDay::from_days_from_ce(MAX_DAY + 1).is_none());
}

#[test]
fn compact_token_is_year_month_day() {
    let d = CalendarDay::from_ymd(2023, 3, 5).unwrap();
    assert_eq!(d.compact(), "20230305");
    assert_eq!(CalendarDay::from_ymd(999, 12, 31).unwrap().compact(), "09991231");
    assert_eq!(CalendarDay::from_ymd(0, 1, 1).unwrap().compact(), "00000101");
    assert_eq!(CalendarDay::from_ymd(-1, 1, 1).unwrap().compact(), "-00010101");
    assert_eq!(CalendarDay::from_ymd(10000, 11, 9).unwrap().compact(), "+100001109");
}

#[test]
fn window_is_reference_then_each_earlier_day() {
    let d = CalendarDay::from_ymd(2023, 3, 15).unwrap();
    let w = day_window(d, 3);
    assert_eq!(w.len(), 4);
    assert_eq!(tokens(&w), vec!["20230315", "20230314", "20230313", "20230312"]);
    for (k, day) in w.iter().enumerate() {
        assert_eq!(day.days_from_ce(), 738594 - k as i32);
    }
}

#[test]
fn window_of_zero_days_is_the_reference_alone() {
    let d = CalendarDay::from_ymd(2023, 3, 15).unwrap();
    let w = day_window(d, 0);
    assert_eq!(w, vec![d]);
}

#[test]
fn window_crosses_month_and_year_boundaries() {
    let d = CalendarDay::from_ymd(2024, 3, 1).unwrap();
    assert_eq!(tokens(&day_window(d, 1)), vec!["20240301", "20240229"]);
    let d = CalendarDay::from_ymd(2023, 1, 1).unwrap();
    assert_eq!(tokens(&day_window(d, 1)), vec!["20230101", "20221231"]);
}

#[test]
fn window_days_are_distinct() {
    let d = CalendarDay::from_ymd(2020, 1, 10).unwrap();
    let w = day_window(d, 40);
    assert_eq!(w.len(), 41);
    for i in 0..w.len() {
        for j in (i + 1)..w.len() {
            assert_ne!(w[i], w[j]);
        }
    }
}

#[test]
fn window_before_the_earliest_date_does_not_fit() {
    let d = CalendarDay::from_days_from_ce(MIN_DAY).unwrap();
    assert!(window_fits(d, 0));
    assert_eq!(day_window(d, 0), vec![d]);
    assert!(!window_fits(d, 1));
    let d = CalendarDay::from_days_from_ce(MIN_DAY + 5).unwrap();
    assert!(window_fits(d, 5));
    assert_eq!(day_window(d, 5).len(), 6);
    assert!(!window_fits(d, 6));
    assert!(!window_fits(d, u64::MAX));
    let d = CalendarDay::from_days_from_ce(MAX_DAY).unwrap();
    assert!(window_fits(d, 1000));
}

#[test]
fn history_url_embeds_the_compact_date() {
    let d = CalendarDay::from_ymd(2023, 3, 15).unwrap();
    assert_eq!(history_url("https://zkb.example/api/history/", &d), "https://zkb.example/api/history/20230315.json");
}
