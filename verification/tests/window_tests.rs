use usdc_indexer::window::TimeWindow;

#[test]
fn window_of_one_day_ends_at_the_given_second() {
    assert_eq!(
        TimeWindow::last_days(1_700_000_000, 1),
        Some(TimeWindow { start: 1_699_913_600, end: 1_700_000_000 })
    );
}

#[test]
fn window_is_half_open() {
    let window = TimeWindow::last_days(1_000_000, 2).unwrap();
    assert_eq!(window.start, 827_200);
    assert!(window.contains(827_200));
    assert!(!window.contains(827_199));
    assert!(window.contains(999_999));
    assert!(!window.contains(1_000_000));
}

#[test]
fn window_of_no_days_holds_nothing() {
    let window = TimeWindow::last_days(500, 0).unwrap();
    assert_eq!(window, TimeWindow { start: 500, end: 500 });
    assert!(!window.contains(500));
    assert!(!window.contains(499));
}

#[test]
fn window_of_negative_days_holds_nothing() {
    let window = TimeWindow::last_days(500, -1).unwrap();
    assert_eq!(window, TimeWindow { start: 86_900, end: 500 });
    assert!(!window.contains(500));
    assert!(!window.contains(86_900));
    assert!(!window.contains(1_000));
}

#[test]
fn window_that_cannot_be_written_is_refused() {
    assert_eq!(TimeWindow::last_days(0, i64::MAX), None);
    assert_eq!(TimeWindow::last_days(i64::MIN, 1), None);
    assert_eq!(TimeWindow::last_days(i64::MAX, -1), None);
    assert_eq!(
        TimeWindow::last_days(i64::MIN + 86_400, 1),
        Some(TimeWindow { start: i64::MIN, end: i64::MIN + 86_400 })
    );
}

#[test]
fn instant_inside_a_second_rounds_the_end_up() {
    assert_eq!(
        TimeWindow::ending_at(1_700_000_000, 0, 1),
        Some(TimeWindow { start: 1_699_913_600, end: 1_700_000_000 })
    );
    assert_eq!(
        TimeWindow::ending_at(1_700_000_000, 1, 1),
        Some(TimeWindow { start: 1_699_913_601, end: 1_700_000_001 })
    );
    assert_eq!(
        TimeWindow::ending_at(1_700_000_000, 999_999_999, 1),
        Some(TimeWindow { start: 1_699_913_601, end: 1_700_000_001 })
    );
}

#[test]
fn instant_past_the_last_second_is_refused() {
    assert_eq!(TimeWindow::ending_at(i64::MAX, 1, 1), None);
    assert_eq!(
        TimeWindow::ending_at(i64::MAX, 0, 1),
        Some(TimeWindow { start: i64::MAX - 86_400, end: i64::MAX })
    );
}
