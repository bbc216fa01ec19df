use usdc_indexer::scanner::{
    scan_page, standing, PageScan, ScanRequest, SignatureEntry, SignatureScanner, Standing,
};
use usdc_indexer::window::TimeWindow;

fn entry(signature: &str, block_time: Option<i64>) -> SignatureEntry {
    SignatureEntry { signature: signature.to_string(), block_time }
}

fn window() -> TimeWindow {
    TimeWindow { start: 1_000, end: 2_000 }
}

#[test]
fn standing_of_an_entry() {
    let w = window();
    assert_eq!(standing(&w, &entry("a", None)), Standing::Untimed);
    assert_eq!(standing(&w, &entry("a", Some(999))), Standing::Older);
    assert_eq!(standing(&w, &entry("a", Some(1_000))), Standing::Inside);
    assert_eq!(standing(&w, &entry("a", Some(1_999))), Standing::Inside);
    assert_eq!(standing(&w, &entry("a", Some(2_000))), Standing::Newer);
    assert_eq!(standing(&w, &entry("a", Some(i64::MIN))), Standing::Older);
    assert_eq!(standing(&w, &entry("a", Some(i64::MAX))), Standing::Newer);
}

#[test]
fn scan_keeps_entries_in_the_window_in_their_order() {
    let page = vec![entry("s1", Some(1_900)), entry("s2", Some(1_500)), entry("s3", Some(1_000))];
    let found = scan_page(&window(), &page);
    assert_eq!(found, PageScan { entries: page.clone(), ended: false });
}

#[test]
fn scan_passes_over_entries_without_time() {
    let page = vec![entry("s1", None), entry("s2", Some(1_500)), entry("s3", None)];
    let found = scan_page(&window(), &page);
    assert_eq!(found, PageScan { entries: vec![entry("s2", Some(1_500))], ended: false });
}

#[test]
fn scan_passes_over_entries_newer_than_the_window() {
    let page = vec![entry("s1", Some(2_000)), entry("s2", Some(5_000)), entry("s3", Some(1_999))];
    let found = scan_page(&window(), &page);
    assert_eq!(found, PageScan { entries: vec![entry("s3", Some(1_999))], ended: false });
}

#[test]
fn scan_stops_before_an_entry_older_than_the_window() {
    let page = vec![
        entry("s1", Some(1_500)),
        entry("s3", Some(999)),
        entry("s4", Some(1_700)),
        entry("s5", Some(1_200)),
    ];
    let found = scan_page(&window(), &page);
    assert_eq!(found, PageScan { entries: vec![entry("s1", Some(1_500))], ended: true });
}

#[test]
fn scan_of_only_older_entries_yields_nothing() {
    let page: Vec<SignatureEntry> =
        (0..1000).map(|i| entry("old", Some(900 - i))).collect();
    let found = scan_page(&window(), &page);
    assert_eq!(found, PageScan { entries: vec![], ended: true });
}

#[test]
fn scan_of_an_empty_page() {
    let found = scan_page(&window(), &Vec::new());
    assert_eq!(found, PageScan { entries: vec![], ended: false });
}

#[test]
fn scanned_entries_all_lie_in_the_window() {
    let w = window();
    let page: Vec<SignatureEntry> = (0..400)
        .map(|i| entry("s", if i % 7 == 0 { None } else { Some(2_300 - 4 * i) }))
        .collect();
    let found = scan_page(&w, &page);
    assert!(found.ended);
    assert!(!found.entries.is_empty());
    for e in &found.entries {
        let time = e.block_time.unwrap();
        assert!(w.start <= time && time < w.end);
    }
}

#[test]
fn scanner_asks_for_the_newest_page_first() {
    let scanner = SignatureScanner::new(window());
    assert!(!scanner.finished());
    assert_eq!(scanner.next_request(), ScanRequest::Page { before: None });
}

#[test]
fn scanner_follows_the_last_entry_of_each_page() {
    let mut scanner = SignatureScanner::new(window());
    let first = vec![entry("s1", Some(1_900)), entry("s2", None)];
    assert_eq!(scanner.accept_page(&first), vec![entry("s1", Some(1_900))]);
    assert_eq!(scanner.next_request(), ScanRequest::Page { before: Some("s2".to_string()) });
    let second = vec![entry("s3", Some(1_100)), entry("s4", Some(900)), entry("s5", Some(1_100))];
    assert_eq!(scanner.accept_page(&second), vec![entry("s3", Some(1_100))]);
    assert!(scanner.finished());
    assert_eq!(scanner.next_request(), ScanRequest::Finished);
}

#[test]
fn scanner_ends_on_an_empty_page() {
    let mut scanner = SignatureScanner::new(window());
    assert_eq!(scanner.accept_page(&vec![entry("s1", Some(1_500))]), vec![entry("s1", Some(1_500))]);
    assert!(!scanner.finished());
    assert_eq!(scanner.accept_page(&Vec::new()), vec![]);
    assert!(scanner.finished());
    assert_eq!(scanner.next_request(), ScanRequest::Finished);
}

#[test]
fn scanner_that_is_over_takes_nothing() {
    let mut scanner = SignatureScanner::new(window());
    assert_eq!(scanner.accept_page(&vec![entry("s1", Some(10))]), vec![]);
    assert!(scanner.finished());
    assert_eq!(scanner.accept_page(&vec![entry("s2", Some(1_500))]), vec![]);
    assert!(scanner.finished());
    assert_eq!(scanner.next_request(), ScanRequest::Finished);
}
