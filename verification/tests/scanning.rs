use countlogger::aggregate::Message;
use countlogger::scan::{Direction, FetchRequest, Scan, FETCH_LIMIT};

fn message(id: u64, body: &str) -> Message {
    Message { id, from_bot: false, content: body.to_string(), timestamp: 1_715_342_400 + id as i64 }
}

/// A channel holding the messages 1..=n, which answers as the platform does:
/// the messages next to the cursor, newest first.
fn fetch(n: u64, request: &FetchRequest) -> Vec<Message> {
    let mut ids: Vec<u64> = match (request.direction, request.cursor) {
        (Direction::After, Some(c)) => (1..=n).filter(|id| *id > c).take(request.limit).collect(),
        (Direction::After, None) => (1..=n).take(request.limit).collect(),
        (Direction::Before, Some(c)) => {
            (1..=n).rev().filter(|id| *id < c).take(request.limit).collect()
        }
        (Direction::Before, None) => (1..=n).rev().take(request.limit).collect(),
    };
    ids.sort();
    ids.reverse();
    ids.into_iter().map(|id| message(id, &id.to_string())).collect()
}

fn drive(mut scan: Scan, n: u64) -> (Scan, usize) {
    let mut fetches = 0;
    while let Some(request) = scan.next_request() {
        assert!(fetches < 1000);
        assert_eq!(request.limit, FETCH_LIMIT);
        scan.accept_page(fetch(n, &request));
        fetches += 1;
    }
    (scan, fetches)
}

#[test]
fn cursor_termination() {
    let (scan, fetches) = drive(Scan::begin(Direction::After, None), 150);
    assert_eq!(fetches, 2);
    assert!(scan.finished);
    assert_eq!(scan.history.len(), 150);
    assert_eq!(scan.history[0].id, 1);
    assert_eq!(scan.history[149].id, 150);
    assert_eq!(scan.resume_cursor(), Some(150));
}

#[test]
fn a_forward_scan_resumes_after_the_cursor() {
    let (scan, fetches) = drive(Scan::begin(Direction::After, Some(120)), 150);
    assert_eq!(fetches, 1);
    assert_eq!(scan.history.len(), 30);
    assert_eq!(scan.history[0].id, 121);
    assert_eq!(scan.resume_cursor(), Some(150));
}

#[test]
fn a_forward_scan_with_nothing_new_keeps_its_cursor() {
    let (scan, fetches) = drive(Scan::begin(Direction::After, Some(150)), 150);
    assert_eq!(fetches, 1);
    assert_eq!(scan.history.len(), 0);
    assert_eq!(scan.boundary, Some(150));
    assert_eq!(scan.resume_cursor(), Some(150));
}

#[test]
fn a_full_page_is_followed_by_another_fetch() {
    let (scan, fetches) = drive(Scan::begin(Direction::After, None), 200);
    // two full pages, then the empty page that ends the scan
    assert_eq!(fetches, 3);
    assert_eq!(scan.history.len(), 200);
}

#[test]
fn a_backward_scan_ends_on_the_empty_page() {
    let (scan, fetches) = drive(Scan::begin(Direction::Before, None), 150);
    assert_eq!(fetches, 3);
    assert_eq!(scan.history.len(), 150);
    // oldest first, although the pages came newest first
    for i in 0..150 {
        assert_eq!(scan.history[i].id, i as u64 + 1);
    }
    assert_eq!(scan.boundary, Some(1));
    assert_eq!(scan.resume_cursor(), Some(150));
    assert_eq!(scan.first_count, Some(51));
    assert_eq!(scan.latest_count, Some(50));
}

#[test]
fn an_empty_channel_ends_at_once() {
    let (scan, fetches) = drive(Scan::begin(Direction::Before, None), 0);
    assert_eq!(fetches, 1);
    assert_eq!(scan.history.len(), 0);
    assert_eq!(scan.resume_cursor(), None);
    assert_eq!(scan.first_count, None);
}

#[test]
fn a_boundary_that_does_not_move_halts_the_scan() {
    let mut scan = Scan::begin(Direction::Before, None);
    let page = || vec![message(9, "9"), message(8, "8")];
    scan.accept_page(page());
    assert!(!scan.finished);
    assert_eq!(scan.boundary, Some(8));
    // the platform answers with the same page again
    scan.accept_page(page());
    assert!(scan.finished);
    assert_eq!(scan.next_request(), None);
}

#[test]
fn a_finished_scan_ignores_pages() {
    let mut scan = Scan::begin(Direction::After, None);
    scan.accept_page(Vec::new());
    assert!(scan.finished);
    scan.accept_page(vec![message(1, "1")]);
    assert_eq!(scan.history.len(), 0);
    assert_eq!(scan.boundary, None);
}

#[test]
fn requests_name_direction_and_cursor() {
    let scan = Scan::begin(Direction::After, Some(7));
    assert_eq!(
        scan.next_request(),
        Some(FetchRequest { direction: Direction::After, cursor: Some(7), limit: 100 })
    );
}
