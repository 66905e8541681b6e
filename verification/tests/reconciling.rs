use countlogger::data::PageIds;
use countlogger::reconcile::{ReconcileAction, ReconcileReply, Reconciler};
use countlogger::session::SyncFailure;
use countlogger::sorted_map::SortedMap;

fn rendered(pages: i64) -> SortedMap<i64, String> {
    let mut m: SortedMap<i64, String> = SortedMap::new();
    for p in 1..=pages {
        m.insert(p, format!("page {}", p));
    }
    m
}

fn ids(entries: &[(i64, u64)]) -> PageIds {
    entries.iter().copied().collect()
}

fn listed(m: &PageIds) -> Vec<(i64, u64)> {
    m.iter().map(|(page, id)| (*page, *id)).collect()
}

/// A platform on which the messages `alive` exist and new messages get the
/// ids from `next_id` on. Returns what was recorded and the ids that any
/// action named.
fn reconcile(
    prior: PageIds,
    pages: i64,
    alive: &[u64],
    mut next_id: u64,
) -> (PageIds, Vec<u64>, Vec<String>) {
    let mut r = Reconciler::begin(prior, rendered(pages));
    let mut touched = Vec::new();
    let mut sent = Vec::new();
    let mut steps = 0;
    loop {
        steps += 1;
        assert!(steps < 1000);
        match r.action() {
            ReconcileAction::Finished => break,
            ReconcileAction::Failed => panic!("no call fails here"),
            ReconcileAction::Edit { page, message_id } => {
                assert_eq!(r.current_text(), Some(&format!("page {}", page)));
                touched.push(message_id);
                if alive.contains(&message_id) {
                    r.accept(ReconcileReply::Edited);
                } else {
                    r.accept(ReconcileReply::Missing);
                }
            }
            ReconcileAction::Create { page } => {
                sent.push(r.current_text().unwrap().clone());
                assert_eq!(sent.last().unwrap(), &format!("page {}", page));
                r.accept(ReconcileReply::Created(next_id));
                next_id += 1;
            }
        }
    }
    assert!(r.is_finished());
    assert_eq!(r.current_text(), None);
    (r.into_page_ids().unwrap(), touched, sent)
}

#[test]
fn new_pages_are_created() {
    let (result, touched, sent) = reconcile(ids(&[]), 3, &[], 500);
    assert_eq!(listed(&result), vec![(1, 500), (2, 501), (3, 502)]);
    assert!(touched.is_empty());
    assert_eq!(sent.len(), 3);
}

#[test]
fn idempotent_reconciliation() {
    let (first, _, _) = reconcile(ids(&[]), 3, &[], 500);
    let published = listed(&first);
    let (second, touched, sent) = reconcile(first, 3, &[500, 501, 502], 900);
    assert_eq!(listed(&second), published);
    assert_eq!(touched, vec![500, 501, 502]);
    assert!(sent.is_empty());
    let (third, _, sent) = reconcile(second, 3, &[500, 501, 502], 900);
    assert_eq!(listed(&third), published);
    assert!(sent.is_empty());
}

#[test]
fn reconciliation_shrink() {
    let prior = ids(&[(1, 101), (2, 102), (3, 103)]);
    let (result, touched, sent) = reconcile(prior, 2, &[101, 102, 103], 900);
    assert_eq!(listed(&result), vec![(1, 101), (2, 102)]);
    // the message of the third page is neither edited nor looked up
    assert_eq!(touched, vec![101, 102]);
    assert!(sent.is_empty());
    // nor by the next sync, which no longer knows it
    let (again, touched, _) = reconcile(result, 2, &[101, 102, 103], 900);
    assert_eq!(listed(&again), vec![(1, 101), (2, 102)]);
    assert!(!touched.contains(&103));
}

#[test]
fn a_missing_message_is_replaced() {
    let prior = ids(&[(1, 101), (2, 102)]);
    let (result, touched, sent) = reconcile(prior, 3, &[101], 900);
    assert_eq!(listed(&result), vec![(1, 101), (2, 900), (3, 901)]);
    assert_eq!(touched, vec![101, 102]);
    assert_eq!(sent, vec!["page 2".to_string(), "page 3".to_string()]);
}

#[test]
fn a_failed_send_ends_the_reconciliation() {
    let mut r = Reconciler::begin(ids(&[]), rendered(2));
    assert_eq!(r.action(), ReconcileAction::Create { page: 1 });
    r.accept(ReconcileReply::Created(7));
    assert_eq!(r.action(), ReconcileAction::Create { page: 2 });
    r.accept(ReconcileReply::Failed);
    assert_eq!(r.action(), ReconcileAction::Failed);
    assert!(!r.is_finished());
    // nothing moves it on
    r.accept(ReconcileReply::Created(8));
    assert_eq!(r.action(), ReconcileAction::Failed);
    assert!(matches!(r.into_page_ids(), Err(SyncFailure::Transport)));
}

#[test]
fn a_failed_edit_ends_the_reconciliation() {
    let mut r = Reconciler::begin(ids(&[(1, 101), (2, 102)]), rendered(2));
    assert_eq!(r.action(), ReconcileAction::Edit { page: 1, message_id: 101 });
    r.accept(ReconcileReply::Failed);
    assert_eq!(r.action(), ReconcileAction::Failed);
    assert!(matches!(r.into_page_ids(), Err(SyncFailure::Transport)));
}

#[test]
fn a_reconciliation_given_up_midway_leaves_no_ids() {
    let mut r = Reconciler::begin(ids(&[]), rendered(2));
    r.accept(ReconcileReply::Created(7));
    assert!(!r.is_finished());
    assert!(matches!(r.into_page_ids(), Err(SyncFailure::Cancelled)));
    let done = Reconciler::begin(ids(&[(1, 101)]), rendered(0));
    assert!(done.is_finished());
    assert!(listed(&done.into_page_ids().unwrap()).is_empty());
}

#[test]
fn a_reply_that_does_not_answer_is_ignored() {
    let mut r = Reconciler::begin(ids(&[(1, 101)]), rendered(1));
    assert_eq!(r.action(), ReconcileAction::Edit { page: 1, message_id: 101 });
    r.accept(ReconcileReply::Created(5));
    assert_eq!(r.action(), ReconcileAction::Edit { page: 1, message_id: 101 });
    r.accept(ReconcileReply::Missing);
    assert_eq!(r.action(), ReconcileAction::Create { page: 1 });
    r.accept(ReconcileReply::Edited);
    r.accept(ReconcileReply::Missing);
    assert_eq!(r.action(), ReconcileAction::Create { page: 1 });
    r.accept(ReconcileReply::Created(5));
    assert_eq!(r.action(), ReconcileAction::Finished);
    r.accept(ReconcileReply::Created(6));
    r.accept(ReconcileReply::Failed);
    assert_eq!(r.action(), ReconcileAction::Finished);
    assert_eq!(listed(&r.into_page_ids().unwrap()), vec![(1, 5)]);
}

#[test]
fn nothing_rendered_drops_everything() {
    let (result, touched, sent) = reconcile(ids(&[(1, 101), (2, 102)]), 0, &[101, 102], 900);
    assert!(listed(&result).is_empty());
    assert!(touched.is_empty());
    assert!(sent.is_empty());
}
