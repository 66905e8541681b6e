//! Reconciling freshly rendered pages with the messages published earlier:
//! a page whose message still exists is edited in place, any other page gets
//! a new message, and what was published for pages that are gone is dropped.
//! A call to the platform that fails ends the reconciliation.

use crate::data::PageIds;
use crate::session::SyncFailure;
use crate::sorted_map::SortedMap;
use std::collections::BTreeMap;
use vstd::prelude::*;

verus! {

/// What to do next for the page in turn.
#[derive(Clone, Copy, Debug, PartialEq, Eq, Structural)]
pub enum ReconcileAction {
    /// Look the message up; if it can be fetched, edit it to hold the text
    /// of the page.
    Edit { page: i64, message_id: u64 },
    /// Send the text of the page as a new message.
    Create { page: i64 },
    /// Every page has been dealt with.
    Finished,
    /// A call to the platform has failed: the reconciliation has ended, and
    /// what it recorded is not to be kept.
    Failed,
}

/// How the platform answered the action.
#[derive(Clone, Copy, Debug, PartialEq, Eq, Structural)]
pub enum ReconcileReply {
    /// The message was there and holds the new text.
    Edited,
    /// The message could not be fetched.
    Missing,
    /// The new message has this id.
    Created(u64),
    /// The call to the platform failed: the message could not be edited, or
    /// no message could be created.
    Failed,
}

/// A reconciliation in progress.
pub struct Reconciler {
    /// The message ids recorded by the last reconciliation.
    pub prior: PageIds,
    /// The fresh pages by number.
    pub rendered: SortedMap<i64, String>,
    /// How many pages have been dealt with.
    pub position: usize,
    /// Whether the message recorded for the page in turn was found missing.
    pub creating: bool,
    /// Whether a call to the platform has failed.
    pub failed: bool,
    /// The message ids recorded so far.
    pub result: PageIds,
}

/// A reconciliation as plain values.
pub struct ReconcilerView {
    pub prior: Map<i64, u64>,
    pub numbers: Seq<i64>,
    pub position: nat,
    pub creating: bool,
    pub failed: bool,
    pub result: Map<i64, u64>,
}

/// The page numbers of the rendered pages, in order.
pub open spec fn page_numbers(rendered: Seq<(i64, String)>) -> Seq<i64> {
    Seq::new(rendered.len(), |i: int| rendered[i].0)
}

impl View for Reconciler {
    type V = ReconcilerView;

    open spec fn view(&self) -> ReconcilerView {
        ReconcilerView {
            prior: self.prior@,
            numbers: page_numbers(self.rendered.entries()),
            position: self.position as nat,
            creating: self.creating,
            failed: self.failed,
            result: self.result@,
        }
    }
}

/// The start of a reconciliation: nothing dealt with, nothing recorded.
pub open spec fn start_of(prior: Map<i64, u64>, numbers: Seq<i64>) -> ReconcilerView {
    ReconcilerView {
        prior,
        numbers,
        position: 0,
        creating: false,
        failed: false,
        result: Map::empty(),
    }
}

/// The action that is due. A message is only ever named for the page in
/// turn, under the id recorded for that page.
pub open spec fn next_action(v: ReconcilerView) -> ReconcileAction {
    if v.failed {
        ReconcileAction::Failed
    } else if v.position >= v.numbers.len() {
        ReconcileAction::Finished
    } else {
        let page = v.numbers[v.position as int];
        if !v.creating && v.prior.dom().contains(page) {
            ReconcileAction::Edit { page, message_id: v.prior[page] }
        } else {
            ReconcileAction::Create { page }
        }
    }
}

/// The state after the page in turn has been dealt with.
pub open spec fn advanced(v: ReconcilerView, result: Map<i64, u64>) -> ReconcilerView {
    ReconcilerView { position: v.position + 1, creating: false, result, ..v }
}

/// The state after a reply. A failed call ends the reconciliation where it
/// stands. A reply that does not answer the action that was due changes
/// nothing.
pub open spec fn reconcile_step(v: ReconcilerView, reply: ReconcileReply) -> ReconcilerView {
    match (next_action(v), reply) {
        (ReconcileAction::Edit { page, message_id }, ReconcileReply::Edited) => advanced(
            v,
            v.result.insert(page, message_id),
        ),
        (ReconcileAction::Edit { .. }, ReconcileReply::Missing) => ReconcilerView {
            creating: true,
            ..v
        },
        (ReconcileAction::Create { page }, ReconcileReply::Created(id)) => advanced(
            v,
            v.result.insert(page, id),
        ),
        (ReconcileAction::Edit { .. }, ReconcileReply::Failed) => ReconcilerView {
            failed: true,
            ..v
        },
        (ReconcileAction::Create { .. }, ReconcileReply::Failed) => ReconcilerView {
            failed: true,
            ..v
        },
        _ => v,
    }
}

/// The state after a run of replies.
pub open spec fn reconcile_run(v: ReconcilerView, replies: Seq<ReconcileReply>) -> ReconcilerView
    decreases replies.len(),
{
    if replies.len() == 0 {
        v
    } else {
        reconcile_step(reconcile_run(v, replies.drop_last()), replies.last())
    }
}

/// What a reconciliation leaves: the recorded ids where every page has been
/// dealt with; a transport failure where a call has failed; and where it
/// was given up before its end, a cancellation.
pub open spec fn outcome_of(v: ReconcilerView) -> Result<Map<i64, u64>, SyncFailure> {
    if v.failed {
        Err(SyncFailure::Transport)
    } else if v.position >= v.numbers.len() {
        Ok(v.result)
    } else {
        Err(SyncFailure::Cancelled)
    }
}

/// Every recorded id stands under the number of a page that has been dealt
/// with.
pub open spec fn recorded_within(v: ReconcilerView) -> bool {
    &&& v.position <= v.numbers.len()
    &&& forall|page: i64| #[trigger]
        v.result.dom().contains(page) ==> exists|i: int|
            0 <= i < v.position && #[trigger] v.numbers[i] == page
}

impl Reconciler {
    /// The invariant of the type.
    pub open spec fn wf(self) -> bool {
        &&& self.rendered.wf()
        &&& self.position <= self.rendered.entries().len()
    }

    /// Begins the reconciliation of the rendered pages of a year with the
    /// message ids recorded for that year.
    pub fn begin(prior: PageIds, rendered: SortedMap<i64, String>) -> (r: Reconciler)
        requires
            rendered.wf(),
        ensures
            r.wf(),
            r@ == start_of(prior@, page_numbers(rendered.entries())),
            r.rendered == rendered,
    {
        Reconciler {
            prior,
            rendered,
            position: 0,
            creating: false,
            failed: false,
            result: BTreeMap::new(),
        }
    }

    /// The action that is due.
    pub fn action(&self) -> (a: ReconcileAction)
        requires
            self.wf(),
        ensures
            a == next_action(self@),
    {
        if self.failed {
            return ReconcileAction::Failed;
        }
        if self.position >= self.rendered.len() {
            return ReconcileAction::Finished;
        }
        let page = self.rendered.key_at(self.position);
        if self.creating {
            return ReconcileAction::Create { page };
        }
        match self.prior.get(&page) {
            Some(id) => ReconcileAction::Edit { page, message_id: *id },
            None => ReconcileAction::Create { page },
        }
    }

    /// The text of the page in turn, unless every page has been dealt with.
    pub fn current_text(&self) -> (t: Option<&String>)
        requires
            self.wf(),
        ensures
            match t {
                Some(text) => self.position < self.rendered.entries().len() && *text
                    == self.rendered.entries()[self.position as int].1,
                None => self.position == self.rendered.entries().len(),
            },
    {
        if self.position < self.rendered.len() {
            Some(self.rendered.value_at(self.position))
        } else {
            None
        }
    }

    /// Takes in the reply to the action that was due.
    pub fn accept(&mut self, reply: ReconcileReply)
        requires
            old(self).wf(),
        ensures
            final(self).wf(),
            final(self)@ == reconcile_step(old(self)@, reply),
            final(self).rendered == old(self).rendered,
            final(self).prior == old(self).prior,
    {
        if self.failed || self.position >= self.rendered.len() {
            return ;
        }
        let next: usize = self.position + 1;
        match self.action() {
            ReconcileAction::Edit { page, message_id } => match reply {
                ReconcileReply::Edited => {
                    self.result.insert(page, message_id);
                    self.position = next;
                    self.creating = false;
                },
                ReconcileReply::Missing => {
                    self.creating = true;
                },
                ReconcileReply::Failed => {
                    self.failed = true;
                },
                _ => {},
            },
            ReconcileAction::Create { page } => match reply {
                ReconcileReply::Created(id) => {
                    self.result.insert(page, id);
                    self.position = next;
                    self.creating = false;
                },
                ReconcileReply::Failed => {
                    self.failed = true;
                },
                _ => {},
            },
            ReconcileAction::Finished => {},
            ReconcileAction::Failed => {},
        }
    }

    /// Whether every page has been dealt with.
    pub fn is_finished(&self) -> (b: bool)
        requires
            self.wf(),
        ensures
            b == (next_action(self@) == ReconcileAction::Finished),
    {
        !self.failed && self.position >= self.rendered.len()
    }

    /// What the reconciliation leaves: the message ids to keep for the year
    /// where every page has been dealt with, and else why there are none.
    pub fn into_page_ids(self) -> (r: Result<PageIds, SyncFailure>)
        requires
            self.wf(),
        ensures
            match r {
                Ok(ids) => outcome_of(self@) == Ok::<Map<i64, u64>, SyncFailure>(ids@),
                Err(e) => outcome_of(self@) == Err::<Map<i64, u64>, SyncFailure>(e),
            },
    {
        if self.failed {
            Err(SyncFailure::Transport)
        } else if self.position >= self.rendered.len() {
            Ok(self.result)
        } else {
            Err(SyncFailure::Cancelled)
        }
    }
}

/// A step keeps what was recorded under the numbers of the pages dealt with.
pub proof fn lemma_step_within(v: ReconcilerView, reply: ReconcileReply)
    requires
        recorded_within(v),
    ensures
        recorded_within(reconcile_step(v, reply)),
        reconcile_step(v, reply).prior == v.prior,
        reconcile_step(v, reply).numbers == v.numbers,
{
    let w = reconcile_step(v, reply);
    assert forall|page: i64| #[trigger] w.result.dom().contains(page) implies exists|i: int|
        0 <= i < w.position && #[trigger] w.numbers[i] == page by {
        if v.result.dom().contains(page) {
            let i = choose|i: int| 0 <= i < v.position && #[trigger] v.numbers[i] == page;
            assert(w.numbers[i] == page);
        } else {
            assert(w.numbers[v.position as int] == page);
        }
    }
}

/// Shrinkage: whatever the replies, the ids recorded stand under numbers of
/// rendered pages only, so what was recorded for a page that is no longer
/// rendered is dropped.
pub proof fn lemma_stale_pages_dropped(
    prior: Map<i64, u64>,
    numbers: Seq<i64>,
    replies: Seq<ReconcileReply>,
    page: i64,
)
    requires
        !numbers.contains(page),
    ensures
        !reconcile_run(start_of(prior, numbers), replies).result.dom().contains(page),
{
    lemma_run_within(prior, numbers, replies);
    let v = reconcile_run(start_of(prior, numbers), replies);
    if v.result.dom().contains(page) {
        let i = choose|i: int| 0 <= i < v.position && #[trigger] v.numbers[i] == page;
        assert(numbers[i] == page);
    }
}

/// A run keeps what was recorded under the numbers of the pages dealt with.
pub proof fn lemma_run_within(
    prior: Map<i64, u64>,
    numbers: Seq<i64>,
    replies: Seq<ReconcileReply>,
)
    ensures
        recorded_within(reconcile_run(start_of(prior, numbers), replies)),
        reconcile_run(start_of(prior, numbers), replies).prior == prior,
        reconcile_run(start_of(prior, numbers), replies).numbers == numbers,
    decreases replies.len(),
{
    if replies.len() > 0 {
        lemma_run_within(prior, numbers, replies.drop_last());
        lemma_step_within(
            reconcile_run(start_of(prior, numbers), replies.drop_last()),
            replies.last(),
        );
    }
}

/// The replies of a run in which every message was found and edited.
pub open spec fn all_edited(n: nat) -> Seq<ReconcileReply> {
    Seq::new(n, |i: int| ReconcileReply::Edited)
}

/// While every page has a recorded message that is found, each page keeps
/// its id.
pub proof fn lemma_edits_keep_ids(prior: Map<i64, u64>, numbers: Seq<i64>, k: nat)
    requires
        k <= numbers.len(),
        forall|i: int| 0 <= i < numbers.len() ==> prior.dom().contains(#[trigger] numbers[i]),
    ensures
        reconcile_run(start_of(prior, numbers), all_edited(k)).position == k,
        !reconcile_run(start_of(prior, numbers), all_edited(k)).creating,
        !reconcile_run(start_of(prior, numbers), all_edited(k)).failed,
        reconcile_run(start_of(prior, numbers), all_edited(k)).prior == prior,
        reconcile_run(start_of(prior, numbers), all_edited(k)).numbers == numbers,
        forall|page: i64|
            #![trigger reconcile_run(start_of(prior, numbers), all_edited(k)).result.dom().contains(page)]
            reconcile_run(start_of(prior, numbers), all_edited(k)).result.dom().contains(page)
                <==> exists|i: int| 0 <= i < k && #[trigger] numbers[i] == page,
        forall|i: int|
            0 <= i < k ==> reconcile_run(start_of(prior, numbers), all_edited(k)).result[
            #[trigger] numbers[i]] == prior[numbers[i]],
    decreases k,
{
    if k > 0 {
        let j = (k - 1) as nat;
        lemma_edits_keep_ids(prior, numbers, j);
        assert(all_edited(k).drop_last() =~= all_edited(j));
        let v = reconcile_run(start_of(prior, numbers), all_edited(j));
        let w = reconcile_run(start_of(prior, numbers), all_edited(k));
        assert(w == reconcile_step(v, ReconcileReply::Edited));
        assert(prior.dom().contains(numbers[j as int]));
        assert forall|page: i64| #[trigger] w.result.dom().contains(page) <==> exists|i: int|
            0 <= i < k && #[trigger] numbers[i] == page by {
            if w.result.dom().contains(page) {
                if v.result.dom().contains(page) {
                    let i = choose|i: int| 0 <= i < j && #[trigger] numbers[i] == page;
                    assert(numbers[i] == page);
                } else {
                    assert(numbers[j as int] == page);
                }
            }
            if exists|i: int| 0 <= i < k && #[trigger] numbers[i] == page {
                let i = choose|i: int| 0 <= i < k && #[trigger] numbers[i] == page;
                if i < j {
                    assert(v.result.dom().contains(page));
                }
            }
        }
        assert forall|i: int| 0 <= i < k implies w.result[#[trigger] numbers[i]]
            == prior[numbers[i]] by {
            if i < j && numbers[i] != numbers[j as int] {
                assert(v.result[numbers[i]] == prior[numbers[i]]);
            }
        }
    }
}

/// Idempotence: where the pages rendered are the pages that were published,
/// and every published message is still found, reconciling leaves the
/// recorded ids as they were.
pub proof fn lemma_reconcile_idempotent(prior: Map<i64, u64>, numbers: Seq<i64>)
    requires
        forall|i: int| 0 <= i < numbers.len() ==> prior.dom().contains(#[trigger] numbers[i]),
        forall|page: i64| #[trigger] prior.dom().contains(page) ==> numbers.contains(page),
    ensures
        next_action(reconcile_run(start_of(prior, numbers), all_edited(numbers.len())))
            == ReconcileAction::Finished,
        reconcile_run(start_of(prior, numbers), all_edited(numbers.len())).result == prior,
{
    lemma_edits_keep_ids(prior, numbers, numbers.len());
    let w = reconcile_run(start_of(prior, numbers), all_edited(numbers.len()));
    assert forall|page: i64| w.result.dom().contains(page) <==> prior.dom().contains(page) by {
        if prior.dom().contains(page) {
            let i = choose|i: int| 0 <= i < numbers.len() && numbers[i] == page;
            assert(numbers[i] == page);
        }
        if w.result.dom().contains(page) {
            let i = choose|i: int| 0 <= i < numbers.len() && #[trigger] numbers[i] == page;
            assert(prior.dom().contains(numbers[i]));
        }
    }
    assert forall|page: i64| w.result.dom().contains(page) implies w.result[page]
        == prior[page] by {
        let i = choose|i: int| 0 <= i < numbers.len() && #[trigger] numbers[i] == page;
        assert(w.result[numbers[i]] == prior[numbers[i]]);
    }
    assert(w.result =~= prior);
}

/// Reconciling twice: where a first reconciliation, whatever its replies,
/// has left a message for every rendered page, a second one over the same
/// pages, all of whose messages are still found, leaves the recorded ids as
/// the first left them.
pub proof fn lemma_rerun_keeps_ids(
    prior: Map<i64, u64>,
    numbers: Seq<i64>,
    replies: Seq<ReconcileReply>,
)
    requires
        forall|i: int|
            0 <= i < numbers.len() ==> reconcile_run(
                start_of(prior, numbers),
                replies,
            ).result.dom().contains(#[trigger] numbers[i]),
    ensures
        reconcile_run(
            start_of(reconcile_run(start_of(prior, numbers), replies).result, numbers),
            all_edited(numbers.len()),
        ).result == reconcile_run(start_of(prior, numbers), replies).result,
{
    let first = reconcile_run(start_of(prior, numbers), replies);
    lemma_run_within(prior, numbers, replies);
    assert forall|page: i64| #[trigger] first.result.dom().contains(page) implies numbers.contains(
        page,
    ) by {
        let i = choose|i: int| 0 <= i < first.position && #[trigger] first.numbers[i] == page;
        assert(numbers[i] == page);
    }
    lemma_reconcile_idempotent(first.result, numbers);
}

/// A run that has dealt with every page without a failure has recorded a
/// message for every page.
pub proof fn lemma_finished_records_all(
    prior: Map<i64, u64>,
    numbers: Seq<i64>,
    replies: Seq<ReconcileReply>,
)
    ensures
        !reconcile_run(start_of(prior, numbers), replies).failed ==> forall|i: int|
            0 <= i < reconcile_run(start_of(prior, numbers), replies).position
                ==> reconcile_run(start_of(prior, numbers), replies).result.dom().contains(
                #[trigger] numbers[i],
            ),
    decreases replies.len(),
{
    if replies.len() > 0 {
        lemma_finished_records_all(prior, numbers, replies.drop_last());
        lemma_run_within(prior, numbers, replies.drop_last());
        let v = reconcile_run(start_of(prior, numbers), replies.drop_last());
        let w = reconcile_step(v, replies.last());
        if !w.failed {
            assert(!v.failed);
            assert forall|i: int| 0 <= i < w.position implies w.result.dom().contains(
                #[trigger] numbers[i],
            ) by {
                if i < v.position {
                    assert(v.result.dom().contains(numbers[i]));
                }
            }
        }
    }
}

/// Idempotence: where a first reconciliation, whatever its replies, has come
/// to its end, a second one over the same pages, all of whose messages are
/// still found, sends no new message and leaves the recorded ids as the
/// first left them.
pub proof fn lemma_reconcile_twice(
    prior: Map<i64, u64>,
    numbers: Seq<i64>,
    replies: Seq<ReconcileReply>,
)
    requires
        next_action(reconcile_run(start_of(prior, numbers), replies))
            == ReconcileAction::Finished,
    ensures
        outcome_of(
            reconcile_run(
                start_of(reconcile_run(start_of(prior, numbers), replies).result, numbers),
                all_edited(numbers.len()),
            ),
        ) == Ok::<Map<i64, u64>, SyncFailure>(
            reconcile_run(start_of(prior, numbers), replies).result,
        ),
        forall|k: int|
            0 <= k < numbers.len() ==> #[trigger] next_action(
                reconcile_run(
                    start_of(reconcile_run(start_of(prior, numbers), replies).result, numbers),
                    all_edited(k as nat),
                ),
            ) == (ReconcileAction::Edit {
                page: numbers[k],
                message_id: reconcile_run(start_of(prior, numbers), replies).result[numbers[k]],
            }),
{
    let first = reconcile_run(start_of(prior, numbers), replies);
    lemma_run_within(prior, numbers, replies);
    lemma_finished_records_all(prior, numbers, replies);
    lemma_rerun_keeps_ids(prior, numbers, replies);
    lemma_edits_keep_ids(first.result, numbers, numbers.len());
    assert forall|k: int| 0 <= k < numbers.len() implies #[trigger] next_action(
        reconcile_run(start_of(first.result, numbers), all_edited(k as nat)),
    ) == (ReconcileAction::Edit { page: numbers[k], message_id: first.result[numbers[k]] }) by {
        lemma_edits_keep_ids(first.result, numbers, k as nat);
    }
}

} // verus!
