//! Purging messages from the log channel, page by page from the newest back.

use crate::text::{decimal, decimal_nat, push_decimal, push_decimal_nat};
use vstd::prelude::*;
use vstd::string::StringExecFns;

verus! {

/// The least number of seconds between two edits of the progress message.
pub const PURGE_PROGRESS_INTERVAL_SECS: u64 = 5;

/// What to do with a message.
#[derive(Clone, Copy, Debug, PartialEq, Eq, Structural)]
pub enum PurgeDecision {
    /// Leave the message.
    Skip,
    /// Delete the message.
    Delete,
    /// The limit is reached: end the purge.
    Stop,
}

/// A purge in progress.
#[derive(Clone, Copy, Debug, PartialEq, Eq, Structural)]
pub struct Purge {
    /// The message that shows the progress, which is never deleted.
    pub progress_msg_id: u64,
    /// The user that the engine posts as.
    pub own_id: u64,
    /// The most messages to delete, if there is a limit.
    pub max_delete: Option<i64>,
    /// Whether the messages of other users go too.
    pub include_users: bool,
    /// How many messages have been deleted.
    pub deleted: i64,
    /// The oldest message seen, before which the next fetch looks.
    pub boundary: Option<u64>,
    /// Whether the purge has ended.
    pub finished: bool,
}

/// What is to be done with the message `msg_id` of the user `author_id`.
pub open spec fn decision_for(p: Purge, msg_id: u64, author_id: u64) -> PurgeDecision {
    if msg_id == p.progress_msg_id {
        PurgeDecision::Skip
    } else if p.max_delete is Some && p.deleted >= p.max_delete.unwrap() {
        PurgeDecision::Stop
    } else if p.include_users || author_id == p.own_id {
        PurgeDecision::Delete
    } else {
        PurgeDecision::Skip
    }
}

/// The tally of deleted messages after one more.
pub open spec fn tally_after(deleted: i64) -> i64 {
    if deleted < i64::MAX {
        (deleted + 1) as i64
    } else {
        deleted
    }
}

/// The purge at the end of a page whose oldest message is `oldest`: it ends
/// on an empty page and on a boundary that did not move.
pub open spec fn after_page(p: Purge, oldest: Option<u64>) -> Purge {
    if oldest is None || oldest == p.boundary {
        Purge { finished: true, ..p }
    } else {
        Purge { boundary: oldest, ..p }
    }
}

/// The text of a progress report of a purge.
pub open spec fn purge_text_spec(deleted: i64, max_delete: Option<i64>, started_at: u64) -> Seq<
    char,
> {
    "\u{1F504} Deleting in progress...\n\u{1F6AE} Deleted: `"@ + decimal(deleted as int) + (
    match max_delete {
        Some(max) => "/"@ + decimal(max as int),
        None => Seq::empty(),
    }) + "`\n-# Started <t:"@ + decimal_nat(started_at as nat) + ":R>"@
}

impl Purge {
    /// A purge that has not deleted anything yet.
    pub fn begin(
        progress_msg_id: u64,
        own_id: u64,
        max_delete: Option<i64>,
        include_users: Option<bool>,
    ) -> (p: Purge)
        ensures
            p == (Purge {
                progress_msg_id,
                own_id,
                max_delete,
                include_users: include_users == Some(true),
                deleted: 0,
                boundary: None,
                finished: false,
            }),
    {
        let include_users = match include_users {
            Some(b) => b,
            None => false,
        };
        Purge {
            progress_msg_id,
            own_id,
            max_delete,
            include_users,
            deleted: 0,
            boundary: None,
            finished: false,
        }
    }

    /// Decides what to do with a message.
    pub fn decide(&self, msg_id: u64, author_id: u64) -> (d: PurgeDecision)
        ensures
            d == decision_for(*self, msg_id, author_id),
    {
        if msg_id == self.progress_msg_id {
            return PurgeDecision::Skip;
        }
        match self.max_delete {
            Some(max) => {
                if self.deleted >= max {
                    return PurgeDecision::Stop;
                }
            },
            None => {},
        }
        if self.include_users || author_id == self.own_id {
            PurgeDecision::Delete
        } else {
            PurgeDecision::Skip
        }
    }

    /// Notes that a message was deleted. The tally stops at the largest
    /// number that it can hold.
    pub fn note_deleted(&mut self)
        ensures
            *final(self) == (Purge { deleted: tally_after(old(self).deleted), ..*old(self) }),
    {
        if self.deleted < i64::MAX {
            self.deleted = self.deleted + 1;
        }
    }

    /// Ends the purge, when the limit is reached.
    pub fn stop(&mut self)
        ensures
            *final(self) == (Purge { finished: true, ..*old(self) }),
    {
        self.finished = true;
    }

    /// Notes the end of a page. `oldest` is the last message of the page as
    /// the platform returned it, and `None` where the page was empty.
    pub fn end_page(&mut self, oldest: Option<u64>)
        ensures
            *final(self) == after_page(*old(self), oldest),
    {
        match oldest {
            None => {
                self.finished = true;
            },
            Some(id) => {
                let unmoved = match self.boundary {
                    Some(b) => b == id,
                    None => false,
                };
                if unmoved {
                    self.finished = true;
                } else {
                    self.boundary = Some(id);
                }
            },
        }
    }

    /// Renders a progress report.
    pub fn progress_text(&self, started_at: u64) -> (text: String)
        ensures
            text@ == purge_text_spec(self.deleted, self.max_delete, started_at),
    {
        let mut out = String::from_str(
            "\u{1F504} Deleting in progress...\n\u{1F6AE} Deleted: `",
        );
        push_decimal(&mut out, self.deleted as i128);
        let ghost before = out@;
        match self.max_delete {
            Some(max) => {
                out.append("/");
                push_decimal(&mut out, max as i128);
                proof {
                    assert(out@ =~= before + ("/"@ + decimal(max as int)));
                }
            },
            None => {
                proof {
                    assert(out@ =~= before + Seq::<char>::empty());
                }
            },
        }
        out.append("`\n-# Started <t:");
        push_decimal_nat(&mut out, started_at as u128);
        out.append(":R>");
        out
    }
}

} // verus!
