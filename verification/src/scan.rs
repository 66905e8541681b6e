//! Scanning the history of a channel page by page, from a cursor.

use crate::aggregate::Message;
use crate::parse::{parse_count, parse_count_spec};
use vstd::prelude::*;

verus! {

/// The number of messages asked for with each fetch.
pub const FETCH_LIMIT: usize = 100;

/// The side of the cursor that a fetch looks at.
#[derive(Clone, Copy, Debug, PartialEq, Eq, Structural)]
pub enum Direction {
    /// Strictly older than the cursor: a walk from the newest message back.
    Before,
    /// Strictly newer than the cursor.
    After,
}

/// What to ask the platform for next.
#[derive(Clone, Copy, Debug, PartialEq, Eq, Structural)]
pub struct FetchRequest {
    pub direction: Direction,
    pub cursor: Option<u64>,
    pub limit: usize,
}

/// A scan in progress.
pub struct Scan {
    pub direction: Direction,
    /// The boundary of the next fetch: where the scan began, until a page
    /// has come; then the far end of the last page.
    pub boundary: Option<u64>,
    /// Whether the scan has ended.
    pub finished: bool,
    /// The messages gathered, oldest first.
    pub history: Vec<Message>,
    /// The first count read, in the order in which the pages came.
    pub first_count: Option<i64>,
    /// The last count read, in the order in which the pages came.
    pub latest_count: Option<i64>,
}

/// A scan as plain values.
pub struct ScanView {
    pub direction: Direction,
    pub boundary: Option<u64>,
    pub finished: bool,
    pub history: Seq<Message>,
    pub first_count: Option<i64>,
    pub latest_count: Option<i64>,
}

impl View for Scan {
    type V = ScanView;

    open spec fn view(&self) -> ScanView {
        ScanView {
            direction: self.direction,
            boundary: self.boundary,
            finished: self.finished,
            history: self.history@,
            first_count: self.first_count,
            latest_count: self.latest_count,
        }
    }
}

/// The counts that a run of messages holds: the bodies of the messages that
/// no bot wrote, as far as they are integers.
pub open spec fn counts_of(msgs: Seq<Message>) -> Seq<i64>
    decreases msgs.len(),
{
    if msgs.len() == 0 {
        Seq::empty()
    } else if !msgs.last().from_bot && parse_count_spec(msgs.last().content@) is Some {
        counts_of(msgs.drop_last()).push(parse_count_spec(msgs.last().content@).unwrap())
    } else {
        counts_of(msgs.drop_last())
    }
}

/// The far end of a page, which the platform hands over newest first: its
/// oldest message on the way back, its newest on the way forward.
pub open spec fn page_boundary(direction: Direction, page: Seq<Message>) -> u64 {
    match direction {
        Direction::Before => page.last().id,
        Direction::After => page.first().id,
    }
}

/// Whether the scan ends with this page, which is not empty: on the way
/// forward a page shorter than the limit is the last; in either direction a
/// boundary that did not move ends the scan.
pub open spec fn ends_scan(s: ScanView, page: Seq<Message>) -> bool {
    (s.direction == Direction::After && page.len() < FETCH_LIMIT) || s.boundary == Some(
        page_boundary(s.direction, page),
    )
}

/// The history with a page added: turned oldest first, and set before what
/// was gathered on the way back, behind it on the way forward.
pub open spec fn history_with(s: ScanView, page: Seq<Message>) -> Seq<Message> {
    match s.direction {
        Direction::Before => page.reverse() + s.history,
        Direction::After => s.history + page.reverse(),
    }
}

/// The scan after a page has come. An empty page ends the scan and changes
/// nothing else; a page that comes after the end is ignored.
pub open spec fn scan_step(s: ScanView, page: Seq<Message>) -> ScanView {
    if s.finished {
        s
    } else if page.len() == 0 {
        ScanView { finished: true, ..s }
    } else {
        ScanView {
            direction: s.direction,
            boundary: Some(page_boundary(s.direction, page)),
            finished: ends_scan(s, page),
            history: history_with(s, page),
            first_count: if s.first_count is None && counts_of(page.reverse()).len() > 0 {
                Some(counts_of(page.reverse()).first())
            } else {
                s.first_count
            },
            latest_count: if counts_of(page.reverse()).len() > 0 {
                Some(counts_of(page.reverse()).last())
            } else {
                s.latest_count
            },
        }
    }
}

/// The first and the last count of a run of messages.
fn count_ends(msgs: &Vec<Message>) -> (r: (Option<i64>, Option<i64>))
    ensures
        r.0 == (if counts_of(msgs@).len() > 0 {
            Some(counts_of(msgs@).first())
        } else {
            None
        }),
        r.1 == (if counts_of(msgs@).len() > 0 {
            Some(counts_of(msgs@).last())
        } else {
            None
        }),
{
    let mut first: Option<i64> = None;
    let mut last: Option<i64> = None;
    let mut i: usize = 0;
    while i < msgs.len()
        invariant
            i <= msgs.len(),
            first == (if counts_of(msgs@.take(i as int)).len() > 0 {
                Some(counts_of(msgs@.take(i as int)).first())
            } else {
                None
            }),
            last == (if counts_of(msgs@.take(i as int)).len() > 0 {
                Some(counts_of(msgs@.take(i as int)).last())
            } else {
                None
            }),
        decreases msgs.len() - i,
    {
        proof {
            let next = msgs@.take(i + 1);
            assert(next.drop_last() =~= msgs@.take(i as int));
            assert(next.last() == msgs@[i as int]);
        }
        if !msgs[i].from_bot {
            match parse_count(msgs[i].content.as_str()) {
                Some(v) => {
                    if first.is_none() {
                        first = Some(v);
                    }
                    last = Some(v);
                },
                None => {},
            }
        }
        i = i + 1;
    }
    proof {
        assert(msgs@.take(msgs@.len() as int) =~= msgs@);
    }
    (first, last)
}

/// Turns a page around: what came newest first stands oldest first.
fn reversed(page: Vec<Message>) -> (turned: Vec<Message>)
    ensures
        turned@ == page@.reverse(),
{
    let mut page = page;
    let ghost whole = page@;
    let mut turned: Vec<Message> = Vec::new();
    while page.len() > 0
        invariant
            page@.len() <= whole.len(),
            page@ == whole.take(page@.len() as int),
            turned@.len() == whole.len() - page@.len(),
            forall|j: int|
                0 <= j < turned@.len() ==> turned@[j] == whole[whole.len() - 1 - j],
        decreases page@.len(),
    {
        match page.pop() {
            Some(m) => {
                turned.push(m);
            },
            None => {},
        }
    }
    assert(turned@ =~= whole.reverse());
    turned
}

impl Scan {
    /// A scan that has not fetched anything yet. `cursor` is where it begins:
    /// `None` is the newest message on the way back, and the start of the
    /// history on the way forward.
    pub fn begin(direction: Direction, cursor: Option<u64>) -> (scan: Scan)
        ensures
            scan@ == (ScanView {
                direction,
                boundary: cursor,
                finished: false,
                history: Seq::empty(),
                first_count: None,
                latest_count: None,
            }),
    {
        Scan {
            direction,
            boundary: cursor,
            finished: false,
            history: Vec::new(),
            first_count: None,
            latest_count: None,
        }
    }

    /// The next fetch, unless the scan has ended.
    pub fn next_request(&self) -> (r: Option<FetchRequest>)
        ensures
            r == (if self.finished {
                None
            } else {
                Some(
                    FetchRequest {
                        direction: self.direction,
                        cursor: self.boundary,
                        limit: FETCH_LIMIT,
                    },
                )
            }),
    {
        if self.finished {
            None
        } else {
            Some(
                FetchRequest {
                    direction: self.direction,
                    cursor: self.boundary,
                    limit: FETCH_LIMIT,
                },
            )
        }
    }

    /// Takes in a page as the platform returned it, newest message first.
    pub fn accept_page(&mut self, page: Vec<Message>)
        ensures
            final(self)@ == scan_step(old(self)@, page@),
    {
        if self.finished {
            return ;
        }
        let n = page.len();
        if n == 0 {
            self.finished = true;
            return ;
        }
        let boundary = match self.direction {
            Direction::Before => page[n - 1].id,
            Direction::After => page[0].id,
        };
        let unmoved = match self.boundary {
            Some(b) => b == boundary,
            None => false,
        };
        let short = match self.direction {
            Direction::Before => false,
            Direction::After => n < FETCH_LIMIT,
        };
        let mut turned = reversed(page);
        let (first, last) = count_ends(&turned);
        if self.first_count.is_none() {
            self.first_count = first;
        }
        if last.is_some() {
            self.latest_count = last;
        }
        match self.direction {
            Direction::Before => {
                turned.append(&mut self.history);
                self.history = turned;
            },
            Direction::After => {
                self.history.append(&mut turned);
            },
        }
        self.boundary = Some(boundary);
        self.finished = short || unmoved;
    }

    /// The identity of the newest message gathered, from which a later scan
    /// goes on; where nothing was gathered, where this scan began.
    pub fn resume_cursor(&self) -> (c: Option<u64>)
        ensures
            c == resume_cursor_of(self@),
    {
        let n = self.history.len();
        if n > 0 {
            Some(self.history[n - 1].id)
        } else {
            self.boundary
        }
    }
}

/// The cursor that a scan leaves behind.
pub open spec fn resume_cursor_of(s: ScanView) -> Option<u64> {
    if s.history.len() > 0 {
        Some(s.history.last().id)
    } else {
        s.boundary
    }
}

} // verus!
