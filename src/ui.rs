use vstd::prelude::*;
use crate::notifications::{Notice, UiNotification};
use crate::table::{insert_keyed, keyed_view, remove_keyed, table_insert, without_key};

verus! {

/// The terminal status display.
pub struct Tui {}

pub const NANOS_PER_SECOND: u128 = 1_000_000_000;

/// How long ago a watched path was last copied.
#[derive(Clone, Copy, Debug, PartialEq, Eq, Structural)]
pub enum Freshness {
    /// No copy since watching began.
    NotYet,
    /// Under ten seconds ago.
    JustNow,
    /// Under a minute ago.
    UnderMinute,
    /// Under ten minutes ago.
    UnderTenMinutes,
    /// Ten minutes ago or more.
    Older,
}

/// The class of the time from `copied_at` to `now`, both in nanoseconds
/// since the epoch; a copy time after `now` counts as no time at all.
pub open spec fn freshness_of(copied_at: Option<u128>, now: u128) -> Freshness {
    match copied_at {
        None => Freshness::NotYet,
        Some(t) => {
            let elapsed = if now >= t { now - t } else { 0 };
            if elapsed < 10 * NANOS_PER_SECOND {
                Freshness::JustNow
            } else if elapsed < 60 * NANOS_PER_SECOND {
                Freshness::UnderMinute
            } else if elapsed < 600 * NANOS_PER_SECOND {
                Freshness::UnderTenMinutes
            } else {
                Freshness::Older
            }
        },
    }
}

impl Tui {
    /// Classifies how long ago a path was last copied, if ever.
    pub fn freshness(copied_at: Option<u128>, now: u128) -> (r: Freshness)
        ensures
            r == freshness_of(copied_at, now),
    {
        match copied_at {
            None => Freshness::NotYet,
            Some(t) => {
                let elapsed: u128 = if now >= t { now - t } else { 0 };
                if elapsed < 10 * NANOS_PER_SECOND {
                    Freshness::JustNow
                } else if elapsed < 60 * NANOS_PER_SECOND {
                    Freshness::UnderMinute
                } else if elapsed < 600 * NANOS_PER_SECOND {
                    Freshness::UnderTenMinutes
                } else {
                    Freshness::Older
                }
            },
        }
    }
}

/// A line of the status board: a watched path and when it was last copied.
pub type BoardEntry = (Seq<char>, Option<u128>);

/// The board after a status event at time `now`: a path that starts being
/// watched shows as not yet copied, one that stops is removed, and a copy
/// stamps its source with `now`.
pub open spec fn board_after(b: Seq<BoardEntry>, n: Notice, now: u128) -> Seq<BoardEntry> {
    match n {
        Notice::Started => b,
        Notice::StartedWatching(p) => table_insert(b, (p, None)),
        Notice::StoppedWatching(p) => without_key(b, p),
        Notice::Copied(from, _) => table_insert(b, (from, Some(now))),
    }
}

/// What the status display shows: one line per watched path.
pub struct StatusBoard {
    entries: Vec<(String, Option<u128>)>,
}

impl View for StatusBoard {
    type V = Seq<BoardEntry>;

    closed spec fn view(&self) -> Seq<BoardEntry> {
        keyed_view(self.entries@)
    }
}

impl StatusBoard {
    pub fn new() -> (r: StatusBoard)
        ensures
            r@ == Seq::<BoardEntry>::empty(),
    {
        let r = StatusBoard { entries: Vec::new() };
        assert(r@ =~= Seq::<BoardEntry>::empty());
        r
    }

    /// Takes a status event received at `now` into account.
    pub fn apply(&mut self, notification: &UiNotification, now: u128)
        ensures
            final(self)@ == board_after(old(self)@, notification@, now),
    {
        match notification {
            UiNotification::Started => {},
            UiNotification::StartedWatching(p) => insert_keyed(&mut self.entries, p, None),
            UiNotification::StoppedWatching(p) => remove_keyed(&mut self.entries, p),
            UiNotification::Copied(from, _) => insert_keyed(&mut self.entries, from, Some(now)),
        }
    }

    /// The lines of the board, in order.
    pub fn lines(&self) -> (r: Vec<(String, Option<u128>)>)
        ensures
            keyed_view(r@) == self@,
    {
        let mut r: Vec<(String, Option<u128>)> = Vec::new();
        let n = self.entries.len();
        let mut i: usize = 0;
        while i < n
            invariant
                n == self@.len(),
                i <= n,
                keyed_view(r@) =~= self@.subrange(0, i as int),
            decreases n - i,
        {
            assert(self@[i as int] == (self.entries@[i as int].0@, self.entries@[i as int].1));
            let ghost k = r@;
            r.push((self.entries[i].0.clone(), self.entries[i].1));
            assert(keyed_view(r@) =~= keyed_view(k).push(self@[i as int]));
            i = i + 1;
        }
        assert(self@.subrange(0, n as int) =~= self@);
        r
    }
}

} // verus!
