use vstd::prelude::*;

verus! {

/// A message on the control stream that the dispatch loop consumes.
#[derive(Clone, Debug, PartialEq, Eq)]
pub enum Notification {
    /// The file at this path was written.
    ChangeDetected(String),
    /// `false` asks the dispatch loop to unwatch everything and end.
    ShouldStop(bool),
}

/// A status event broadcast to observers.
#[derive(Clone, Debug, PartialEq, Eq)]
pub enum UiNotification {
    Started,
    StartedWatching(String),
    StoppedWatching(String),
    Copied(String, String),
}

/// The mathematical value of a control message.
pub enum Message {
    ChangeDetected(Seq<char>),
    ShouldStop(bool),
}

/// The mathematical value of a status event.
pub enum Notice {
    Started,
    StartedWatching(Seq<char>),
    StoppedWatching(Seq<char>),
    Copied(Seq<char>, Seq<char>),
}

impl View for Notification {
    type V = Message;

    open spec fn view(&self) -> Message {
        match self {
            Notification::ChangeDetected(p) => Message::ChangeDetected(p@),
            Notification::ShouldStop(b) => Message::ShouldStop(*b),
        }
    }
}

impl View for UiNotification {
    type V = Notice;

    open spec fn view(&self) -> Notice {
        match self {
            UiNotification::Started => Notice::Started,
            UiNotification::StartedWatching(p) => Notice::StartedWatching(p@),
            UiNotification::StoppedWatching(p) => Notice::StoppedWatching(p@),
            UiNotification::Copied(f, t) => Notice::Copied(f@, t@),
        }
    }
}

pub open spec fn notices(v: Seq<UiNotification>) -> Seq<Notice> {
    v.map_values(|n: UiNotification| n@)
}

pub open spec fn strings_view(v: Seq<String>) -> Seq<Seq<char>> {
    v.map_values(|s: String| s@)
}

/// How many times `x` occurs in `s`.
pub open spec fn occurrences<A>(s: Seq<A>, x: A) -> nat
    decreases s.len(),
{
    if s.len() == 0 {
        0
    } else {
        occurrences(s.drop_last(), x) + if s.last() == x { 1nat } else { 0nat }
    }
}

pub proof fn lemma_occurrences_concat<A>(a: Seq<A>, b: Seq<A>, x: A)
    ensures
        occurrences(a + b, x) == occurrences(a, x) + occurrences(b, x),
    decreases b.len(),
{
    if b.len() == 0 {
        assert(a + b =~= a);
    } else {
        assert((a + b).drop_last() =~= a + b.drop_last());
        lemma_occurrences_concat(a, b.drop_last(), x);
    }
}

} // verus!
