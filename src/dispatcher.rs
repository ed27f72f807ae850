use vstd::prelude::*;
use crate::description::{descriptions_view, FileDescription};
use crate::notifications::{
    lemma_occurrences_concat, notices, occurrences, strings_view, Message, Notice, Notification, UiNotification,
};
use crate::table::{entry_view, insert_entry, lemma_table_of_unique, table_of, table_view, unique_keys, Entry};

verus! {

/// Where a watch session stands.
#[derive(Clone, Copy, Debug, PartialEq, Eq, Structural)]
pub enum Phase {
    /// Targets known, nothing watched yet.
    Constructed,
    /// Watching; change messages are dispatched.
    Running,
    /// A stop was received; the watched paths are being released.
    Stopping,
    /// Done: every message is ignored.
    Stopped,
}

/// The mathematical state of a dispatcher: the targets keyed by source path,
/// which of them are under watch, and the phase.
pub struct DispatcherView {
    pub targets: Seq<Entry>,
    pub watched: Seq<bool>,
    pub phase: Phase,
}

/// What the dispatch loop must do in answer to one control message.
pub enum Reaction {
    Ignore,
    /// Copy this target, then report it.
    Copy(FileDescription),
    /// End the watch on each of these paths, then call `finish`.
    Unwatch(Vec<String>),
}

pub enum ReactionView {
    Ignore,
    Copy(Entry),
    Unwatch(Seq<Seq<char>>),
}

impl View for Reaction {
    type V = ReactionView;

    open spec fn view(&self) -> ReactionView {
        match self {
            Reaction::Ignore => ReactionView::Ignore,
            Reaction::Copy(d) => ReactionView::Copy(d@),
            Reaction::Unwatch(v) => ReactionView::Unwatch(strings_view(v@)),
        }
    }
}

pub open spec fn wf(v: DispatcherView) -> bool {
    &&& unique_keys(v.targets)
    &&& v.watched.len() == v.targets.len()
    &&& (v.phase == Phase::Constructed || v.phase == Phase::Stopped) ==> (forall|i: int|
        0 <= i < v.watched.len() ==> !v.watched[i])
}

pub open spec fn nothing_watched(n: nat) -> Seq<bool> {
    Seq::new(n, |i: int| false)
}

/// The state after construction from a list of targets; a later target with
/// the same source path replaces the destination of an earlier one.
pub open spec fn initial(targets: Seq<Entry>) -> DispatcherView {
    let t = table_of(seq![], targets);
    DispatcherView { targets: t, watched: nothing_watched(t.len()), phase: Phase::Constructed }
}

/// `StartedWatching` for each target whose watch began, in target order.
pub open spec fn began(t: Seq<Entry>, ok: Seq<bool>) -> Seq<Notice>
    decreases t.len(),
{
    if t.len() == 0 || ok.len() == 0 {
        seq![]
    } else {
        let prev = began(t.drop_last(), ok.drop_last());
        if ok.last() {
            prev.push(Notice::StartedWatching(t.last().0))
        } else {
            prev
        }
    }
}

/// The source paths of the watched targets, in target order.
pub open spec fn watched_sources(t: Seq<Entry>, w: Seq<bool>) -> Seq<Seq<char>>
    decreases t.len(),
{
    if t.len() == 0 || w.len() == 0 {
        seq![]
    } else {
        let prev = watched_sources(t.drop_last(), w.drop_last());
        if w.last() {
            prev.push(t.last().0)
        } else {
            prev
        }
    }
}

/// `StoppedWatching` for each path whose watch ended without error.
pub open spec fn stopped(paths: Seq<Seq<char>>, ok: Seq<bool>) -> Seq<Notice>
    decreases paths.len(),
{
    if paths.len() == 0 || ok.len() == 0 {
        seq![]
    } else {
        let prev = stopped(paths.drop_last(), ok.drop_last());
        if ok.last() {
            prev.push(Notice::StoppedWatching(paths.last()))
        } else {
            prev
        }
    }
}

/// The events of a start: `Started`, then one `StartedWatching` per watched path.
pub open spec fn start_notices(t: Seq<Entry>, ok: Seq<bool>) -> Seq<Notice> {
    seq![Notice::Started] + began(t, ok)
}

pub open spec fn after_start(v: DispatcherView, ok: Seq<bool>) -> DispatcherView {
    DispatcherView { watched: ok, phase: Phase::Running, ..v }
}

pub open spec fn after_finish(v: DispatcherView) -> DispatcherView {
    DispatcherView { watched: nothing_watched(v.targets.len()), phase: Phase::Stopped, ..v }
}

pub open spec fn watched_target(v: DispatcherView, p: Seq<char>, i: int) -> bool {
    0 <= i < v.targets.len() && v.targets[i].0 == p && v.watched[i]
}

/// The answer to one control message. Only a running session reacts: a change
/// of a watched path is copied, a change of any other path is discarded, and
/// `ShouldStop(false)` releases every watched path.
pub open spec fn react(v: DispatcherView, m: Message) -> (DispatcherView, ReactionView) {
    if v.phase == Phase::Running {
        match m {
            Message::ChangeDetected(p) => {
                if exists|i: int| watched_target(v, p, i) {
                    let i = choose|i: int| watched_target(v, p, i);
                    (v, ReactionView::Copy(v.targets[i]))
                } else {
                    (v, ReactionView::Ignore)
                }
            },
            Message::ShouldStop(b) => {
                if !b {
                    (
                        DispatcherView { phase: Phase::Stopping, ..v },
                        ReactionView::Unwatch(watched_sources(v.targets, v.watched)),
                    )
                } else {
                    (v, ReactionView::Ignore)
                }
            },
        }
    } else {
        (v, ReactionView::Ignore)
    }
}

/// The status events that follow a reaction once its work is done.
pub open spec fn reaction_notices(r: ReactionView) -> Seq<Notice> {
    match r {
        ReactionView::Copy(e) => seq![Notice::Copied(e.0, e.1)],
        _ => seq![],
    }
}

/// The state and the copy events after a run of control messages.
pub open spec fn run(v: DispatcherView, msgs: Seq<Message>) -> (DispatcherView, Seq<Notice>)
    decreases msgs.len(),
{
    if msgs.len() == 0 {
        (v, seq![])
    } else {
        let (v1, n1) = run(v, msgs.drop_last());
        let (v2, r) = react(v1, msgs.last());
        (v2, n1 + reaction_notices(r))
    }
}

/// The dispatch engine of a watch session: it owns the targets keyed by
/// source path and the set of watched paths, and decides what each control
/// message leads to. The caller performs the watching, copying and fanout.
pub struct Dispatcher {
    targets: Vec<(String, String)>,
    watched: Vec<bool>,
    phase: Phase,
}

impl View for Dispatcher {
    type V = DispatcherView;

    closed spec fn view(&self) -> DispatcherView {
        DispatcherView { targets: table_view(self.targets@), watched: self.watched@, phase: self.phase }
    }
}

impl Reaction {
    /// The status event to send once the reaction's work is done, if any.
    pub fn completion_notice(&self) -> (r: Option<UiNotification>)
        ensures
            match r {
                Some(n) => reaction_notices(self@) == seq![n@],
                None => reaction_notices(self@) == Seq::<Notice>::empty(),
            },
    {
        match self {
            Reaction::Copy(d) => Some(d.completion_notice()),
            _ => None,
        }
    }
}

impl Dispatcher {
    pub fn new(file_descriptions: Vec<FileDescription>) -> (r: Dispatcher)
        ensures
            r@ == initial(descriptions_view(file_descriptions@)),
            wf(r@),
    {
        let ghost input = descriptions_view(file_descriptions@);
        let mut targets: Vec<(String, String)> = Vec::new();
        let n = file_descriptions.len();
        let mut i: usize = 0;
        while i < n
            invariant
                n == file_descriptions@.len(),
                input == descriptions_view(file_descriptions@),
                i <= n,
                table_view(targets@) == table_of(seq![], input.subrange(0, i as int)),
            decreases n - i,
        {
            let d = &file_descriptions[i];
            insert_entry(&mut targets, d.from.clone(), d.to.clone());
            assert(input.subrange(0, i + 1).drop_last() =~= input.subrange(0, i as int));
            i = i + 1;
        }
        assert(input.subrange(0, n as int) =~= input);
        proof {
            lemma_table_of_unique(seq![], input);
        }
        let mut watched: Vec<bool> = Vec::new();
        let m = targets.len();
        let mut j: usize = 0;
        while j < m
            invariant
                m == targets@.len(),
                j <= m,
                watched@ =~= nothing_watched(j as nat),
            decreases m - j,
        {
            watched.push(false);
            j = j + 1;
        }
        Dispatcher { targets, watched, phase: Phase::Constructed }
    }

    pub fn phase(&self) -> (r: Phase)
        ensures
            r == self@.phase,
    {
        self.phase
    }

    /// The source paths to begin watching, in target order.
    pub fn sources(&self) -> (r: Vec<String>)
        ensures
            strings_view(r@) == self@.targets.map_values(|e: Entry| e.0),
    {
        let mut r: Vec<String> = Vec::new();
        let n = self.targets.len();
        let mut i: usize = 0;
        while i < n
            invariant
                n == self@.targets.len(),
                i <= n,
                strings_view(r@) =~= self@.targets.subrange(0, i as int).map_values(|e: Entry| e.0),
            decreases n - i,
        {
            assert(self@.targets[i as int] == entry_view(self.targets@[i as int]));
            r.push(self.targets[i].0.clone());
            assert(self@.targets.subrange(0, i + 1).map_values(|e: Entry| e.0) =~= self@.targets.subrange(
                0,
                i as int,
            ).map_values(|e: Entry| e.0).push(self@.targets[i as int].0));
            i = i + 1;
        }
        assert(self@.targets.subrange(0, n as int) =~= self@.targets);
        r
    }

    /// Enters the running phase once the caller has tried to watch each
    /// source path; `outcomes[i]` tells whether the watch on the `i`-th source
    /// began. Returns the status events to broadcast.
    pub fn start(&mut self, outcomes: &Vec<bool>) -> (r: Vec<UiNotification>)
        requires
            wf(old(self)@),
            old(self)@.phase == Phase::Constructed,
            outcomes@.len() == old(self)@.targets.len(),
        ensures
            final(self)@ == after_start(old(self)@, outcomes@),
            wf(final(self)@),
            notices(r@) == start_notices(old(self)@.targets, outcomes@),
    {
        let ghost t = self@.targets;
        let mut r: Vec<UiNotification> = Vec::new();
        r.push(UiNotification::Started);
        let n = self.targets.len();
        let mut i: usize = 0;
        while i < n
            invariant
                n == t.len(),
                t == self@.targets,
                n == outcomes@.len(),
                i <= n,
                notices(r@) =~= seq![Notice::Started] + began(
                    t.subrange(0, i as int),
                    outcomes@.subrange(0, i as int),
                ),
            decreases n - i,
        {
            assert(t.subrange(0, i + 1).drop_last() =~= t.subrange(0, i as int));
            assert(outcomes@.subrange(0, i + 1).drop_last() =~= outcomes@.subrange(0, i as int));
            assert(t[i as int] == entry_view(self.targets@[i as int]));
            let ghost before = began(t.subrange(0, i as int), outcomes@.subrange(0, i as int));
            if outcomes[i] {
                r.push(UiNotification::StartedWatching(self.targets[i].0.clone()));
                assert(seq![Notice::Started] + before.push(Notice::StartedWatching(t[i as int].0))
                    =~= (seq![Notice::Started] + before).push(Notice::StartedWatching(t[i as int].0)));
            }
            i = i + 1;
        }
        assert(t.subrange(0, n as int) =~= t);
        assert(outcomes@.subrange(0, n as int) =~= outcomes@);
        self.watched = outcomes.clone();
        self.phase = Phase::Running;
        r
    }

    fn watched_paths(&self) -> (r: Vec<String>)
        requires
            wf(self@),
        ensures
            strings_view(r@) == watched_sources(self@.targets, self@.watched),
    {
        let ghost t = self@.targets;
        let ghost w = self@.watched;
        let mut r: Vec<String> = Vec::new();
        let n = self.targets.len();
        let mut i: usize = 0;
        while i < n
            invariant
                n == t.len(),
                t == self@.targets,
                w == self@.watched,
                n == w.len(),
                i <= n,
                strings_view(r@) =~= watched_sources(t.subrange(0, i as int), w.subrange(0, i as int)),
            decreases n - i,
        {
            assert(t.subrange(0, i + 1).drop_last() =~= t.subrange(0, i as int));
            assert(w.subrange(0, i + 1).drop_last() =~= w.subrange(0, i as int));
            assert(t[i as int] == entry_view(self.targets@[i as int]));
            if self.watched[i] {
                r.push(self.targets[i].0.clone());
            }
            i = i + 1;
        }
        assert(t.subrange(0, n as int) =~= t);
        assert(w.subrange(0, n as int) =~= w);
        r
    }

    /// Decides what one control message leads to.
    pub fn handle(&mut self, message: &Notification) -> (r: Reaction)
        requires
            wf(old(self)@),
        ensures
            (final(self)@, r@) == react(old(self)@, message@),
            wf(final(self)@),
    {
        if self.phase != Phase::Running {
            return Reaction::Ignore;
        }
        match message {
            Notification::ChangeDetected(p) => {
                let ghost v = self@;
                let n = self.targets.len();
                let mut i: usize = 0;
                while i < n
                    invariant
                        v == self@,
                        wf(v),
                        v.phase == Phase::Running,
                        message@ == Message::ChangeDetected(p@),
                        n == v.targets.len(),
                        i <= n,
                        forall|j: int| 0 <= j < i ==> !watched_target(v, p@, j),
                    decreases n - i,
                {
                    assert(v.targets[i as int] == entry_view(self.targets@[i as int]));
                    if self.watched[i] && self.targets[i].0.eq(p) {
                        assert(watched_target(v, p@, i as int));
                        assert forall|j: int| watched_target(v, p@, j) implies j == i by {}
                        let from = self.targets[i].0.clone();
                        let to = self.targets[i].1.clone();
                        return Reaction::Copy(FileDescription::new(from, to));
                    }
                    i = i + 1;
                }
                Reaction::Ignore
            },
            Notification::ShouldStop(b) => {
                if !*b {
                    let paths = self.watched_paths();
                    self.phase = Phase::Stopping;
                    Reaction::Unwatch(paths)
                } else {
                    Reaction::Ignore
                }
            },
        }
    }

    /// Ends the session once the caller has tried to unwatch each path of the
    /// `Unwatch` reaction; `outcomes[j]` tells whether the `j`-th succeeded.
    /// Returns the status events to broadcast.
    pub fn finish(&mut self, outcomes: &Vec<bool>) -> (r: Vec<UiNotification>)
        requires
            wf(old(self)@),
            old(self)@.phase == Phase::Stopping,
            outcomes@.len() == watched_sources(old(self)@.targets, old(self)@.watched).len(),
        ensures
            final(self)@ == after_finish(old(self)@),
            wf(final(self)@),
            notices(r@) == stopped(
                watched_sources(old(self)@.targets, old(self)@.watched),
                outcomes@,
            ),
    {
        let paths = self.watched_paths();
        let ghost ps = strings_view(paths@);
        let mut r: Vec<UiNotification> = Vec::new();
        let n = paths.len();
        let mut i: usize = 0;
        while i < n
            invariant
                n == ps.len(),
                ps == strings_view(paths@),
                n == outcomes@.len(),
                i <= n,
                notices(r@) =~= stopped(ps.subrange(0, i as int), outcomes@.subrange(0, i as int)),
            decreases n - i,
        {
            assert(ps.subrange(0, i + 1).drop_last() =~= ps.subrange(0, i as int));
            assert(outcomes@.subrange(0, i + 1).drop_last() =~= outcomes@.subrange(0, i as int));
            if outcomes[i] {
                r.push(UiNotification::StoppedWatching(paths[i].clone()));
            }
            i = i + 1;
        }
        assert(ps.subrange(0, n as int) =~= ps);
        assert(outcomes@.subrange(0, n as int) =~= outcomes@);
        let mut watched: Vec<bool> = Vec::new();
        let m = self.targets.len();
        let mut j: usize = 0;
        while j < m
            invariant
                m == self@.targets.len(),
                j <= m,
                watched@ =~= nothing_watched(j as nat),
            decreases m - j,
        {
            watched.push(false);
            j = j + 1;
        }
        self.watched = watched;
        self.phase = Phase::Stopped;
        r
    }
}


pub open spec fn all_succeeded(n: nat) -> Seq<bool> {
    Seq::new(n, |i: int| true)
}

proof fn lemma_occurrences_push<A>(s: Seq<A>, x: A, y: A)
    ensures
        occurrences(s.push(x), y) == occurrences(s, y) + if x == y { 1nat } else { 0nat },
{
    assert(s.push(x).drop_last() =~= s);
}

proof fn lemma_start_count(t: Seq<Entry>, ok: Seq<bool>, x: Notice)
    ensures
        occurrences(start_notices(t, ok), x) == (if x == Notice::Started { 1nat } else { 0nat })
            + occurrences(began(t, ok), x),
{
    let head = seq![Notice::Started];
    assert(head =~= Seq::<Notice>::empty().push(Notice::Started));
    lemma_occurrences_push(Seq::<Notice>::empty(), Notice::Started, x);
    lemma_occurrences_concat(head, began(t, ok), x);
}

proof fn lemma_began_counts(t: Seq<Entry>, ok: Seq<bool>, p: Seq<char>)
    requires
        unique_keys(t),
        ok.len() == t.len(),
    ensures
        occurrences(began(t, ok), Notice::StartedWatching(p)) == (if exists|i: int|
            0 <= i < t.len() && t[i].0 == p && ok[i] {
            1nat
        } else {
            0nat
        }),
        occurrences(began(t, ok), Notice::Started) == 0,
        occurrences(watched_sources(t, ok), p) == occurrences(
            began(t, ok),
            Notice::StartedWatching(p),
        ),
    decreases t.len(),
{
    if t.len() > 0 {
        let t0 = t.drop_last();
        let o0 = ok.drop_last();
        let last = t.len() - 1;
        lemma_began_counts(t0, o0, p);
        if ok.last() {
            lemma_occurrences_push(began(t0, o0), Notice::StartedWatching(t.last().0), Notice::StartedWatching(p));
            lemma_occurrences_push(began(t0, o0), Notice::StartedWatching(t.last().0), Notice::Started);
            lemma_occurrences_push(watched_sources(t0, o0), t.last().0, p);
        }
        if exists|i: int| 0 <= i < t.len() && t[i].0 == p && ok[i] {
            let i = choose|i: int| 0 <= i < t.len() && t[i].0 == p && ok[i];
            if i < last {
                assert(t0[i].0 == p && o0[i]);
                assert(t.last().0 != p);
            } else {
                assert(!exists|j: int| 0 <= j < t0.len() && t0[j].0 == p && o0[j]) by {
                    assert forall|j: int| 0 <= j < t0.len() implies !(t0[j].0 == p && o0[j]) by {
                        assert(t[j].0 != t[last].0);
                    }
                }
            }
        } else {
            assert(!exists|j: int| 0 <= j < t0.len() && t0[j].0 == p && o0[j]) by {
                assert forall|j: int| 0 <= j < t0.len() implies !(t0[j].0 == p && o0[j]) by {
                    assert(t[j] == t0[j] && ok[j] == o0[j]);
                }
            }
            assert(!(t[last].0 == p && ok[last]));
        }
    }
}

/// Starting a session announces `Started` exactly once, as its first event,
/// then `StartedWatching(p)` exactly once for each source path `p` whose watch
/// began, and never for a path whose watch failed or that is no target.
pub proof fn lemma_start_announces_each_watch_once(v: DispatcherView, outcomes: Seq<bool>)
    requires
        wf(v),
        v.phase == Phase::Constructed,
        outcomes.len() == v.targets.len(),
    ensures
        start_notices(v.targets, outcomes)[0] == Notice::Started,
        occurrences(start_notices(v.targets, outcomes), Notice::Started) == 1,
        forall|i: int|
            0 <= i < v.targets.len() ==> occurrences(
                #[trigger] start_notices(v.targets, outcomes),
                Notice::StartedWatching(v.targets[i].0),
            ) == (if outcomes[i] { 1nat } else { 0nat }),
        forall|p: Seq<char>|
            occurrences(start_notices(v.targets, outcomes), Notice::StartedWatching(p)) > 0
                ==> exists|i: int| 0 <= i < v.targets.len() && v.targets[i].0 == p && outcomes[i],
{
    let t = v.targets;
    lemma_began_counts(t, outcomes, Seq::empty());
    lemma_start_count(t, outcomes, Notice::Started);
    assert forall|i: int| 0 <= i < t.len() implies occurrences(
        #[trigger] start_notices(t, outcomes),
        Notice::StartedWatching(t[i].0),
    ) == (if outcomes[i] { 1nat } else { 0nat }) by {
        lemma_began_counts(t, outcomes, t[i].0);
        lemma_start_count(t, outcomes, Notice::StartedWatching(t[i].0));
        if outcomes[i] {
            assert(0 <= i < t.len() && t[i].0 == t[i].0 && outcomes[i]);
        } else {
            assert forall|j: int| 0 <= j < t.len() && t[j].0 == t[i].0 implies !outcomes[j] by {
                if j != i {
                    if j < i {
                        assert(t[j].0 != t[i].0);
                    } else {
                        assert(t[i].0 != t[j].0);
                    }
                }
            }
        }
    }
    assert forall|p: Seq<char>|
        occurrences(start_notices(t, outcomes), Notice::StartedWatching(p)) > 0 implies exists|
        i: int,
    | 0 <= i < t.len() && t[i].0 == p && outcomes[i] by {
        lemma_began_counts(t, outcomes, p);
        lemma_start_count(t, outcomes, Notice::StartedWatching(p));
    }
}

pub open spec fn stops_session(m: Message) -> bool {
    m == Message::ShouldStop(false)
}

proof fn lemma_run_keeps_running_state(v: DispatcherView, msgs: Seq<Message>)
    requires
        v.phase == Phase::Running,
        forall|k: int| 0 <= k < msgs.len() ==> !stops_session(#[trigger] msgs[k]),
    ensures
        run(v, msgs).0 == v,
    decreases msgs.len(),
{
    if msgs.len() > 0 {
        lemma_run_keeps_running_state(v, msgs.drop_last());
        assert(!stops_session(msgs[msgs.len() - 1]));
    }
}

proof fn lemma_stopped_is_silent(v: DispatcherView, msgs: Seq<Message>)
    requires
        v.phase == Phase::Stopped,
    ensures
        run(v, msgs) == (v, Seq::<Notice>::empty()),
    decreases msgs.len(),
{
    if msgs.len() > 0 {
        lemma_stopped_is_silent(v, msgs.drop_last());
        assert(Seq::<Notice>::empty() + Seq::<Notice>::empty() =~= Seq::<Notice>::empty());
    }
}

proof fn lemma_stopped_counts(ps: Seq<Seq<char>>, p: Seq<char>)
    ensures
        occurrences(stopped(ps, all_succeeded(ps.len())), Notice::StoppedWatching(p))
            == occurrences(ps, p),
    decreases ps.len(),
{
    if ps.len() > 0 {
        assert(all_succeeded(ps.len()).drop_last() =~= all_succeeded(ps.drop_last().len()));
        lemma_stopped_counts(ps.drop_last(), p);
        lemma_occurrences_push(
            stopped(ps.drop_last(), all_succeeded(ps.drop_last().len())),
            Notice::StoppedWatching(ps.last()),
            Notice::StoppedWatching(p),
        );
    }
}

/// Over a whole session: started with the given watch outcomes, then any
/// change messages, then a stop. The stop unwatches each path that was
/// announced by `StartedWatching` exactly once and no other; when every
/// unwatch succeeds, each such path gets exactly one `StoppedWatching`; after
/// that the session reports nothing, whatever messages still arrive.
pub proof fn lemma_stop_releases_each_watch_once(
    v: DispatcherView,
    outcomes: Seq<bool>,
    msgs: Seq<Message>,
    later: Seq<Message>,
)
    requires
        wf(v),
        v.phase == Phase::Constructed,
        outcomes.len() == v.targets.len(),
        forall|k: int| 0 <= k < msgs.len() ==> !stops_session(#[trigger] msgs[k]),
    ensures
        react(run(after_start(v, outcomes), msgs).0, Message::ShouldStop(false)).1
            == ReactionView::Unwatch(watched_sources(v.targets, outcomes)),
        forall|p: Seq<char>|
            occurrences(#[trigger] watched_sources(v.targets, outcomes), p) == occurrences(
                start_notices(v.targets, outcomes),
                Notice::StartedWatching(p),
            ),
        forall|p: Seq<char>|
            occurrences(
                stopped(
                    watched_sources(v.targets, outcomes),
                    all_succeeded(watched_sources(v.targets, outcomes).len()),
                ),
                Notice::StoppedWatching(p),
            ) == #[trigger] occurrences(start_notices(v.targets, outcomes), Notice::StartedWatching(p)),
        run(after_finish(react(run(after_start(v, outcomes), msgs).0, Message::ShouldStop(false)).0), later)
            == (after_finish(react(run(after_start(v, outcomes), msgs).0, Message::ShouldStop(false)).0), Seq::<Notice>::empty()),
{
    let v1 = after_start(v, outcomes);
    lemma_run_keeps_running_state(v1, msgs);
    let ws = watched_sources(v.targets, outcomes);
    assert forall|p: Seq<char>|
        occurrences(#[trigger] watched_sources(v.targets, outcomes), p) == occurrences(
            start_notices(v.targets, outcomes),
            Notice::StartedWatching(p),
        ) by {
        lemma_began_counts(v.targets, outcomes, p);
        lemma_start_count(v.targets, outcomes, Notice::StartedWatching(p));
    }
    assert forall|p: Seq<char>|
        occurrences(stopped(ws, all_succeeded(ws.len())), Notice::StoppedWatching(p))
            == #[trigger] occurrences(start_notices(v.targets, outcomes), Notice::StartedWatching(p)) by {
        lemma_stopped_counts(ws, p);
        assert(occurrences(watched_sources(v.targets, outcomes), p) == occurrences(
            start_notices(v.targets, outcomes),
            Notice::StartedWatching(p),
        ));
    }
    let v2 = react(run(v1, msgs).0, Message::ShouldStop(false)).0;
    lemma_stopped_is_silent(after_finish(v2), later);
}

/// A change message for a watched source path makes a running session copy
/// that path's target exactly once and report it exactly once.
pub proof fn lemma_one_change_one_copy(v: DispatcherView, i: int)
    requires
        wf(v),
        v.phase == Phase::Running,
        0 <= i < v.targets.len(),
        v.watched[i],
    ensures
        react(v, Message::ChangeDetected(v.targets[i].0)) == (v, ReactionView::Copy(v.targets[i])),
        run(v, seq![Message::ChangeDetected(v.targets[i].0)])
            == (v, seq![Notice::Copied(v.targets[i].0, v.targets[i].1)]),
{
    let p = v.targets[i].0;
    assert(watched_target(v, p, i));
    assert forall|j: int| watched_target(v, p, j) implies j == i by {
        if j < i {
            assert(v.targets[j].0 != v.targets[i].0);
        } else if j > i {
            assert(v.targets[i].0 != v.targets[j].0);
        }
    }
    let msgs = seq![Message::ChangeDetected(p)];
    assert(msgs.drop_last() =~= Seq::<Message>::empty());
    assert(run(v, Seq::<Message>::empty()) == (v, Seq::<Notice>::empty()));
    assert(msgs.last() == Message::ChangeDetected(p));
    assert(react(v, Message::ChangeDetected(p)) == (v, ReactionView::Copy(v.targets[i])));
    assert(Seq::<Notice>::empty() + seq![Notice::Copied(p, v.targets[i].1)] =~= seq![
        Notice::Copied(p, v.targets[i].1),
    ]);
}

/// A session reports no copy of a path for which no change message arrived.
pub proof fn lemma_no_change_no_copy(v: DispatcherView, msgs: Seq<Message>, p: Seq<char>, d: Seq<char>)
    requires
        forall|k: int| 0 <= k < msgs.len() ==> #[trigger] msgs[k] != Message::ChangeDetected(p),
    ensures
        occurrences(run(v, msgs).1, Notice::Copied(p, d)) == 0,
    decreases msgs.len(),
{
    if msgs.len() > 0 {
        let prev = msgs.drop_last();
        assert forall|k: int| 0 <= k < prev.len() implies #[trigger] prev[k] != Message::ChangeDetected(p) by {
            assert(prev[k] == msgs[k]);
        }
        lemma_no_change_no_copy(v, prev, p, d);
        let (v1, n1) = run(v, prev);
        let (v2, r) = react(v1, msgs.last());
        assert(msgs.last() != Message::ChangeDetected(p));
        lemma_occurrences_concat(n1, reaction_notices(r), Notice::Copied(p, d));
        match msgs.last() {
            Message::ChangeDetected(q) => {
                assert(q != p);
                if exists|i: int| v1.phase == Phase::Running && watched_target(v1, q, i) {
                    let i = choose|i: int| watched_target(v1, q, i);
                    assert(reaction_notices(r) == seq![Notice::Copied(q, v1.targets[i].1)]);
                    assert(reaction_notices(r) =~= Seq::<Notice>::empty().push(Notice::Copied(q, v1.targets[i].1)));
                    lemma_occurrences_push(Seq::<Notice>::empty(), Notice::Copied(q, v1.targets[i].1), Notice::Copied(p, d));
                } else {
                    assert(reaction_notices(r) =~= Seq::<Notice>::empty());
                }
            },
            Message::ShouldStop(_) => {
                assert(reaction_notices(r) =~= Seq::<Notice>::empty());
            },
        }
    }
}

} // verus!
