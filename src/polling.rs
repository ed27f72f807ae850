use vstd::prelude::*;
use crate::notifications::strings_view;
use crate::table::{insert_keyed, keyed_view, lemma_lookup_at, lemma_lookup_insert, lookup, table_insert, unique_keys};

verus! {

/// The paths that the polling backend samples, as a set kept in insertion order.
pub struct WatchList {
    paths: Vec<String>,
}

impl View for WatchList {
    type V = Seq<Seq<char>>;

    closed spec fn view(&self) -> Seq<Seq<char>> {
        strings_view(self.paths@)
    }
}

impl WatchList {
    pub fn new() -> (r: WatchList)
        ensures
            r@ == Seq::<Seq<char>>::empty(),
    {
        let r = WatchList { paths: Vec::new() };
        assert(r@ =~= Seq::<Seq<char>>::empty());
        r
    }

    fn position(&self, path: &String) -> (r: Option<usize>)
        ensures
            match r {
                Some(i) => i < self@.len() && self@[i as int] == path@,
                None => !self@.contains(path@),
            },
    {
        let n = self.paths.len();
        let mut i: usize = 0;
        while i < n
            invariant
                n == self@.len(),
                i <= n,
                forall|j: int| 0 <= j < i ==> self@[j] != path@,
            decreases n - i,
        {
            if self.paths[i].eq(path) {
                return Some(i);
            }
            i = i + 1;
        }
        None
    }

    /// Adds a path to the set; a path already present is left as it is.
    pub fn watch(&mut self, path: String)
        ensures
            final(self)@ == if old(self)@.contains(path@) {
                old(self)@
            } else {
                old(self)@.push(path@)
            },
    {
        if self.position(&path).is_none() {
            let ghost before = self@;
            let p = path;
            self.paths.push(p);
            assert(self@ =~= before.push(p@));
        }
    }

    /// Removes a path from the set.
    pub fn unwatch(&mut self, path: &String)
        ensures
            final(self)@ == old(self)@.filter(|q: Seq<char>| q != path@),
    {
        let ghost before = self@;
        let mut kept: Vec<String> = Vec::new();
        let n = self.paths.len();
        let mut i: usize = 0;
        while i < n
            invariant
                n == before.len(),
                before == strings_view(self.paths@),
                i <= n,
                strings_view(kept@) == before.subrange(0, i as int).filter(|q: Seq<char>| q != path@),
            decreases n - i,
        {
            assert(before.subrange(0, i + 1).drop_last() =~= before.subrange(0, i as int));
            assert(before[i as int] == self.paths@[i as int]@);
            assert(before.subrange(0, i + 1).last() == before[i as int]);
            reveal_with_fuel(Seq::filter, 1);
            assert(before.subrange(0, i + 1).filter(|q: Seq<char>| q != path@) == if before[i as int] != path@ {
                before.subrange(0, i as int).filter(|q: Seq<char>| q != path@).push(before[i as int])
            } else {
                before.subrange(0, i as int).filter(|q: Seq<char>| q != path@)
            });
            if !self.paths[i].eq(path) {
                let ghost k = kept@;
                kept.push(self.paths[i].clone());
                assert(strings_view(kept@) =~= strings_view(k).push(before[i as int]));
            }
            i = i + 1;
        }
        assert(before.subrange(0, n as int) =~= before);
        self.paths = kept;
    }

    /// The paths to sample on this tick, in order.
    pub fn snapshot(&self) -> (r: Vec<String>)
        ensures
            strings_view(r@) == self@,
    {
        let mut r: Vec<String> = Vec::new();
        let n = self.paths.len();
        let mut i: usize = 0;
        while i < n
            invariant
                n == self@.len(),
                i <= n,
                strings_view(r@) =~= self@.subrange(0, i as int),
            decreases n - i,
        {
            assert(self@[i as int] == self.paths@[i as int]@);
            let ghost k = r@;
            r.push(self.paths[i].clone());
            assert(strings_view(r@) =~= strings_view(k).push(self@[i as int]));
            i = i + 1;
        }
        assert(self@.subrange(0, n as int) =~= self@);
        r
    }
}

/// A path's last seen modification time.
pub type Stamp = (Seq<char>, u128);

/// What one tick read of a path: its modification time, or `None` where
/// reading it failed.
pub open spec fn observations_view(s: Seq<(String, Option<u128>)>) -> Seq<(Seq<char>, Option<u128>)> {
    s.map_values(|e: (String, Option<u128>)| (e.0@, e.1))
}

/// One reading. A failed read changes nothing. The first reading of a path
/// is recorded without a change; a strictly later time is a change and is
/// recorded; any other time is ignored.
pub open spec fn observe_one(t: Seq<Stamp>, p: Seq<char>, o: Option<u128>) -> (Seq<Stamp>, bool) {
    match o {
        None => (t, false),
        Some(now) => match lookup(t, p) {
            Some(before) => if now > before {
                (table_insert(t, (p, now)), true)
            } else {
                (t, false)
            },
            None => (table_insert(t, (p, now)), false),
        },
    }
}

/// The table after a tick's readings, and the changed paths in reading order.
pub open spec fn observe_all(t: Seq<Stamp>, obs: Seq<(Seq<char>, Option<u128>)>) -> (Seq<Stamp>, Seq<Seq<char>>)
    decreases obs.len(),
{
    if obs.len() == 0 {
        (t, seq![])
    } else {
        let (t1, ev) = observe_all(t, obs.drop_last());
        let (t2, changed) = observe_one(t1, obs.last().0, obs.last().1);
        (t2, if changed { ev.push(obs.last().0) } else { ev })
    }
}

/// The table after a run of ticks, and all changed paths in order.
pub open spec fn observe_ticks(t: Seq<Stamp>, ticks: Seq<Seq<(Seq<char>, Option<u128>)>>) -> (Seq<Stamp>, Seq<Seq<char>>)
    decreases ticks.len(),
{
    if ticks.len() == 0 {
        (t, seq![])
    } else {
        let (t1, ev) = observe_ticks(t, ticks.drop_last());
        let (t2, ev2) = observe_all(t1, ticks.last());
        (t2, ev + ev2)
    }
}

/// The polling backend's memory of modification times, one per path.
pub struct Timestamps {
    seen: Vec<(String, u128)>,
}

impl View for Timestamps {
    type V = Seq<Stamp>;

    closed spec fn view(&self) -> Seq<Stamp> {
        keyed_view(self.seen@)
    }
}

impl Timestamps {
    pub closed spec fn wf(&self) -> bool {
        unique_keys(self@)
    }

    pub fn new() -> (r: Timestamps)
        ensures
            r@ == Seq::<Stamp>::empty(),
            r.wf(),
    {
        let r = Timestamps { seen: Vec::new() };
        assert(r@ =~= Seq::<Stamp>::empty());
        r
    }

    /// The last recorded modification time of a path.
    pub fn last_seen(&self, path: &String) -> (r: Option<u128>)
        requires
            self.wf(),
        ensures
            r == lookup(self@, path@),
    {
        let n = self.seen.len();
        let mut i: usize = 0;
        while i < n
            invariant
                n == self@.len(),
                unique_keys(self@),
                i <= n,
                forall|j: int| 0 <= j < i ==> self@[j].0 != path@,
            decreases n - i,
        {
            assert(self@[i as int] == (self.seen@[i as int].0@, self.seen@[i as int].1));
            if self.seen[i].0.eq(path) {
                proof {
                    lemma_lookup_at(self@, i as int);
                }
                return Some(self.seen[i].1);
            }
            i = i + 1;
        }
        None
    }

    fn record(&mut self, path: &String, time: u128)
        ensures
            final(self)@ == table_insert(old(self)@, (path@, time)),
    {
        insert_keyed(&mut self.seen, path, time);
    }

    /// Takes one reading into account; returns whether it is a change.
    pub fn observe_path(&mut self, path: &String, modified: Option<u128>) -> (r: bool)
        requires
            old(self).wf(),
        ensures
            final(self).wf(),
            (final(self)@, r) == observe_one(old(self)@, path@, modified),
    {
        match modified {
            None => false,
            Some(now) => {
                proof {
                    lemma_lookup_insert(self@, (path@, now), path@);
                }
                match self.last_seen(path) {
                    Some(before) => {
                        if now > before {
                            self.record(path, now);
                            true
                        } else {
                            false
                        }
                    },
                    None => {
                        self.record(path, now);
                        false
                    },
                }
            },
        }
    }

    /// Takes one tick's readings into account, in order; returns the paths
    /// that changed, in reading order.
    pub fn observe(&mut self, observations: &Vec<(String, Option<u128>)>) -> (r: Vec<String>)
        requires
            old(self).wf(),
        ensures
            final(self).wf(),
            (final(self)@, strings_view(r@)) == observe_all(old(self)@, observations_view(observations@)),
    {
        let ghost start = self@;
        let ghost obs = observations_view(observations@);
        let mut changed: Vec<String> = Vec::new();
        let n = observations.len();
        let mut i: usize = 0;
        while i < n
            invariant
                n == obs.len(),
                obs == observations_view(observations@),
                i <= n,
                self.wf(),
                (self@, strings_view(changed@)) == observe_all(start, obs.subrange(0, i as int)),
            decreases n - i,
        {
            assert(obs.subrange(0, i + 1).drop_last() =~= obs.subrange(0, i as int));
            let o = &observations[i];
            let ghost ev = changed@;
            if self.observe_path(&o.0, o.1) {
                changed.push(o.0.clone());
                assert(strings_view(changed@) =~= strings_view(ev).push(obs[i as int].0));
            }
            i = i + 1;
        }
        assert(obs.subrange(0, n as int) =~= obs);
        changed
    }
}


proof fn lemma_observe_one_keeps(t: Seq<Stamp>, q: Seq<char>, o: Option<u128>, p: Seq<char>)
    requires
        unique_keys(t),
    ensures
        unique_keys(observe_one(t, q, o).0),
        q != p ==> lookup(observe_one(t, q, o).0, p) == lookup(t, p),
{
    match o {
        None => {},
        Some(now) => {
            lemma_lookup_insert(t, (q, now), p);
        },
    }
}

proof fn lemma_tick_silent(t: Seq<Stamp>, obs: Seq<(Seq<char>, Option<u128>)>, p: Seq<char>, m: u128)
    requires
        unique_keys(t),
        lookup(t, p) == None::<u128> || lookup(t, p) == Some(m),
        forall|j: int| 0 <= j < obs.len() && (#[trigger] obs[j]).0 == p ==> obs[j].1 == None::<u128> || obs[j].1 == Some(m),
    ensures
        unique_keys(observe_all(t, obs).0),
        lookup(observe_all(t, obs).0, p) == None::<u128> || lookup(observe_all(t, obs).0, p) == Some(m),
        !observe_all(t, obs).1.contains(p),
    decreases obs.len(),
{
    if obs.len() > 0 {
        let prev = obs.drop_last();
        assert forall|j: int| 0 <= j < prev.len() && (#[trigger] prev[j]).0 == p implies prev[j].1 == None::<u128> || prev[j].1 == Some(m) by {
            assert(prev[j] == obs[j]);
        }
        lemma_tick_silent(t, prev, p, m);
        let (t1, ev) = observe_all(t, prev);
        let last = obs.last();
        assert(last == obs[obs.len() - 1]);
        lemma_observe_one_keeps(t1, last.0, last.1, p);
        if last.0 == p {
            match last.1 {
                None => {},
                Some(now) => {
                    assert(now == m);
                    lemma_lookup_insert(t1, (p, now), p);
                },
            }
        }
        let (t2, changed) = observe_one(t1, last.0, last.1);
        if changed {
            assert(last.0 != p);
            let e2 = ev.push(last.0);
            assert forall|j: int| 0 <= j < e2.len() implies e2[j] != p by {
                if j < ev.len() {
                    assert(e2[j] == ev[j]);
                }
            }
        }
    }
}

/// A path whose modification time never changes while it is watched gives
/// no change event, over any run of ticks: its first reading is only
/// recorded, and readings of other paths do not disturb it.
pub proof fn lemma_unchanged_path_is_silent(
    t: Seq<Stamp>,
    ticks: Seq<Seq<(Seq<char>, Option<u128>)>>,
    p: Seq<char>,
    m: u128,
)
    requires
        unique_keys(t),
        lookup(t, p) == None::<u128> || lookup(t, p) == Some(m),
        forall|k: int, j: int|
            0 <= k < ticks.len() && 0 <= j < ticks[k].len() && (#[trigger] ticks[k][j]).0 == p
                ==> ticks[k][j].1 == None::<u128> || ticks[k][j].1 == Some(m),
    ensures
        !observe_ticks(t, ticks).1.contains(p),
        unique_keys(observe_ticks(t, ticks).0),
        lookup(observe_ticks(t, ticks).0, p) == None::<u128> || lookup(observe_ticks(t, ticks).0, p) == Some(m),
    decreases ticks.len(),
{
    if ticks.len() > 0 {
        let prev = ticks.drop_last();
        assert forall|k: int, j: int|
            0 <= k < prev.len() && 0 <= j < prev[k].len() && (#[trigger] prev[k][j]).0 == p implies prev[k][j].1 == None::<u128> || prev[k][j].1 == Some(m) by {
            assert(prev[k] == ticks[k]);
        }
        lemma_unchanged_path_is_silent(t, prev, p, m);
        let (t1, ev) = observe_ticks(t, prev);
        let last = ticks.last();
        assert forall|j: int| 0 <= j < last.len() && (#[trigger] last[j]).0 == p implies last[j].1 == None::<u128> || last[j].1 == Some(m) by {
            assert(ticks[ticks.len() - 1][j] == last[j]);
        }
        lemma_tick_silent(t1, last, p, m);
        let ev2 = observe_all(t1, last).1;
        assert forall|j: int| 0 <= j < (ev + ev2).len() implies (ev + ev2)[j] != p by {
            if j < ev.len() {
                assert((ev + ev2)[j] == ev[j]);
            } else {
                assert((ev + ev2)[j] == ev2[j - ev.len()]);
            }
        }
    }
}

/// One modification of a watched path, read on every later tick, gives
/// exactly one change event: on the first tick that reads the later time.
pub proof fn lemma_one_write_one_change(
    t: Seq<Stamp>,
    ticks: Seq<Seq<(Seq<char>, Option<u128>)>>,
    p: Seq<char>,
    before: u128,
    after: u128,
)
    requires
        unique_keys(t),
        lookup(t, p) == Some(before),
        before < after,
        ticks.len() >= 1,
        forall|k: int| 0 <= k < ticks.len() ==> #[trigger] ticks[k] == seq![(p, Some(after))],
    ensures
        observe_ticks(t, ticks).1 == seq![p],
        unique_keys(observe_ticks(t, ticks).0),
        lookup(observe_ticks(t, ticks).0, p) == Some(after),
    decreases ticks.len(),
{
    let last = ticks.last();
    assert(last == ticks[ticks.len() - 1]);
    let one = seq![(p, Some(after))];
    assert(one.drop_last() =~= Seq::<(Seq<char>, Option<u128>)>::empty());
    if ticks.len() == 1 {
        assert(ticks.drop_last() =~= Seq::<Seq<(Seq<char>, Option<u128>)>>::empty());
        lemma_lookup_insert(t, (p, after), p);
        assert(observe_all(t, one.drop_last()) == (t, Seq::<Seq<char>>::empty()));
        assert(one.last() == (p, Some(after)));
        assert(observe_one(t, p, Some(after)) == (table_insert(t, (p, after)), true));
        assert(Seq::<Seq<char>>::empty().push(p) =~= seq![p]);
        assert(observe_all(t, one).1 =~= seq![p]);
        assert(Seq::<Seq<char>>::empty() + seq![p] =~= seq![p]);
    } else {
        let prev = ticks.drop_last();
        assert forall|k: int| 0 <= k < prev.len() implies #[trigger] prev[k] == seq![(p, Some(after))] by {
            assert(prev[k] == ticks[k]);
        }
        lemma_one_write_one_change(t, prev, p, before, after);
        let t1 = observe_ticks(t, prev).0;
        assert(observe_all(t1, one.drop_last()) == (t1, Seq::<Seq<char>>::empty()));
        assert(one.last() == (p, Some(after)));
        assert(observe_one(t1, p, Some(after)) == (t1, false));
        assert(observe_all(t1, one) == (t1, Seq::<Seq<char>>::empty()));
        assert(seq![p] + Seq::<Seq<char>>::empty() =~= seq![p]);
    }
}

} // verus!
