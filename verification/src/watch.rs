//! The per-line watcher's bookkeeping: the recent-file memory that
//! deduplicates the event stream against the polling sweep, and the
//! process-wide registry of running watchers.
//!
//! The operating-system watcher, the threads and the channels stay with
//! the caller; what is verified here is the claim/evict discipline and
//! that it never lets one path be dispatched twice within the eviction
//! window.

use vstd::prelude::*;
use crate::text::str_eq;

verus! {

/// The first stamp recorded under a path, if any.
pub open spec fn lookup_stamp(s: Seq<(String, u64)>, q: Seq<char>) -> Option<u64>
    decreases s.len(),
{
    if s.len() == 0 {
        None
    } else if s[0].0@ == q {
        Some(s[0].1)
    } else {
        lookup_stamp(s.drop_first(), q)
    }
}

/// Every path appears at most once.
pub open spec fn keys_unique(s: Seq<(String, u64)>) -> bool {
    forall|i: int, j: int| 0 <= i < j < s.len() ==> (#[trigger] s[i]).0@ != (#[trigger] s[j]).0@
}

proof fn lemma_lookup_push(s: Seq<(String, u64)>, e: (String, u64), q: Seq<char>)
    ensures
        lookup_stamp(s.push(e), q) == (if lookup_stamp(s, q) is Some {
            lookup_stamp(s, q)
        } else if e.0@ == q {
            Some(e.1)
        } else {
            None
        }),
    decreases s.len(),
{
    if s.len() == 0 {
        assert(s.push(e)[0] == e);
        assert(s.push(e).drop_first() =~= Seq::<(String, u64)>::empty());
        assert(lookup_stamp(Seq::<(String, u64)>::empty(), q) is None);
        assert(lookup_stamp(s.push(e), q) == (if e.0@ == q {
            Some(e.1)
        } else {
            None::<u64>
        }));
    } else {
        assert(s.push(e)[0] == s[0]);
        assert(s.push(e).drop_first() =~= s.drop_first().push(e));
        lemma_lookup_push(s.drop_first(), e, q);
        assert(lookup_stamp(s.push(e), q) == (if s[0].0@ == q {
            Some(s[0].1)
        } else {
            lookup_stamp(s.drop_first().push(e), q)
        }));
    }
}

proof fn lemma_lookup_witness(s: Seq<(String, u64)>, q: Seq<char>)
    ensures
        lookup_stamp(s, q) is Some ==> exists|j: int| 0 <= j < s.len() && (#[trigger] s[j]).0@
            == q,
        lookup_stamp(s, q) is None ==> forall|j: int| 0 <= j < s.len() ==> (#[trigger] s[j]).0@
            != q,
    decreases s.len(),
{
    if s.len() > 0 {
        lemma_lookup_witness(s.drop_first(), q);
        assert(forall|j: int| 1 <= j < s.len() ==> s[j] == s.drop_first()[j - 1]);
        if s[0].0@ == q {
        } else if lookup_stamp(s, q) is Some {
            let w = choose|j: int| 0 <= j < s.drop_first().len() && (#[trigger] s.drop_first()[j]).0@
                == q;
            assert(s[w + 1].0@ == q);
        }
    }
}

/// The per-watcher memory of recently dispatched paths: each absolute
/// path with the time it was first seen.
pub struct RecentFiles {
    pub entries: Vec<(String, u64)>,
}

/// An eviction at `now` keeps a stamp `t` exactly when `t <= now < t + 60`.
pub open spec fn kept_after_evict(t: int, now: int) -> bool {
    t <= now && now - t < 60
}

impl RecentFiles {
    pub open spec fn wf(self) -> bool {
        keys_unique(self.entries@)
    }

    /// The stamp held under a path.
    pub open spec fn stamp_of(self, q: Seq<char>) -> Option<u64> {
        lookup_stamp(self.entries@, q)
    }

    /// A path currently claimed.
    pub open spec fn holds(self, q: Seq<char>) -> bool {
        self.stamp_of(q) is Some
    }

    /// The memory as the abstract path-to-stamp map the watcher laws
    /// speak of.
    pub open spec fn as_map(self) -> Map<Seq<char>, int> {
        Map::new(
            |q: Seq<char>| self.holds(q),
            |q: Seq<char>|
                match self.stamp_of(q) {
                    Some(t) => t as int,
                    None => 0,
                },
        )
    }

    pub fn new() -> (r: RecentFiles)
        ensures
            r.wf(),
            forall|q: Seq<char>| !(#[trigger] r.holds(q)),
    {
        RecentFiles { entries: Vec::new() }
    }

    fn find_entry(&self, path: &str) -> (r: bool)
        ensures
            r == self.holds(path@),
    {
        let mut i: usize = 0;
        while i < self.entries.len()
            invariant
                i <= self.entries@.len(),
                forall|j: int| 0 <= j < i ==> (#[trigger] self.entries@[j]).0@ != path@,
            decreases self.entries@.len() - i,
        {
            if str_eq(self.entries[i].0.as_str(), path) {
                proof {
                    lemma_lookup_witness(self.entries@, path@);
                }
                return true;
            }
            i = i + 1;
        }
        proof {
            lemma_lookup_witness(self.entries@, path@);
            if self.holds(path@) {
                let w = choose|j: int|
                    0 <= j < self.entries@.len() && (#[trigger] self.entries@[j]).0@ == path@;
                assert(self.entries@[w].0@ != path@);
            }
        }
        false
    }

    /// Claim a path before dispatching it: the claim succeeds, and the
    /// path is to be dispatched, exactly when the path is not yet held.
    /// Other paths are untouched.
    pub fn claim(&mut self, path: &str, now: u64) -> (r: bool)
        requires
            old(self).wf(),
        ensures
            final(self).wf(),
            r == !old(self).holds(path@),
            r ==> final(self).stamp_of(path@) == Some(now),
            !r ==> final(self).stamp_of(path@) == old(self).stamp_of(path@),
            forall|q: Seq<char>| q != path@ ==> #[trigger] final(self).stamp_of(q) == old(
                self,
            ).stamp_of(q),
    {
        if self.find_entry(path) {
            return false;
        }
        let ghost pre = self.entries@;
        let owned = path.to_owned();
        let e = (owned, now);
        self.entries.push(e);
        proof {
            assert(self.entries@ == pre.push(e));
            lemma_lookup_witness(pre, path@);
            assert forall|i: int, j: int| 0 <= i < j < self.entries@.len() implies (
            #[trigger] self.entries@[i]).0@ != (#[trigger] self.entries@[j]).0@ by {
                if j < pre.len() {
                    assert(pre[i].0@ != pre[j].0@);
                } else {
                    assert(self.entries@[j] == e);
                    assert(pre[i].0@ != path@);
                }
            }
            assert forall|q: Seq<char>| true implies #[trigger] lookup_stamp(self.entries@, q) == (
            if q == path@ {
                Some(now)
            } else {
                lookup_stamp(pre, q)
            }) by {
                lemma_lookup_push(pre, e, q);
                if q == path@ {
                    assert(lookup_stamp(pre, q) is None);
                }
            }
        }
        true
    }

    /// Drop every entry whose stamp has left the sixty-second window.
    pub fn evict(&mut self, now: u64)
        requires
            old(self).wf(),
        ensures
            final(self).wf(),
            forall|q: Seq<char>| #[trigger] final(self).stamp_of(q) == (match old(self).stamp_of(
                q,
            ) {
                Some(t) => if kept_after_evict(t as int, now as int) {
                    Some(t)
                } else {
                    None
                },
                None => None::<u64>,
            }),
    {
        let ghost pre = self.entries@;
        let mut out: Vec<(String, u64)> = Vec::new();
        let mut i: usize = 0;
        while i < self.entries.len()
            invariant
                i <= self.entries@.len(),
                self.entries@ == pre,
                pre == old(self).entries@,
                keys_unique(pre),
                keys_unique(out@),
                forall|q: Seq<char>| #[trigger] lookup_stamp(out@, q) is Some ==> lookup_stamp(
                    pre.take(i as int),
                    q,
                ) == lookup_stamp(out@, q),
                forall|q: Seq<char>| #[trigger] lookup_stamp(out@, q) == (match lookup_stamp(
                    pre.take(i as int),
                    q,
                ) {
                    Some(t) => if kept_after_evict(t as int, now as int) {
                        Some(t)
                    } else {
                        None
                    },
                    None => None::<u64>,
                }),
            decreases self.entries@.len() - i,
        {
            let keep: bool = {
                let t = self.entries[i].1;
                t <= now && now - t < 60
            };
            let ghost e = pre[i as int];
            proof {
                assert(pre.take(i + 1).drop_last() =~= pre.take(i as int));
                assert(pre.take(i + 1).last() == e);
                assert forall|q: Seq<char>| true implies #[trigger] lookup_stamp(
                    pre.take(i + 1),
                    q,
                ) == (if lookup_stamp(pre.take(i as int), q) is Some {
                    lookup_stamp(pre.take(i as int), q)
                } else if e.0@ == q {
                    Some(e.1)
                } else {
                    None
                }) by {
                    lemma_lookup_push(pre.take(i as int), e, q);
                    assert(pre.take(i as int).push(e) =~= pre.take(i + 1));
                }
            }
            if keep {
                let ghost outpre = out@;
                let item = (self.entries[i].0.clone(), self.entries[i].1);
                out.push(item);
                proof {
                    assert(item.0@ == e.0@ && item.1 == e.1);
                    lemma_lookup_witness(pre.take(i as int), e.0@);
                    assert(lookup_stamp(outpre, e.0@) is None) by {
                        if lookup_stamp(outpre, e.0@) is Some {
                            assert(lookup_stamp(pre.take(i as int), e.0@) == lookup_stamp(
                                outpre,
                                e.0@,
                            ));
                            let w = choose|j: int|
                                0 <= j < pre.take(i as int).len() && (#[trigger] pre.take(
                                    i as int,
                                )[j]).0@ == e.0@;
                            assert(pre[w].0@ == pre[i as int].0@);
                        }
                    }
                    lemma_lookup_witness(outpre, e.0@);
                    assert forall|a: int, b: int| 0 <= a < b < out@.len() implies (
                    #[trigger] out@[a]).0@ != (#[trigger] out@[b]).0@ by {
                        if b < outpre.len() {
                            assert(outpre[a].0@ != outpre[b].0@);
                        } else {
                            assert(out@[b] == item);
                            assert(outpre[a].0@ != e.0@);
                        }
                    }
                    assert forall|q: Seq<char>| true implies #[trigger] lookup_stamp(out@, q) == (
                    if lookup_stamp(outpre, q) is Some {
                        lookup_stamp(outpre, q)
                    } else if item.0@ == q {
                        Some(item.1)
                    } else {
                        None
                    }) by {
                        lemma_lookup_push(outpre, item, q);
                    }
                }
            }
            i = i + 1;
        }
        proof {
            assert(pre.take(pre.len() as int) =~= pre);
        }
        self.entries = out;
    }
}

/// The abstract dedup state: each claimed path with its claim time.
pub open spec fn claim_step(m: Map<Seq<char>, int>, p: Seq<char>, t: int) -> Map<Seq<char>, int> {
    if m.dom().contains(p) {
        m
    } else {
        m.insert(p, t)
    }
}

/// A claim dispatches exactly when the path was absent.
pub open spec fn claim_dispatches(m: Map<Seq<char>, int>, p: Seq<char>) -> bool {
    !m.dom().contains(p)
}

/// An eviction keeps each stamp still inside the window.
pub open spec fn evict_step(m: Map<Seq<char>, int>, now: int) -> Map<Seq<char>, int> {
    Map::new(
        |p: Seq<char>| m.dom().contains(p) && kept_after_evict(m[p], now),
        |p: Seq<char>| m[p],
    )
}

/// One watcher-loop event: a claim of some path, or an eviction sweep.
/// `(true, p, t)` claims `p` at time `t`; `(false, p, t)` evicts at `t`.
pub open spec fn apply_event(m: Map<Seq<char>, int>, e: (bool, Seq<char>, int)) -> Map<
    Seq<char>,
    int,
> {
    if e.0 {
        claim_step(m, e.1, e.2)
    } else {
        evict_step(m, e.2)
    }
}

pub open spec fn apply_events(m: Map<Seq<char>, int>, es: Seq<(bool, Seq<char>, int)>) -> Map<
    Seq<char>,
    int,
>
    decreases es.len(),
{
    if es.len() == 0 {
        m
    } else {
        apply_events(apply_event(m, es[0]), es.drop_first())
    }
}

/// How many of the events dispatch path `p`.
pub open spec fn dispatch_count(m: Map<Seq<char>, int>, es: Seq<(bool, Seq<char>, int)>, p: Seq<
    char,
>) -> int
    decreases es.len(),
{
    if es.len() == 0 {
        0
    } else {
        let here: int = if es[0].0 && es[0].1 == p && claim_dispatches(m, p) {
            1
        } else {
            0
        };
        here + dispatch_count(apply_event(m, es[0]), es.drop_first(), p)
    }
}

/// No path is dispatched twice within one sixty-second window: once a
/// path is claimed at time `t0`, any further claims and evictions whose
/// times stay within `[t0, t0 + 60)` dispatch that path zero more times.
pub proof fn lemma_no_redispatch(
    m: Map<Seq<char>, int>,
    es: Seq<(bool, Seq<char>, int)>,
    p: Seq<char>,
    t0: int,
)
    requires
        m.dom().contains(p),
        m[p] == t0,
        forall|i: int| 0 <= i < es.len() ==> t0 <= (#[trigger] es[i]).2 < t0 + 60,
    ensures
        dispatch_count(m, es, p) == 0,
        apply_events(m, es).dom().contains(p),
        apply_events(m, es)[p] == t0,
    decreases es.len(),
{
    if es.len() > 0 {
        let e = es[0];
        let m2 = apply_event(m, e);
        if e.0 {
            assert(claim_step(m, e.1, e.2).dom().contains(p) && claim_step(m, e.1, e.2)[p] == t0);
        } else {
            assert(kept_after_evict(m[p], e.2));
            assert(evict_step(m, e.2).dom().contains(p) && evict_step(m, e.2)[p] == t0);
        }
        assert(forall|i: int| 1 <= i < es.len() ==> es[i] == es.drop_first()[i - 1]);
        lemma_no_redispatch(m2, es.drop_first(), p, t0);
    }
}

/// A successful `claim` is one `claim_step` of the abstract map, and the
/// claim dispatches exactly when the abstract claim does.
pub proof fn lemma_claim_refines(
    pre: RecentFiles,
    post: RecentFiles,
    path: Seq<char>,
    now: u64,
    r: bool,
)
    requires
        r == !pre.holds(path),
        r ==> post.stamp_of(path) == Some(now),
        !r ==> post.stamp_of(path) == pre.stamp_of(path),
        forall|q: Seq<char>| q != path ==> #[trigger] post.stamp_of(q) == pre.stamp_of(q),
    ensures
        r == claim_dispatches(pre.as_map(), path),
        post.as_map() == claim_step(pre.as_map(), path, now as int),
{
    assert(pre.as_map().dom().contains(path) == pre.holds(path));
    assert(post.as_map() =~= claim_step(pre.as_map(), path, now as int));
}

/// An `evict` is one `evict_step` of the abstract map.
pub proof fn lemma_evict_refines(pre: RecentFiles, post: RecentFiles, now: u64)
    requires
        forall|q: Seq<char>| #[trigger] post.stamp_of(q) == (match pre.stamp_of(q) {
            Some(t) => if kept_after_evict(t as int, now as int) {
                Some(t)
            } else {
                None
            },
            None => None::<u64>,
        }),
    ensures
        post.as_map() == evict_step(pre.as_map(), now as int),
{
    assert(post.as_map() =~= evict_step(pre.as_map(), now as int));
}

/// The process-wide registry of running watchers, one entry per line id.
pub struct WatcherState {
    pub watchers: Vec<i64>,
}

/// A line id is registered.
pub open spec fn has_id(s: Seq<i64>, id: i64) -> bool {
    exists|i: int| 0 <= i < s.len() && s[i] == id
}

/// No line id appears twice.
pub open spec fn ids_unique(s: Seq<i64>) -> bool {
    forall|i: int, j: int| 0 <= i < j < s.len() ==> #[trigger] s[i] != #[trigger] s[j]
}

impl WatcherState {
    /// At most one watcher per line id.
    pub open spec fn wf(self) -> bool {
        ids_unique(self.watchers@)
    }

    pub fn new() -> (r: WatcherState)
        ensures
            r.wf(),
            r.watchers@.len() == 0,
    {
        WatcherState { watchers: Vec::new() }
    }

    pub fn is_registered(&self, line_id: i64) -> (r: bool)
        ensures
            r == has_id(self.watchers@, line_id),
    {
        let mut i: usize = 0;
        while i < self.watchers.len()
            invariant
                i <= self.watchers@.len(),
                forall|j: int| 0 <= j < i ==> self.watchers@[j] != line_id,
            decreases self.watchers@.len() - i,
        {
            if self.watchers[i] == line_id {
                return true;
            }
            i = i + 1;
        }
        false
    }

    /// Register a line's watcher; starting twice is a no-op, so at most
    /// one watcher ever runs per line.
    pub fn register(&mut self, line_id: i64) -> (r: bool)
        requires
            old(self).wf(),
        ensures
            final(self).wf(),
            r == !has_id(old(self).watchers@, line_id),
            has_id(final(self).watchers@, line_id),
            forall|x: i64| #[trigger] has_id(final(self).watchers@, x) == (has_id(
                old(self).watchers@,
                x,
            ) || x == line_id),
    {
        if self.is_registered(line_id) {
            return false;
        }
        let ghost pre = self.watchers@;
        self.watchers.push(line_id);
        proof {
            assert(self.watchers@ == pre.push(line_id));
            assert(self.watchers@[pre.len() as int] == line_id);
            assert forall|x: i64| true implies #[trigger] has_id(self.watchers@, x) == (has_id(
                pre,
                x,
            ) || x == line_id) by {
                if has_id(self.watchers@, x) {
                    let w = choose|i: int|
                        0 <= i < self.watchers@.len() && self.watchers@[i] == x;
                    if w < pre.len() {
                        assert(pre[w] == x);
                    }
                }
                if has_id(pre, x) {
                    let w = choose|i: int| 0 <= i < pre.len() && pre[i] == x;
                    assert(self.watchers@[w] == x);
                }
            }
        }
        true
    }

    /// Remove a line's watcher registration; stopping twice is a no-op.
    pub fn unregister(&mut self, line_id: i64) -> (r: bool)
        requires
            old(self).wf(),
        ensures
            final(self).wf(),
            r == has_id(old(self).watchers@, line_id),
            !has_id(final(self).watchers@, line_id),
            forall|x: i64| x != line_id ==> #[trigger] has_id(final(self).watchers@, x) == has_id(
                old(self).watchers@,
                x,
            ),
    {
        let ghost pre = self.watchers@;
        let mut i: usize = 0;
        while i < self.watchers.len()
            invariant
                i <= self.watchers@.len(),
                self.watchers@ == pre,
                pre == old(self).watchers@,
                ids_unique(pre),
                forall|j: int| 0 <= j < i ==> pre[j] != line_id,
            decreases self.watchers@.len() - i,
        {
            if self.watchers[i] == line_id {
                self.watchers.remove(i);
                proof {
                    assert(self.watchers@ =~= pre.subrange(0, i as int) + pre.subrange(
                        i + 1,
                        pre.len() as int,
                    ));
                    assert forall|a: int, b: int|
                        0 <= a < b < self.watchers@.len() implies #[trigger] self.watchers@[a]
                        != #[trigger] self.watchers@[b] by {
                        let ai: int = if a < i { a } else { a + 1 };
                        let bi: int = if b < i { b } else { b + 1 };
                        assert(self.watchers@[a] == pre[ai]);
                        assert(self.watchers@[b] == pre[bi]);
                    }
                    assert(!has_id(self.watchers@, line_id)) by {
                        if has_id(self.watchers@, line_id) {
                            let w = choose|k: int|
                                0 <= k < self.watchers@.len() && self.watchers@[k] == line_id;
                            let wi: int = if w < i { w } else { w + 1 };
                            assert(pre[wi] == line_id);
                            assert(pre[i as int] == line_id);
                        }
                    }
                    assert forall|x: i64| x != line_id implies #[trigger] has_id(
                        self.watchers@,
                        x,
                    ) == has_id(pre, x) by {
                        if has_id(self.watchers@, x) {
                            let w = choose|k: int|
                                0 <= k < self.watchers@.len() && self.watchers@[k] == x;
                            let wi: int = if w < i { w } else { w + 1 };
                            assert(pre[wi] == x);
                        }
                        if has_id(pre, x) {
                            let w = choose|k: int| 0 <= k < pre.len() && pre[k] == x;
                            if w < i {
                                assert(self.watchers@[w] == x);
                            } else {
                                assert(w != i);
                                assert(self.watchers@[w - 1] == x);
                            }
                        }
                    }
                    assert(has_id(pre, line_id)) by {
                        assert(pre[i as int] == line_id);
                    }
                }
                return true;
            }
            i = i + 1;
        }
        proof {
            if has_id(pre, line_id) {
                let w = choose|k: int| 0 <= k < pre.len() && pre[k] == line_id;
                assert(pre[w] != line_id);
            }
        }
        false
    }
}

} // verus!
