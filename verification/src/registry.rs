use vstd::prelude::*;

use crate::addr::WorkerAddr;

verus! {

/// Liveness bookkeeping for one worker, owned by the registry.
///
/// `sender` is an opaque token standing for the send side of the outbound
/// connection the controller opened back to the worker; it is `None` only
/// before registration completes.  `last_heartbeat` is a timestamp read from
/// the controller's monotonic clock.
#[derive(Clone, Copy, PartialEq, Eq, Debug)]
pub struct WorkerStatus {
    pub healthy: bool,
    pub last_heartbeat: u64,
    pub sender: Option<u64>,
}

impl WorkerStatus {
    pub fn new(sender: u64, now: u64) -> (s: WorkerStatus)
        ensures
            s == registered(now, sender),
    {
        WorkerStatus { healthy: true, last_heartbeat: now, sender: Some(sender) }
    }
}

/// Why the outbound connect back to a registering worker failed.
#[derive(Clone, Copy, PartialEq, Eq, Debug)]
pub enum ConnectError {
    Refused,
    TimedOut,
    Unreachable,
}

/// The status a worker carries right after a successful registration at
/// time `now`, with outbound-connection token `sender`.
pub open spec fn registered(now: u64, sender: u64) -> WorkerStatus {
    WorkerStatus { healthy: true, last_heartbeat: now, sender: Some(sender) }
}

/// The status after a heartbeat at time `now`: only the timestamp moves.
pub open spec fn hb_updated(s: WorkerStatus, now: u64) -> WorkerStatus {
    WorkerStatus { healthy: s.healthy, last_heartbeat: now, sender: s.sender }
}

/// A worker is stale when strictly more than `threshold` time has passed
/// since its last heartbeat.  At exactly `threshold` it is not yet stale.
pub open spec fn is_stale(s: WorkerStatus, threshold: u64, now: u64) -> bool {
    now - s.last_heartbeat > threshold
}

/// The status after one liveness sweep at time `now`: a healthy worker that
/// has gone stale is demoted; everything else is left exactly as it was.
/// A sweep never raises `healthy` and never touches the timestamp or the
/// connection token.
pub open spec fn swept(s: WorkerStatus, threshold: u64, now: u64) -> WorkerStatus {
    WorkerStatus {
        healthy: s.healthy && !is_stale(s, threshold, now),
        last_heartbeat: s.last_heartbeat,
        sender: s.sender,
    }
}

/// A sweep at time `now` reports exactly the workers that it demotes: those
/// still marked healthy whose heartbeat has gone stale.
pub open spec fn newly_failed(s: WorkerStatus, threshold: u64, now: u64) -> bool {
    s.healthy && is_stale(s, threshold, now)
}

/// The addresses in `s` are pairwise distinct: the registry keeps at most
/// one entry per worker address.
pub open spec fn distinct_addrs(s: Seq<(WorkerAddr, WorkerStatus)>) -> bool {
    forall|i: int, j: int|
        0 <= i < j < s.len() ==> (#[trigger] s[i]).0 != (#[trigger] s[j]).0
}

/// The map an entry sequence denotes: later entries win, though under
/// `distinct_addrs` there is nothing to win over.
pub open spec fn entries_map(s: Seq<(WorkerAddr, WorkerStatus)>) -> Map<WorkerAddr, WorkerStatus>
    decreases s.len(),
{
    if s.len() == 0 {
        Map::empty()
    } else {
        entries_map(s.drop_last()).insert(s.last().0, s.last().1)
    }
}

proof fn lemma_distinct_drop_last(s: Seq<(WorkerAddr, WorkerStatus)>)
    requires
        distinct_addrs(s),
        s.len() > 0,
    ensures
        distinct_addrs(s.drop_last()),
{
    assert forall|i: int, j: int| 0 <= i < j < s.drop_last().len() implies (#[trigger] s.drop_last()[i]).0
        != (#[trigger] s.drop_last()[j]).0 by {
        assert(s.drop_last()[i] == s[i]);
        assert(s.drop_last()[j] == s[j]);
    }
}

proof fn lemma_entries_map_index(s: Seq<(WorkerAddr, WorkerStatus)>, i: int)
    requires
        distinct_addrs(s),
        0 <= i < s.len(),
    ensures
        entries_map(s).contains_key(s[i].0),
        entries_map(s)[s[i].0] == s[i].1,
    decreases s.len(),
{
    if i == s.len() - 1 {
        assert(s[i] == s.last());
    } else {
        lemma_distinct_drop_last(s);
        lemma_entries_map_index(s.drop_last(), i);
        assert(s.drop_last()[i] == s[i]);
        assert(s[i].0 != s.last().0);
    }
}

proof fn lemma_entries_map_not_contains(s: Seq<(WorkerAddr, WorkerStatus)>, a: WorkerAddr)
    requires
        forall|i: int| 0 <= i < s.len() ==> (#[trigger] s[i]).0 != a,
    ensures
        !entries_map(s).contains_key(a),
    decreases s.len(),
{
    if s.len() > 0 {
        assert forall|i: int| 0 <= i < s.drop_last().len() implies (#[trigger] s.drop_last()[i]).0
            != a by {
            assert(s.drop_last()[i] == s[i]);
        }
        lemma_entries_map_not_contains(s.drop_last(), a);
        assert(s.last() == s[s.len() - 1]);
    }
}

proof fn lemma_entries_map_witness(s: Seq<(WorkerAddr, WorkerStatus)>, a: WorkerAddr)
    requires
        entries_map(s).contains_key(a),
    ensures
        exists|i: int| 0 <= i < s.len() && (#[trigger] s[i]).0 == a,
    decreases s.len(),
{
    if s.len() > 0 {
        if s.last().0 == a {
            assert(s[s.len() - 1].0 == a);
        } else {
            lemma_entries_map_witness(s.drop_last(), a);
            let i = choose|i: int| 0 <= i < s.drop_last().len() && (#[trigger] s.drop_last()[i]).0 == a;
            assert(s[i] == s.drop_last()[i]);
            assert(s[i].0 == a);
        }
    }
}

proof fn lemma_entries_map_push(s: Seq<(WorkerAddr, WorkerStatus)>, a: WorkerAddr, st: WorkerStatus)
    ensures
        entries_map(s.push((a, st))) == entries_map(s).insert(a, st),
{
    let t = s.push((a, st));
    assert(t.drop_last() =~= s);
    assert(t.last() == (a, st));
}

proof fn lemma_entries_map_update(s: Seq<(WorkerAddr, WorkerStatus)>, i: int, st: WorkerStatus)
    requires
        distinct_addrs(s),
        0 <= i < s.len(),
    ensures
        entries_map(s.update(i, (s[i].0, st))) == entries_map(s).insert(s[i].0, st),
    decreases s.len(),
{
    let a = s[i].0;
    let t = s.update(i, (a, st));
    if i == s.len() - 1 {
        assert(t.drop_last() =~= s.drop_last());
        assert(t.last() == (a, st));
        assert(s.last() == s[i]);
        assert(entries_map(s).insert(a, st) =~= entries_map(s.drop_last()).insert(a, st));
    } else {
        lemma_distinct_drop_last(s);
        assert(s.drop_last()[i] == s[i]);
        lemma_entries_map_update(s.drop_last(), i, st);
        assert(t.drop_last() =~= s.drop_last().update(i, (a, st)));
        assert(t.last() == s.last());
        assert(a != s.last().0);
        assert(entries_map(s.drop_last()).insert(a, st).insert(s.last().0, s.last().1) =~= entries_map(
            s.drop_last(),
        ).insert(s.last().0, s.last().1).insert(a, st));
    }
}

proof fn lemma_entries_map_len(s: Seq<(WorkerAddr, WorkerStatus)>)
    requires
        distinct_addrs(s),
    ensures
        entries_map(s).dom().finite(),
        entries_map(s).dom().len() == s.len(),
    decreases s.len(),
{
    if s.len() == 0 {
        assert(entries_map(s).dom() =~= Set::<WorkerAddr>::empty());
    } else {
        lemma_distinct_drop_last(s);
        lemma_entries_map_len(s.drop_last());
        assert forall|i: int| 0 <= i < s.drop_last().len() implies (#[trigger] s.drop_last()[i]).0
            != s.last().0 by {
            assert(s.drop_last()[i] == s[i]);
            assert(s.last() == s[s.len() - 1]);
        }
        lemma_entries_map_not_contains(s.drop_last(), s.last().0);
        assert(entries_map(s).dom() =~= entries_map(s.drop_last()).dom().insert(s.last().0));
    }
}

proof fn lemma_distinct_update(s: Seq<(WorkerAddr, WorkerStatus)>, i: int, v: (WorkerAddr, WorkerStatus))
    requires
        distinct_addrs(s),
        0 <= i < s.len(),
        v.0 == s[i].0,
    ensures
        distinct_addrs(s.update(i, v)),
{
    let t = s.update(i, v);
    assert forall|x: int, y: int| 0 <= x < y < t.len() implies (#[trigger] t[x]).0
        != (#[trigger] t[y]).0 by {
        assert(t[x] == if x == i { v } else { s[x] });
        assert(t[y] == if y == i { v } else { s[y] });
        assert(s[x].0 != s[y].0);
    }
}

proof fn lemma_distinct_push(s: Seq<(WorkerAddr, WorkerStatus)>, v: (WorkerAddr, WorkerStatus))
    requires
        distinct_addrs(s),
        forall|i: int| 0 <= i < s.len() ==> (#[trigger] s[i]).0 != v.0,
    ensures
        distinct_addrs(s.push(v)),
{
    let t = s.push(v);
    assert forall|x: int, y: int| 0 <= x < y < t.len() implies (#[trigger] t[x]).0
        != (#[trigger] t[y]).0 by {
        if y == s.len() {
            assert(t[x] == s[x]);
            assert(t[y] == v);
        } else {
            assert(t[x] == s[x]);
            assert(t[y] == s[y]);
        }
    }
}

/// The worker registry: the only place liveness state lives.  It maps each
/// worker address to its current status; re-registration overwrites, so the
/// registry never holds two entries for one address.
///
/// Its view is the finite map from worker address to status.
pub struct Registry {
    entries: Vec<(WorkerAddr, WorkerStatus)>,
}

impl View for Registry {
    type V = Map<WorkerAddr, WorkerStatus>;

    closed spec fn view(&self) -> Map<WorkerAddr, WorkerStatus> {
        entries_map(self.entries@)
    }
}

impl Registry {
    /// One entry per address, always.
    pub closed spec fn wf(&self) -> bool {
        distinct_addrs(self.entries@)
    }

    pub fn new() -> (r: Registry)
        ensures
            r.wf(),
            r@ == Map::<WorkerAddr, WorkerStatus>::empty(),
    {
        Registry { entries: Vec::new() }
    }

    fn find(&self, addr: WorkerAddr) -> (r: Option<usize>)
        ensures
            match r {
                Some(i) => i < self.entries@.len() && self.entries@[i as int].0 == addr,
                None => forall|i: int|
                    0 <= i < self.entries@.len() ==> (#[trigger] self.entries@[i]).0 != addr,
            },
    {
        let n = self.entries.len();
        for i in 0..n
            invariant
                n == self.entries@.len(),
                forall|j: int| 0 <= j < i ==> (#[trigger] self.entries@[j]).0 != addr,
        {
            if self.entries[i].0 == addr {
                return Some(i);
            }
        }
        None
    }

    /// Complete a registration of the worker at `source`.
    ///
    /// The caller has already attempted the outbound connect to the callback
    /// address the worker supplied; `conn` is its outcome.  On success the
    /// worker gets a fresh, healthy entry stamped `now` — overwriting any
    /// entry it had before.  On failure nothing is recorded and the error is
    /// handed back to the caller.
    pub fn register(&mut self, source: WorkerAddr, now: u64, conn: Result<
        u64,
        ConnectError,
    >) -> (r: Result<(), ConnectError>)
        requires
            old(self).wf(),
        ensures
            final(self).wf(),
            conn matches Ok(h) ==> r is Ok && final(self)@ == old(self)@.insert(
                source,
                registered(now, h),
            ),
            conn matches Err(e) ==> r == Err::<(), ConnectError>(e) && final(self)@ == old(
                self,
            )@,
    {
        match conn {
            Err(e) => Err(e),
            Ok(h) => {
                let ws = WorkerStatus::new(h, now);
                match self.find(source) {
                    Some(i) => {
                        proof {
                            lemma_entries_map_update(self.entries@, i as int, ws);
                            lemma_distinct_update(self.entries@, i as int, (source, ws));
                        }
                        self.entries[i] = (source, ws);
                    },
                    None => {
                        proof {
                            lemma_entries_map_push(self.entries@, source, ws);
                            lemma_distinct_push(self.entries@, (source, ws));
                        }
                        self.entries.push((source, ws));
                    },
                }
                Ok(())
            },
        }
    }

    /// Record a heartbeat from `source` at time `now`.
    ///
    /// A known worker gets its timestamp refreshed — nothing else about it
    /// changes, in particular an unhealthy worker stays unhealthy.  A
    /// heartbeat from a worker that was never registered is an anomaly: the
    /// registry is left untouched and `false` comes back so the caller can
    /// report it.  Timestamps come from a monotonic clock, so `now` is never
    /// behind the stamp already recorded.
    pub fn record_heartbeat(&mut self, source: WorkerAddr, now: u64) -> (known: bool)
        requires
            old(self).wf(),
            old(self)@.contains_key(source) ==> old(self)@[source].last_heartbeat <= now,
        ensures
            final(self).wf(),
            known == old(self)@.contains_key(source),
            known ==> final(self)@ == old(self)@.insert(
                source,
                hb_updated(old(self)@[source], now),
            ),
            !known ==> final(self)@ == old(self)@,
    {
        match self.find(source) {
            None => {
                proof {
                    lemma_entries_map_not_contains(self.entries@, source);
                }
                false
            },
            Some(i) => {
                let e = self.entries[i];
                let ws = WorkerStatus { healthy: e.1.healthy, last_heartbeat: now, sender: e.1.sender };
                proof {
                    lemma_entries_map_index(self.entries@, i as int);
                    lemma_entries_map_update(self.entries@, i as int, ws);
                    lemma_distinct_update(self.entries@, i as int, (source, ws));
                }
                self.entries[i] = (source, ws);
                true
            },
        }
    }

    /// Look a worker up; `None` exactly when it was never registered.
    pub fn get(&self, addr: WorkerAddr) -> (r: Option<WorkerStatus>)
        requires
            self.wf(),
        ensures
            self@.contains_key(addr) ==> r == Some(self@[addr]),
            !self@.contains_key(addr) ==> r is None,
    {
        match self.find(addr) {
            None => {
                proof {
                    lemma_entries_map_not_contains(self.entries@, addr);
                }
                None
            },
            Some(i) => {
                proof {
                    lemma_entries_map_index(self.entries@, i as int);
                }
                Some(self.entries[i].1)
            },
        }
    }

    /// Whether `addr` has a registry entry.
    pub fn contains(&self, addr: WorkerAddr) -> (r: bool)
        requires
            self.wf(),
        ensures
            r == self@.contains_key(addr),
    {
        self.get(addr).is_some()
    }

    /// One liveness sweep over the whole registry at time `now`.
    ///
    /// Every worker still marked healthy whose last heartbeat lies strictly
    /// more than `threshold` in the past is demoted to unhealthy and
    /// reported in the result, each at most once; at exactly `threshold`
    /// elapsed a worker is still in time.  Workers already unhealthy are
    /// left untouched and are not reported again.  No entry's timestamp or
    /// connection token changes, and no entry appears or disappears.  The
    /// sweep touches no network: reporting is by returned value alone.
    pub fn sweep_liveness(&mut self, threshold: u64, now: u64) -> (failed: Vec<WorkerAddr>)
        requires
            old(self).wf(),
            forall|a: WorkerAddr| #[trigger] old(self)@.contains_key(a)
                ==> old(self)@[a].last_heartbeat <= now,
        ensures
            final(self).wf(),
            final(self)@.dom() == old(self)@.dom(),
            forall|a: WorkerAddr| #[trigger] old(self)@.contains_key(a)
                ==> final(self)@[a] == swept(old(self)@[a], threshold, now),
            forall|a: WorkerAddr| #[trigger] failed@.contains(a)
                ==> old(self)@.contains_key(a) && newly_failed(old(self)@[a], threshold, now),
            forall|a: WorkerAddr| #[trigger] old(self)@.contains_key(a)
                && newly_failed(old(self)@[a], threshold, now) ==> failed@.contains(a),
            failed@.no_duplicates(),
    {
        let mut failed: Vec<WorkerAddr> = Vec::new();
        let ghost mut idxs: Seq<int> = Seq::empty();
        let n = self.entries.len();
        let mut i: usize = 0;
        while i < n
            invariant
                i <= n,
                n == self.entries@.len(),
                self.entries@.len() == old(self).entries@.len(),
                distinct_addrs(old(self).entries@),
                forall|a: WorkerAddr| #[trigger] old(self)@.contains_key(a)
                    ==> old(self)@[a].last_heartbeat <= now,
                forall|j: int|
                    0 <= j < n ==> (#[trigger] self.entries@[j]).0 == old(self).entries@[j].0,
                forall|j: int| i <= j < n ==> #[trigger] self.entries@[j] == old(self).entries@[j],
                forall|j: int|
                    0 <= j < i ==> (#[trigger] self.entries@[j]).1 == swept(
                        old(self).entries@[j].1,
                        threshold,
                        now,
                    ),
                idxs.len() == failed@.len(),
                forall|k: int| 0 <= k < idxs.len() ==> 0 <= #[trigger] idxs[k] < i,
                forall|k: int|
                    0 <= k < idxs.len() ==> old(self).entries@[#[trigger] idxs[k]].0 == failed@[k]
                        && newly_failed(old(self).entries@[idxs[k]].1, threshold, now),
                forall|k1: int, k2: int| 0 <= k1 < k2 < idxs.len() ==> #[trigger] idxs[k1] < #[trigger] idxs[k2],
                forall|j: int|
                    0 <= j < i && newly_failed((#[trigger] old(self).entries@[j]).1, threshold, now)
                        ==> failed@.contains(old(self).entries@[j].0),
            decreases n - i,
        {
            let e = self.entries[i];
            proof {
                lemma_entries_map_index(old(self).entries@, i as int);
                assert(e == old(self).entries@[i as int]);
                assert(old(self)@.contains_key(e.0));
                assert(old(self)@[e.0] == e.1);
            }
            if e.1.healthy && now - e.1.last_heartbeat > threshold {
                proof {
                    assert(newly_failed(old(self).entries@[i as int].1, threshold, now));
                }
                let ghost failed_before = failed@;
                failed.push(e.0);
                proof {
                    idxs = idxs.push(i as int);
                    assert(failed@[failed@.len() - 1] == e.0);
                    assert forall|j: int|
                        0 <= j < i + 1 && newly_failed(
                            (#[trigger] old(self).entries@[j]).1,
                            threshold,
                            now,
                        ) implies failed@.contains(old(self).entries@[j].0) by {
                        if j < i as int {
                            assert(failed_before.contains(old(self).entries@[j].0));
                            let k = choose|k: int|
                                0 <= k < failed_before.len() && failed_before[k] == old(
                                    self,
                                ).entries@[j].0;
                            assert(failed@[k] == old(self).entries@[j].0);
                        } else {
                            assert(failed@[failed@.len() - 1] == old(self).entries@[j].0);
                        }
                    }
                }
                self.entries[i] = (
                    e.0,
                    WorkerStatus {
                        healthy: false,
                        last_heartbeat: e.1.last_heartbeat,
                        sender: e.1.sender,
                    },
                );
            } else {
                proof {
                    assert(swept(e.1, threshold, now) == e.1);
                    assert(!newly_failed(old(self).entries@[i as int].1, threshold, now));
                    assert forall|j: int|
                        0 <= j < i + 1 && newly_failed(
                            (#[trigger] old(self).entries@[j]).1,
                            threshold,
                            now,
                        ) implies failed@.contains(old(self).entries@[j].0) by {
                        assert(j < i as int);
                    }
                }
            }
            i = i + 1;
        }
        proof {
            assert forall|x: int, y: int| 0 <= x < y < self.entries@.len() implies (
            #[trigger] self.entries@[x]).0 != (#[trigger] self.entries@[y]).0 by {
                assert(old(self).entries@[x].0 != old(self).entries@[y].0);
            }
            assert forall|a: WorkerAddr| #[trigger] self@.contains_key(a) implies old(
                self,
            )@.contains_key(a) by {
                lemma_entries_map_witness(self.entries@, a);
                let j = choose|j: int|
                    0 <= j < self.entries@.len() && (#[trigger] self.entries@[j]).0 == a;
                lemma_entries_map_index(old(self).entries@, j);
            }
            assert forall|a: WorkerAddr| #[trigger] old(self)@.contains_key(a) implies self@.contains_key(
                a,
            ) && self@[a] == swept(old(self)@[a], threshold, now) by {
                lemma_entries_map_witness(old(self).entries@, a);
                let j = choose|j: int|
                    0 <= j < old(self).entries@.len() && (#[trigger] old(self).entries@[j]).0 == a;
                lemma_entries_map_index(old(self).entries@, j);
                lemma_entries_map_index(self.entries@, j);
            }
            assert(self@.dom() =~= old(self)@.dom());
            assert forall|x: int, y: int| 0 <= x < y < failed@.len() implies failed@[x]
                != failed@[y] by {
                assert(failed@[x] == old(self).entries@[idxs[x]].0);
                assert(failed@[y] == old(self).entries@[idxs[y]].0);
                assert(idxs[x] < idxs[y]);
            }
            assert forall|a: WorkerAddr| #[trigger] failed@.contains(a) implies old(
                self,
            )@.contains_key(a) && newly_failed(old(self)@[a], threshold, now) by {
                let k = choose|k: int| 0 <= k < failed@.len() && failed@[k] == a;
                lemma_entries_map_index(old(self).entries@, idxs[k]);
            }
            assert forall|a: WorkerAddr| #[trigger] old(self)@.contains_key(a) && newly_failed(
                old(self)@[a],
                threshold,
                now,
            ) implies failed@.contains(a) by {
                lemma_entries_map_witness(old(self).entries@, a);
                let j = choose|j: int|
                    0 <= j < old(self).entries@.len() && (#[trigger] old(self).entries@[j]).0 == a;
                lemma_entries_map_index(old(self).entries@, j);
            }
        }
        failed
    }

    /// How many workers have an entry — one per registered address.
    pub fn len(&self) -> (n: usize)
        requires
            self.wf(),
        ensures
            n as nat == self@.dom().len(),
    {
        proof {
            lemma_entries_map_len(self.entries@);
        }
        self.entries.len()
    }
}

} // verus!
