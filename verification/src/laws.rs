use vstd::prelude::*;

use crate::addr::WorkerAddr;
use crate::registry::{hb_updated, newly_failed, registered, swept, WorkerStatus};

verus! {

/// One successful registration: which worker, at what time, with which
/// outbound-connection token.
#[derive(Clone, Copy, PartialEq, Eq, Debug)]
pub struct Registration {
    pub source: WorkerAddr,
    pub now: u64,
    pub sender: u64,
}

/// The worker map after a run of successful registrations applied in order
/// to `m`: each inserts (or overwrites) a fresh healthy entry stamped with
/// its own time and token — exactly the transition `Registry::register`
/// ensures on success.
pub open spec fn apply_registrations(
    m: Map<WorkerAddr, WorkerStatus>,
    regs: Seq<Registration>,
) -> Map<WorkerAddr, WorkerStatus>
    decreases regs.len(),
{
    if regs.len() == 0 {
        m
    } else {
        apply_registrations(m, regs.drop_last()).insert(
            regs.last().source,
            registered(regs.last().now, regs.last().sender),
        )
    }
}

/// Law: a run of registrations with pairwise-distinct worker addresses,
/// starting from an empty registry, ends with exactly one entry per
/// registered address — each healthy, stamped with its own registration
/// time and token — and with nothing else in the map.
pub proof fn lemma_distinct_registrations(regs: Seq<Registration>)
    requires
        forall|i: int, j: int|
            0 <= i < j < regs.len() ==> (#[trigger] regs[i]).source != (#[trigger] regs[j]).source,
    ensures
        forall|k: int|
            0 <= k < regs.len() ==> apply_registrations(Map::empty(), regs).contains_key(
                (#[trigger] regs[k]).source,
            ) && apply_registrations(Map::empty(), regs)[regs[k].source] == registered(
                regs[k].now,
                regs[k].sender,
            ),
        forall|a: WorkerAddr| #[trigger]
            apply_registrations(Map::empty(), regs).contains_key(a) ==> exists|k: int|
                0 <= k < regs.len() && (#[trigger] regs[k]).source == a,
        apply_registrations(Map::empty(), regs).dom().finite(),
        apply_registrations(Map::empty(), regs).dom().len() == regs.len(),
    decreases regs.len(),
{
    if regs.len() > 0 {
        let pre = regs.drop_last();
        let last = regs.last();
        assert forall|i: int, j: int| 0 <= i < j < pre.len() implies (#[trigger] pre[i]).source
            != (#[trigger] pre[j]).source by {
            assert(pre[i] == regs[i]);
            assert(pre[j] == regs[j]);
        }
        lemma_distinct_registrations(pre);
        let m1 = apply_registrations(Map::empty(), pre);
        let m2 = apply_registrations(Map::empty(), regs);
        assert(m2 == m1.insert(last.source, registered(last.now, last.sender)));
        assert(!m1.contains_key(last.source)) by {
            if m1.contains_key(last.source) {
                let k = choose|k: int| 0 <= k < pre.len() && (#[trigger] pre[k]).source == last.source;
                assert(regs[k] == pre[k]);
                assert(regs[k].source != regs[regs.len() - 1].source);
                assert(regs[regs.len() - 1] == last);
            }
        }
        assert forall|k: int| 0 <= k < regs.len() implies m2.contains_key(
            (#[trigger] regs[k]).source,
        ) && m2[regs[k].source] == registered(regs[k].now, regs[k].sender) by {
            if k < regs.len() - 1 {
                assert(pre[k] == regs[k]);
                assert(regs[k].source != last.source) by {
                    assert(regs[regs.len() - 1] == last);
                }
            } else {
                assert(regs[k] == last);
            }
        }
        assert forall|a: WorkerAddr| #[trigger] m2.contains_key(a) implies exists|k: int|
            0 <= k < regs.len() && (#[trigger] regs[k]).source == a by {
            if a == last.source {
                assert(regs[regs.len() - 1].source == a);
            } else {
                let k = choose|k: int| 0 <= k < pre.len() && (#[trigger] pre[k]).source == a;
                assert(regs[k] == pre[k]);
                assert(regs[k].source == a);
            }
        }
        assert(m2.dom() =~= m1.dom().insert(last.source));
    }
}

/// Law: re-registering an address overwrites.  Registering a worker twice
/// leaves a single entry, carrying the second registration's status, and
/// the set of registered addresses gains nothing the second time.
pub proof fn lemma_reregistration_overwrites(
    m: Map<WorkerAddr, WorkerStatus>,
    a: WorkerAddr,
    s1: WorkerStatus,
    s2: WorkerStatus,
)
    ensures
        m.insert(a, s1).insert(a, s2) == m.insert(a, s2),
        m.insert(a, s1).insert(a, s2).dom() == m.insert(a, s1).dom(),
{
    assert(m.insert(a, s1).insert(a, s2) =~= m.insert(a, s2));
    assert(m.insert(a, s1).insert(a, s2).dom() =~= m.insert(a, s1).dom());
}

/// Law: outside registration, liveness only degrades.  A heartbeat moves
/// the timestamp forward (or leaves it unchanged when the clock reading
/// coincides) and never changes `healthy` — in particular it never flips
/// an unhealthy worker back to healthy.  A sweep never raises `healthy`
/// and never touches the timestamp or the connection token.
pub proof fn lemma_liveness_only_degrades(s: WorkerStatus, threshold: u64, now: u64)
    requires
        s.last_heartbeat <= now,
    ensures
        hb_updated(s, now).healthy == s.healthy,
        hb_updated(s, now).last_heartbeat >= s.last_heartbeat,
        hb_updated(s, now).sender == s.sender,
        swept(s, threshold, now).healthy ==> s.healthy,
        swept(s, threshold, now).last_heartbeat == s.last_heartbeat,
        swept(s, threshold, now).sender == s.sender,
{
}

/// Law: the staleness bound is a strict inequality.  With elapsed time at
/// most the threshold — in particular exactly at it — a sweep leaves the
/// status untouched; strictly beyond it, a healthy worker is demoted and
/// reported.
pub proof fn lemma_threshold_is_strict(s: WorkerStatus, threshold: u64, now: u64)
    requires
        s.last_heartbeat <= now,
    ensures
        now - s.last_heartbeat <= threshold ==> swept(s, threshold, now) == s,
        now - s.last_heartbeat > threshold && s.healthy ==> !swept(s, threshold, now).healthy
            && newly_failed(s, threshold, now),
{
}

/// Law: a demotion is reported exactly once.  A worker a sweep has demoted
/// is no longer `newly_failed` for any later sweep, and sweeping an
/// already-swept status again at the same time changes nothing.
pub proof fn lemma_failure_reported_once(s: WorkerStatus, threshold: u64, now1: u64, now2: u64)
    ensures
        !swept(s, threshold, now1).healthy ==> !newly_failed(
            swept(s, threshold, now1),
            threshold,
            now2,
        ),
        swept(swept(s, threshold, now1), threshold, now1) == swept(s, threshold, now1),
{
}

} // verus!
