use vstd::prelude::*;

use crate::addr::WorkerAddr;
use crate::registry::{
    hb_updated, newly_failed, registered, swept, ConnectError, Registry, WorkerStatus,
};

verus! {

/// The payload of a coordination message.  `Extension` is the open
/// extension point of the wire protocol: a variant this controller does not
/// yet handle (a future deregistration, say).  Rather than treating such a
/// message as fatal, dispatch logs it and ignores it, keeping the control
/// plane available.
#[derive(Clone, Copy, PartialEq, Eq, Debug)]
pub enum CoordinationPayload {
    Register(WorkerAddr),
    Heartbeat,
    Extension,
}

/// The wire-level envelope a worker sends: who it is, and what it wants.
#[derive(Clone, Copy, PartialEq, Eq, Debug)]
pub struct CoordinationMessage {
    pub source: WorkerAddr,
    pub payload: CoordinationPayload,
}

/// What dispatching one inbound message decided.
#[derive(Clone, Copy, PartialEq, Eq, Debug)]
pub enum Dispatch {
    /// A registration arrived: the caller must now open the outbound
    /// connection to `callback` and report the outcome through
    /// [`Controller::handle_register`].  Nothing is recorded yet.
    Connect { source: WorkerAddr, callback: WorkerAddr },
    /// A known worker's heartbeat was recorded.
    HeartbeatRecorded,
    /// A heartbeat arrived for a worker that was never registered: a
    /// critical (but non-fatal) anomaly; no state changed.
    UnknownWorkerHeartbeat,
    /// An unrecognized payload variant: logged and ignored.
    Ignored,
}

/// The one cluster-state mutation the controller requests: admission of a newly
/// registered worker, with its outbound-connection token, to the shared
/// dataflow graph.  The caller applies it while holding the graph's lock.
#[derive(Clone, Copy, PartialEq, Eq, Debug)]
pub struct AdmitWorker {
    pub addr: WorkerAddr,
    pub sender: u64,
}

/// A request to open the controller-to-worker connection for a registering
/// worker, targeting the callback address it supplied.
#[derive(Clone, Copy, PartialEq, Eq, Debug)]
pub struct ConnectRequest {
    pub source: WorkerAddr,
    pub callback: WorkerAddr,
}

/// One wakeup of the control event loop.
#[derive(Clone, Copy, PartialEq, Eq, Debug)]
pub enum Event {
    /// An inbound coordination message arrived.
    Message(CoordinationMessage),
    /// The outbound connect requested for a registration finished, with
    /// either the connection's token or the error.
    ConnectFinished { source: WorkerAddr, conn: Result<u64, ConnectError> },
    /// The poll deadline passed with no traffic.
    Timer,
    /// A wakeup with nothing to dispatch.
    Idle,
}

/// Everything one loop iteration asks of its surroundings: at most one
/// connect to attempt, at most one admission to apply under the graph lock,
/// the anomalies to log, the workers newly marked failed, and the next poll
/// deadline.  `keep_polling` is always true: the loop has no exit.
#[derive(PartialEq, Eq, Debug)]
pub struct StepOutput {
    pub connect_request: Option<ConnectRequest>,
    pub admission: Option<AdmitWorker>,
    pub register_failed: Option<(WorkerAddr, ConnectError)>,
    pub unknown_heartbeat: Option<WorkerAddr>,
    pub newly_failed: Vec<WorkerAddr>,
    pub resume_timeout: u64,
    pub keep_polling: bool,
}

/// What dispatching `e` alone (before any liveness sweep) does to the
/// worker map: a finished connect inserts or overwrites an entry, a
/// heartbeat from a known worker refreshes its timestamp, and everything
/// else leaves the map alone.
pub open spec fn dispatch_effect(
    m: Map<WorkerAddr, WorkerStatus>,
    e: Event,
    now: u64,
) -> Map<WorkerAddr, WorkerStatus> {
    match e {
        Event::Message(msg) => match msg.payload {
            CoordinationPayload::Register(_) => m,
            CoordinationPayload::Heartbeat => if m.contains_key(msg.source) {
                m.insert(msg.source, hb_updated(m[msg.source], now))
            } else {
                m
            },
            CoordinationPayload::Extension => m,
        },
        Event::ConnectFinished { source, conn } => match conn {
            Ok(h) => m.insert(source, registered(now, h)),
            Err(_) => m,
        },
        Event::Timer => m,
        Event::Idle => m,
    }
}

/// The controller: single writer of the worker registry, driver of the
/// liveness monitor, and decision core of the control event loop.
///
/// All timestamps are read from one monotonic clock by the surrounding
/// loop and passed in; `clock` remembers the largest value seen, so that
/// heartbeat timestamps never move backwards.
pub struct Controller {
    listen_addr: String,
    listen_port: u16,
    registry: Registry,
    heartbeat_every: u64,
    healthcheck_every: u64,
    last_checked_workers: u64,
    clock: u64,
}

impl Controller {
    /// The worker map the registry currently holds.
    pub closed spec fn workers(&self) -> Map<WorkerAddr, WorkerStatus> {
        self.registry@
    }

    pub closed spec fn heartbeat_every(&self) -> u64 {
        self.heartbeat_every
    }

    pub closed spec fn healthcheck_every(&self) -> u64 {
        self.healthcheck_every
    }

    /// When the last liveness sweep ran.
    pub closed spec fn last_sweep(&self) -> u64 {
        self.last_checked_workers
    }

    /// The largest timestamp this controller has seen.
    pub closed spec fn clock(&self) -> u64 {
        self.clock
    }

    /// The staleness bound the liveness monitor applies: three heartbeat
    /// periods.
    pub closed spec fn liveness_threshold(&self) -> u64 {
        (3 * self.heartbeat_every) as u64
    }

    pub closed spec fn listen_addr_spec(&self) -> Seq<char> {
        self.listen_addr@
    }

    pub closed spec fn listen_port_spec(&self) -> u16 {
        self.listen_port
    }

    pub closed spec fn inv(&self) -> bool {
        &&& self.registry.wf()
        &&& forall|a: WorkerAddr| #[trigger]
            self.registry@.contains_key(a) ==> self.registry@[a].last_heartbeat <= self.clock
        &&& self.last_checked_workers <= self.clock
        &&& 3 * (self.heartbeat_every as int) <= u64::MAX as int
    }

    /// A fresh controller with an empty registry.  `now` is the current
    /// reading of the monotonic clock; the first sweep is measured from it.
    /// `heartbeat_every` is bounded so that the threshold of three
    /// heartbeat periods fits the timestamp type.
    pub fn new(
        listen_addr: &str,
        port: u16,
        heartbeat_every: u64,
        healthcheck_every: u64,
        now: u64,
    ) -> (c: Controller)
        requires
            3 * (heartbeat_every as int) <= u64::MAX as int,
        ensures
            c.inv(),
            c.workers() == Map::<WorkerAddr, WorkerStatus>::empty(),
            c.heartbeat_every() == heartbeat_every,
            c.healthcheck_every() == healthcheck_every,
            c.liveness_threshold() as int == 3 * heartbeat_every as int,
            c.last_sweep() == now,
            c.clock() == now,
            c.listen_addr_spec() == listen_addr@,
            c.listen_port_spec() == port,
    {
        Controller {
            listen_addr: listen_addr.to_string(),
            listen_port: port,
            registry: Registry::new(),
            heartbeat_every,
            healthcheck_every,
            last_checked_workers: now,
            clock: now,
        }
    }

    /// Dispatch one inbound coordination message at time `now`.
    ///
    /// A registration is not completed here: the outbound connect to the
    /// worker's callback address is I/O, so dispatch hands back a
    /// [`Dispatch::Connect`] request and the registry stays untouched until
    /// [`Self::handle_register`] reports the outcome.  A heartbeat from a
    /// known worker refreshes its timestamp; one from an unknown worker is
    /// reported and changes nothing.  An unrecognized payload is ignored.
    pub fn handle(&mut self, msg: &CoordinationMessage, now: u64) -> (d: Dispatch)
        requires
            old(self).inv(),
            old(self).clock() <= now,
        ensures
            final(self).inv(),
            final(self).clock() == now,
            final(self).heartbeat_every() == old(self).heartbeat_every(),
            final(self).healthcheck_every() == old(self).healthcheck_every(),
            final(self).last_sweep() == old(self).last_sweep(),
            msg.payload matches CoordinationPayload::Register(cb) ==> final(self).workers() == old(self).workers() && d == (Dispatch::Connect { source: msg.source, callback: cb }),
            msg.payload is Heartbeat && old(self).workers().contains_key(msg.source) ==> final(self).workers() == old(self).workers().insert(
                msg.source,
                hb_updated(old(self).workers()[msg.source], now),
            ) && d == Dispatch::HeartbeatRecorded,
            msg.payload is Heartbeat && !old(self).workers().contains_key(msg.source) ==> final(self).workers() == old(self).workers() && d == Dispatch::UnknownWorkerHeartbeat,
            msg.payload is Extension ==> final(self).workers() == old(self).workers() && d
                == Dispatch::Ignored,
    {
        self.clock = now;
        match msg.payload {
            CoordinationPayload::Register(callback) => Dispatch::Connect {
                source: msg.source,
                callback,
            },
            CoordinationPayload::Heartbeat => {
                let known = self.registry.record_heartbeat(msg.source, now);
                proof {
                    assert forall|a: WorkerAddr| #[trigger]
                        self.registry@.contains_key(a) implies self.registry@[a].last_heartbeat
                        <= self.clock by {
                        if a != msg.source {
                            assert(old(self).registry@.contains_key(a));
                        }
                    }
                }
                if known {
                    Dispatch::HeartbeatRecorded
                } else {
                    Dispatch::UnknownWorkerHeartbeat
                }
            },
            CoordinationPayload::Extension => Dispatch::Ignored,
        }
    }

    /// Complete a registration begun by [`Self::handle`], once the caller
    /// has attempted the outbound connect to the worker's callback address.
    ///
    /// On a successful connect the worker gets a fresh healthy entry
    /// (overwriting any it had) and the caller receives the admission to
    /// apply to the shared cluster state under its lock.  On a failed
    /// connect the error is passed back, no entry is created, and no
    /// admission is requested — a failed registration never mutates
    /// registry or graph.
    pub fn handle_register(&mut self, source: WorkerAddr, now: u64, conn: Result<
        u64,
        ConnectError,
    >) -> (r: Result<AdmitWorker, ConnectError>)
        requires
            old(self).inv(),
            old(self).clock() <= now,
        ensures
            final(self).inv(),
            final(self).clock() == now,
            final(self).heartbeat_every() == old(self).heartbeat_every(),
            final(self).healthcheck_every() == old(self).healthcheck_every(),
            final(self).last_sweep() == old(self).last_sweep(),
            conn matches Ok(h) ==> r == Ok::<AdmitWorker, ConnectError>(
                AdmitWorker { addr: source, sender: h },
            ) && final(self).workers() == old(self).workers().insert(source, registered(now, h)),
            conn matches Err(e) ==> r == Err::<AdmitWorker, ConnectError>(e) && final(self).workers() == old(self).workers(),
    {
        self.clock = now;
        match conn {
            Ok(h) => {
                let res = self.registry.register(source, now, Ok(h));
                proof {
                    assert forall|a: WorkerAddr| #[trigger]
                        self.registry@.contains_key(a) implies self.registry@[a].last_heartbeat
                        <= self.clock by {
                        if a != source {
                            assert(old(self).registry@.contains_key(a));
                        }
                    }
                }
                Ok(AdmitWorker { addr: source, sender: h })
            },
            Err(e) => Err(e),
        }
    }

    /// Run the liveness monitor if (strictly) more than `healthcheckEvery`
    /// has passed since it last ran; otherwise do nothing.
    ///
    /// When it runs, every healthy worker whose last heartbeat lies
    /// strictly more than three heartbeat periods in the past is marked
    /// unhealthy and reported, each exactly once; workers already unhealthy
    /// are not reported again.  The sweep performs no I/O.
    pub fn check_worker_liveness(&mut self, now: u64) -> (newly: Vec<WorkerAddr>)
        requires
            old(self).inv(),
            old(self).clock() <= now,
        ensures
            final(self).inv(),
            final(self).clock() == now,
            final(self).heartbeat_every() == old(self).heartbeat_every(),
            final(self).healthcheck_every() == old(self).healthcheck_every(),
            now - old(self).last_sweep() > old(self).healthcheck_every() ==> {
                &&& final(self).last_sweep() == now
                &&& final(self).workers().dom() == old(self).workers().dom()
                &&& forall|a: WorkerAddr| #[trigger]
                    old(self).workers().contains_key(a) ==> final(self).workers()[a] == swept(
                        old(self).workers()[a],
                        old(self).liveness_threshold(),
                        now,
                    )
                &&& forall|a: WorkerAddr| #[trigger]
                    newly@.contains(a) ==> old(self).workers().contains_key(a) && newly_failed(
                        old(self).workers()[a],
                        old(self).liveness_threshold(),
                        now,
                    )
                &&& forall|a: WorkerAddr| #[trigger]
                    old(self).workers().contains_key(a) && newly_failed(
                        old(self).workers()[a],
                        old(self).liveness_threshold(),
                        now,
                    ) ==> newly@.contains(a)
                &&& newly@.no_duplicates()
            },
            !(now - old(self).last_sweep() > old(self).healthcheck_every()) ==> {
                &&& final(self).last_sweep() == old(self).last_sweep()
                &&& final(self).workers() == old(self).workers()
                &&& newly@ == Seq::<WorkerAddr>::empty()
            },
    {
        let due = now - self.last_checked_workers > self.healthcheck_every;
        self.clock = now;
        if due {
            let threshold = 3 * self.heartbeat_every;
            let newly = self.registry.sweep_liveness(threshold, now);
            self.last_checked_workers = now;
            proof {
                assert forall|a: WorkerAddr| #[trigger]
                    self.registry@.contains_key(a) implies self.registry@[a].last_heartbeat
                    <= self.clock by {
                    assert(old(self).registry@.contains_key(a));
                    assert(self.registry@[a] == swept(old(self).registry@[a], threshold, now));
                }
            }
            newly
        } else {
            Vec::new()
        }
    }

    /// One iteration of the control event loop: dispatch the event, then
    /// give the liveness monitor its chance, and tell the surrounding loop
    /// what to do next.  The poll deadline is reset to `healthcheckEvery`
    /// every iteration, and the loop never stops of its own accord.
    pub fn step(&mut self, event: Event, now: u64) -> (out: StepOutput)
        requires
            old(self).inv(),
            old(self).clock() <= now,
        ensures
            final(self).inv(),
            final(self).clock() == now,
            final(self).heartbeat_every() == old(self).heartbeat_every(),
            final(self).healthcheck_every() == old(self).healthcheck_every(),
            out.resume_timeout == old(self).healthcheck_every(),
            out.keep_polling,
            out.connect_request == (match event {
                Event::Message(msg) => match msg.payload {
                    CoordinationPayload::Register(cb) => Some(
                        ConnectRequest { source: msg.source, callback: cb },
                    ),
                    _ => None::<ConnectRequest>,
                },
                _ => None::<ConnectRequest>,
            }),
            out.admission == (match event {
                Event::ConnectFinished { source, conn } => match conn {
                    Ok(h) => Some(AdmitWorker { addr: source, sender: h }),
                    Err(_) => None::<AdmitWorker>,
                },
                _ => None::<AdmitWorker>,
            }),
            out.register_failed == (match event {
                Event::ConnectFinished { source, conn } => match conn {
                    Ok(_) => None::<(WorkerAddr, ConnectError)>,
                    Err(e) => Some((source, e)),
                },
                _ => None::<(WorkerAddr, ConnectError)>,
            }),
            out.unknown_heartbeat == (match event {
                Event::Message(msg) => if msg.payload is Heartbeat && !old(self).workers().contains_key(msg.source) {
                    Some(msg.source)
                } else {
                    None::<WorkerAddr>
                },
                _ => None::<WorkerAddr>,
            }),
            now - old(self).last_sweep() > old(self).healthcheck_every() ==> {
                &&& final(self).last_sweep() == now
                &&& final(self).workers().dom() == dispatch_effect(
                    old(self).workers(),
                    event,
                    now,
                ).dom()
                &&& forall|a: WorkerAddr| #[trigger]
                    dispatch_effect(old(self).workers(), event, now).contains_key(a) ==> final(self).workers()[a] == swept(
                        dispatch_effect(old(self).workers(), event, now)[a],
                        old(self).liveness_threshold(),
                        now,
                    )
                &&& forall|a: WorkerAddr| #[trigger]
                    out.newly_failed@.contains(a) ==> dispatch_effect(
                        old(self).workers(),
                        event,
                        now,
                    ).contains_key(a) && newly_failed(
                        dispatch_effect(old(self).workers(), event, now)[a],
                        old(self).liveness_threshold(),
                        now,
                    )
                &&& forall|a: WorkerAddr| #[trigger]
                    dispatch_effect(old(self).workers(), event, now).contains_key(a)
                        && newly_failed(
                        dispatch_effect(old(self).workers(), event, now)[a],
                        old(self).liveness_threshold(),
                        now,
                    ) ==> out.newly_failed@.contains(a)
                &&& out.newly_failed@.no_duplicates()
            },
            !(now - old(self).last_sweep() > old(self).healthcheck_every()) ==> {
                &&& final(self).last_sweep() == old(self).last_sweep()
                &&& final(self).workers() == dispatch_effect(old(self).workers(), event, now)
                &&& out.newly_failed@ == Seq::<WorkerAddr>::empty()
            },
    {
        let mut connect_request: Option<ConnectRequest> = None;
        let mut admission: Option<AdmitWorker> = None;
        let mut register_failed: Option<(WorkerAddr, ConnectError)> = None;
        let mut unknown_heartbeat: Option<WorkerAddr> = None;
        match event {
            Event::Message(msg) => {
                let d = self.handle(&msg, now);
                match d {
                    Dispatch::Connect { source, callback } => {
                        connect_request = Some(ConnectRequest { source, callback });
                    },
                    Dispatch::HeartbeatRecorded => {},
                    Dispatch::UnknownWorkerHeartbeat => {
                        unknown_heartbeat = Some(msg.source);
                    },
                    Dispatch::Ignored => {},
                }
            },
            Event::ConnectFinished { source, conn } => {
                match self.handle_register(source, now, conn) {
                    Ok(a) => {
                        admission = Some(a);
                    },
                    Err(e) => {
                        register_failed = Some((source, e));
                    },
                }
            },
            Event::Timer => {},
            Event::Idle => {},
        }
        proof {
            assert(self.workers() == dispatch_effect(old(self).workers(), event, now));
        }
        let newly = self.check_worker_liveness(now);
        StepOutput {
            connect_request,
            admission,
            register_failed,
            unknown_heartbeat,
            newly_failed: newly,
            resume_timeout: self.healthcheck_every,
            keep_polling: true,
        }
    }

    /// Look a worker's current status up.
    pub fn worker_status(&self, addr: WorkerAddr) -> (r: Option<WorkerStatus>)
        requires
            self.inv(),
        ensures
            self.workers().contains_key(addr) ==> r == Some(self.workers()[addr]),
            !self.workers().contains_key(addr) ==> r is None,
    {
        self.registry.get(addr)
    }

    /// How many workers are registered.
    pub fn worker_count(&self) -> (n: usize)
        requires
            self.inv(),
        ensures
            n as nat == self.workers().dom().len(),
    {
        self.registry.len()
    }

    /// The address the surrounding loop should bind the listening socket to.
    pub fn listen_addr(&self) -> (r: &String)
        ensures
            r@ == self.listen_addr_spec(),
    {
        &self.listen_addr
    }

    /// The port the surrounding loop should bind the listening socket to.
    pub fn listen_port(&self) -> (r: u16)
        ensures
            r == self.listen_port_spec(),
    {
        self.listen_port
    }
}

} // verus!
