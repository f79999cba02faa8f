//! The relay core: fan-out, readiness announcement, throughput counters.
//!
//! A `Relay` owns the connection registry and makes every decision the
//! servers share: which sessions a received message is enqueued to,
//! when the readiness sentinel goes out, and what the counters show.
//! The I/O layer drives it event by event — a peer connected, a buffer
//! arrived, a read or write failed — and performs the writes that the
//! per-session queues call for.

use vstd::prelude::*;
use crate::registry::Registry;
use crate::registry::RegistryError;

verus! {

broadcast use vstd::set::group_set_axioms;

/// Whether a broadcast includes its own sender.
#[derive(Clone, Copy, Debug, PartialEq, Eq, Structural)]
pub enum FanOutPolicy {
    /// The sender never receives its own message back.
    ExcludeSender,
    /// Every registered session receives a copy, the sender too.
    IncludeAll,
}

/// The relay's state, as the contracts speak of it: the sessions with
/// their pending outbound messages, the configured readiness threshold
/// and fan-out policy, whether the readiness sentinel has gone out, and
/// the two advisory counters.
pub struct RelayModel {
    pub sessions: Map<u64, Seq<Seq<u8>>>,
    pub threshold: int,
    pub policy: FanOutPolicy,
    pub ready_fired: bool,
    pub sent: u64,
    pub received: u64,
}

/// The readiness sentinel on the wire: the ASCII line `ready\n`.
pub open spec fn ready_sentinel() -> Seq<u8> {
    seq![114u8, 101u8, 97u8, 100u8, 121u8, 10u8]
}

/// Counter arithmetic: the advisory counters never wrap, they stick at
/// the top instead.
pub open spec fn sat_add64(a: u64, b: int) -> u64 {
    if a + b > u64::MAX {
        u64::MAX
    } else {
        (a + b) as u64
    }
}

/// The sessions a message from `sender` is delivered to.
pub open spec fn fanout_targets(dom: Set<u64>, sender: u64, policy: FanOutPolicy) -> Set<u64> {
    match policy {
        FanOutPolicy::ExcludeSender => dom.remove(sender),
        FanOutPolicy::IncludeAll => dom,
    }
}

/// One copy of `msg` appended to the queue of every target session;
/// every other queue, and the set of sessions, unchanged.
pub open spec fn deliver_to(
    sessions: Map<u64, Seq<Seq<u8>>>,
    targets: Set<u64>,
    msg: Seq<u8>,
) -> Map<u64, Seq<Seq<u8>>> {
    Map::new(
        |k: u64| sessions.contains_key(k),
        |k: u64|
            if targets.contains(k) {
                sessions[k].push(msg)
            } else {
                sessions[k]
            },
    )
}

/// Whether registering `id` crosses the threshold: the sentinel goes
/// out only when the insert succeeds, brings the size to exactly the
/// threshold, and the sentinel has never gone out before.
pub open spec fn connect_fires(m: RelayModel, id: u64) -> bool {
    &&& !m.sessions.contains_key(id)
    &&& !m.ready_fired
    &&& m.sessions.insert(id, Seq::<Seq<u8>>::empty()).dom().len() == m.threshold
}

/// The state after a peer registers as `id`. A duplicate identifier
/// changes nothing; otherwise the session joins with an empty queue,
/// and on a threshold crossing the sentinel is enqueued to every
/// registered session and the announcer is latched.
pub open spec fn spec_connect(m: RelayModel, id: u64) -> RelayModel {
    if m.sessions.contains_key(id) {
        m
    } else {
        let joined = m.sessions.insert(id, Seq::<Seq<u8>>::empty());
        if !m.ready_fired && joined.dom().len() == m.threshold {
            RelayModel {
                sessions: deliver_to(joined, joined.dom(), ready_sentinel()),
                ready_fired: true,
                sent: sat_add64(m.sent, joined.dom().len() as int),
                ..m
            }
        } else {
            RelayModel { sessions: joined, ..m }
        }
    }
}

/// The state after a message arrives from `sender`: one copy enqueued
/// per target session, one received event counted, one sent event
/// counted per enqueued copy.
pub open spec fn spec_inbound(m: RelayModel, sender: u64, msg: Seq<u8>) -> RelayModel {
    let targets = fanout_targets(m.sessions.dom(), sender, m.policy);
    RelayModel {
        sessions: deliver_to(m.sessions, targets, msg),
        sent: sat_add64(m.sent, targets.len() as int),
        received: sat_add64(m.received, 1),
        ..m
    }
}

/// The state after session `id` goes away, on end-of-stream or on a
/// failed read or write. Removing an absent session changes nothing.
pub open spec fn spec_disconnect(m: RelayModel, id: u64) -> RelayModel {
    RelayModel { sessions: m.sessions.remove(id), ..m }
}

/// The readiness sentinel as a buffer ready to write.
pub fn ready_message() -> (r: Vec<u8>)
    ensures
        r@ == ready_sentinel(),
{
    let mut v: Vec<u8> = Vec::new();
    v.push(114u8);
    v.push(101u8);
    v.push(97u8);
    v.push(100u8);
    v.push(121u8);
    v.push(10u8);
    proof {
        assert(v@ =~= ready_sentinel());
    }
    v
}

fn sat_bump(a: u64, b: u64) -> (r: u64)
    ensures
        r == sat_add64(a, b as int),
{
    if a > u64::MAX - b {
        u64::MAX
    } else {
        a + b
    }
}

/// The fan-out relay: registry, readiness announcer, counters.
pub struct Relay {
    registry: Registry,
    threshold: usize,
    policy: FanOutPolicy,
    ready_fired: bool,
    sent: u64,
    received: u64,
}

impl View for Relay {
    type V = RelayModel;

    closed spec fn view(&self) -> RelayModel {
        RelayModel {
            sessions: self.registry@,
            threshold: self.threshold as int,
            policy: self.policy,
            ready_fired: self.ready_fired,
            sent: self.sent,
            received: self.received,
        }
    }
}

impl Relay {
    pub closed spec fn wf(&self) -> bool {
        self.registry.wf()
    }

    /// A fresh relay: nobody registered, sentinel not yet announced,
    /// counters at zero.
    pub fn new(threshold: usize, policy: FanOutPolicy) -> (r: Relay)
        ensures
            r.wf(),
            r@.sessions == Map::<u64, Seq<Seq<u8>>>::empty(),
            r@.threshold == threshold as int,
            r@.policy == policy,
            !r@.ready_fired,
            r@.sent == 0,
            r@.received == 0,
    {
        Relay {
            registry: Registry::new(),
            threshold,
            policy,
            ready_fired: false,
            sent: 0,
            received: 0,
        }
    }

    /// Current number of registered sessions.
    pub fn size(&self) -> (n: usize)
        ensures
            n == self@.sessions.dom().len(),
    {
        self.registry.len()
    }

    pub fn is_registered(&self, id: u64) -> (r: bool)
        ensures
            r == self@.sessions.contains_key(id),
    {
        self.registry.contains(id)
    }

    pub fn threshold(&self) -> (n: usize)
        ensures
            n as int == self@.threshold,
    {
        self.threshold
    }

    pub fn policy(&self) -> (p: FanOutPolicy)
        ensures
            p == self@.policy,
    {
        self.policy
    }

    pub fn ready_has_fired(&self) -> (r: bool)
        ensures
            r == self@.ready_fired,
    {
        self.ready_fired
    }

    pub fn messages_sent(&self) -> (n: u64)
        ensures
            n == self@.sent,
    {
        self.sent
    }

    pub fn messages_received(&self) -> (n: u64)
        ensures
            n == self@.received,
    {
        self.received
    }

    /// The sampler's read-and-reset of the sent counter: returns the
    /// count accumulated since the previous sample.
    pub fn sample_sent(&mut self) -> (n: u64)
        ensures
            n == old(self)@.sent,
            final(self)@ == (RelayModel { sent: 0, ..old(self)@ }),
            final(self).wf() == old(self).wf(),
    {
        let n = self.sent;
        self.sent = 0;
        n
    }

    /// The sampler's read-and-reset of the received counter.
    pub fn sample_received(&mut self) -> (n: u64)
        ensures
            n == old(self)@.received,
            final(self)@ == (RelayModel { received: 0, ..old(self)@ }),
            final(self).wf() == old(self).wf(),
    {
        let n = self.received;
        self.received = 0;
        n
    }

    /// How many messages are pending for session `id`.
    pub fn pending_count(&self, id: u64) -> (n: usize)
        ensures
            self@.sessions.contains_key(id) ==> n == self@.sessions[id].len(),
            !self@.sessions.contains_key(id) ==> n == 0,
    {
        self.registry.pending_count(id)
    }

    /// A peer registers as `id`. On a duplicate identifier the state is
    /// unchanged and the caller gets the error; otherwise `Ok` carries
    /// whether this very insert made the readiness sentinel go out.
    pub fn connect(&mut self, id: u64) -> (r: Result<bool, RegistryError>)
        requires
            old(self).wf(),
        ensures
            final(self).wf(),
            final(self)@ == spec_connect(old(self)@, id),
            old(self)@.sessions.contains_key(id) ==> r == Err::<bool, RegistryError>(
                RegistryError::DuplicateId,
            ),
            !old(self)@.sessions.contains_key(id) ==> r == Ok::<bool, RegistryError>(
                connect_fires(old(self)@, id),
            ),
    {
        match self.registry.insert(id) {
            Err(e) => Err(e),
            Ok(()) => {
                let fires = !self.ready_fired && self.registry.len() == self.threshold;
                if fires {
                    self.ready_fired = true;
                    self.announce_ready();
                    Ok(true)
                } else {
                    Ok(false)
                }
            },
        }
    }

    /// Enqueues the readiness sentinel to every registered session and
    /// counts each copy as sent.
    fn announce_ready(&mut self)
        requires
            old(self).wf(),
        ensures
            final(self).wf(),
            final(self)@.sessions == deliver_to(
                old(self)@.sessions,
                old(self)@.sessions.dom(),
                ready_sentinel(),
            ),
            final(self)@.sent == sat_add64(
                old(self)@.sent,
                old(self)@.sessions.dom().len() as int,
            ),
            final(self)@.received == old(self)@.received,
            final(self)@.threshold == old(self)@.threshold,
            final(self)@.policy == old(self)@.policy,
            final(self)@.ready_fired == old(self)@.ready_fired,
    {
        let ids = self.registry.snapshot();
        let msg = ready_message();
        let ghost s0 = self.registry@;
        let ghost sent0 = self.sent;
        let mut i: usize = 0;
        while i < ids.len()
            invariant
                self.registry.wf(),
                i <= ids@.len(),
                ids@.no_duplicates(),
                forall|k: u64| #[trigger] ids@.contains(k) <==> s0.contains_key(k),
                ids@.len() == s0.dom().len(),
                msg@ == ready_sentinel(),
                self.registry@.dom() == s0.dom(),
                forall|k: u64| #[trigger]
                    s0.contains_key(k) ==> self.registry@[k] == (if ids@.take(
                        i as int,
                    ).contains(k) {
                        s0[k].push(ready_sentinel())
                    } else {
                        s0[k]
                    }),
                self.sent == sat_add64(sent0, i as int),
                self.threshold == old(self).threshold,
                self.policy == old(self).policy,
                self.ready_fired == old(self).ready_fired,
                self.received == old(self).received,
            decreases ids@.len() - i,
        {
            let id = ids[i];
            let ghost pre = self.registry@;
            proof {
                assert(ids@.contains(id));
                assert(!ids@.take(i as int).contains(id)) by {
                    if ids@.take(i as int).contains(id) {
                        let j = choose|j: int|
                            0 <= j < i && ids@.take(i as int)[j] == id;
                        assert(ids@[j] == ids@[i as int]);
                    }
                }
            }
            let copy = vstd::slice::slice_to_vec(msg.as_slice());
            let delivered = self.registry.enqueue(id, copy);
            proof {
                assert(delivered);
                assert(self.registry@.dom() =~= s0.dom());
            }
            self.sent = sat_bump(self.sent, 1);
            proof {
                let tcur = ids@.take(i as int);
                let tnext = ids@.take(i as int + 1);
                assert(tnext =~= tcur.push(id));
                assert forall|k: u64| s0.contains_key(k) implies self.registry@[k] == (
                if ids@.take(i as int + 1).contains(k) {
                    s0[k].push(ready_sentinel())
                } else {
                    s0[k]
                }) by {
                    if k == id {
                        assert(tnext.contains(k)) by {
                            assert(tnext[i as int] == id);
                        }
                        assert(self.registry@[k] == pre[k].push(ready_sentinel()));
                    } else {
                        assert(self.registry@[k] == pre[k]);
                        assert(tnext.contains(k) == tcur.contains(k)) by {
                            if tnext.contains(k) {
                                let j = choose|j: int|
                                    0 <= j < i + 1 && #[trigger] tnext[j] == k;
                                assert(j != i);
                                assert(tcur[j] == k);
                            }
                            if tcur.contains(k) {
                                let j = choose|j: int| 0 <= j < i && #[trigger] tcur[j] == k;
                                assert(tnext[j] == k);
                            }
                        }
                    }
                }
            }
            i += 1;
        }
        proof {
            assert(ids@.take(ids@.len() as int) =~= ids@);
            assert(self.registry@ =~= deliver_to(s0, s0.dom(), ready_sentinel()));
        }
    }

    /// A message arrived from `sender`: fan it out. Returns how many
    /// sessions got a copy.
    pub fn inbound(&mut self, sender: u64, msg: &[u8]) -> (delivered: usize)
        requires
            old(self).wf(),
        ensures
            final(self).wf(),
            final(self)@ == spec_inbound(old(self)@, sender, msg@),
            delivered == fanout_targets(
                old(self)@.sessions.dom(),
                sender,
                old(self)@.policy,
            ).len(),
    {
        let ids = self.registry.snapshot();
        let ghost s0 = self.registry@;
        let ghost sent0 = self.sent;
        proof {
            self.registry.lemma_wf_finite_dom();
        }
        let exclude = match self.policy {
            FanOutPolicy::ExcludeSender => true,
            FanOutPolicy::IncludeAll => false,
        };
        let mut count: usize = 0;
        let mut i: usize = 0;
        while i < ids.len()
            invariant
                self.registry.wf(),
                i <= ids@.len(),
                ids@.no_duplicates(),
                forall|k: u64| #[trigger] ids@.contains(k) <==> s0.contains_key(k),
                ids@.len() == s0.dom().len(),
                exclude == (self.policy == FanOutPolicy::ExcludeSender),
                self.registry@.dom() == s0.dom(),
                forall|k: u64| #[trigger]
                    s0.contains_key(k) ==> self.registry@[k] == (if ids@.take(
                        i as int,
                    ).contains(k) && !(exclude && k == sender) {
                        s0[k].push(msg@)
                    } else {
                        s0[k]
                    }),
                count as int == i - (if exclude && ids@.take(i as int).contains(sender) {
                    1int
                } else {
                    0int
                }),
                self.sent == sat_add64(sent0, count as int),
                self.threshold == old(self).threshold,
                self.policy == old(self).policy,
                self.ready_fired == old(self).ready_fired,
                self.received == old(self).received,
            decreases ids@.len() - i,
        {
            let id = ids[i];
            let ghost pre = self.registry@;
            proof {
                assert(ids@.contains(id));
                assert(!ids@.take(i as int).contains(id)) by {
                    if ids@.take(i as int).contains(id) {
                        let j = choose|j: int|
                            0 <= j < i && ids@.take(i as int)[j] == id;
                        assert(ids@[j] == ids@[i as int]);
                    }
                }
            }
            if !(exclude && id == sender) {
                let copy = vstd::slice::slice_to_vec(msg);
                let delivered = self.registry.enqueue(id, copy);
                proof {
                    assert(delivered);
                    assert(self.registry@.dom() =~= s0.dom());
                }
                count += 1;
                self.sent = sat_bump(self.sent, 1);
            }
            proof {
                let tcur = ids@.take(i as int);
                let tnext = ids@.take(i as int + 1);
                assert(tnext =~= tcur.push(id));
                assert(tnext[i as int] == id);
                assert forall|k: u64| tnext.contains(k) == (tcur.contains(k) || k == id) by {
                    if tnext.contains(k) && k != id {
                        let j = choose|j: int| 0 <= j < i + 1 && #[trigger] tnext[j] == k;
                        assert(j != i);
                        assert(tcur[j] == k);
                    }
                    if tcur.contains(k) {
                        let j = choose|j: int| 0 <= j < i && #[trigger] tcur[j] == k;
                        assert(tnext[j] == k);
                    }
                }
                assert forall|k: u64| s0.contains_key(k) implies self.registry@[k] == (
                if ids@.take(i as int + 1).contains(k) && !(exclude && k == sender) {
                    s0[k].push(msg@)
                } else {
                    s0[k]
                }) by {
                    if !(exclude && id == sender) && k == id {
                        assert(self.registry@[k] == pre[k].push(msg@));
                    } else if k != id {
                        assert(self.registry@[k] == pre[k]);
                    }
                }
            }
            i += 1;
        }
        self.received = sat_bump(self.received, 1);
        proof {
            assert(ids@.take(ids@.len() as int) =~= ids@);
            let targets = fanout_targets(s0.dom(), sender, self.policy);
            if exclude {
                if s0.contains_key(sender) {
                    assert(ids@.contains(sender));
                    assert(targets.len() == s0.dom().len() - 1);
                } else {
                    assert(!ids@.contains(sender));
                    assert(targets =~= s0.dom());
                }
            }
            assert(count as int == targets.len());
            assert(self.registry@ =~= deliver_to(s0, targets, msg@));
        }
        count
    }

    /// Session `id` is gone: a read returned end-of-stream or failed,
    /// or its writer saw a terminal write error. Idempotent; after it,
    /// no fan-out enqueues anything to `id`.
    pub fn disconnect(&mut self, id: u64)
        requires
            old(self).wf(),
        ensures
            final(self).wf(),
            final(self)@ == spec_disconnect(old(self)@, id),
    {
        self.registry.remove(id);
    }

    /// A datagram arrived from the peer with best-effort key `id`: an
    /// unknown peer is registered first (datagram sessions have no
    /// accept step), then the payload fans out. Returns whether the
    /// peer was new, and how many sessions got a copy.
    pub fn datagram_inbound(&mut self, id: u64, msg: &[u8]) -> (r: (bool, usize))
        requires
            old(self).wf(),
        ensures
            final(self).wf(),
            r.0 == !old(self)@.sessions.contains_key(id),
            final(self)@ == spec_inbound(spec_connect(old(self)@, id), id, msg@),
            r.1 == fanout_targets(
                spec_connect(old(self)@, id).sessions.dom(),
                id,
                old(self)@.policy,
            ).len(),
    {
        let newly = !self.is_registered(id);
        if newly {
            let _ = self.connect(id);
        }
        let n = self.inbound(id, msg);
        (newly, n)
    }

    /// The writer's side of session `id`: the oldest message still to
    /// deliver, dequeued, or `None` when the queue is empty or the
    /// session is gone.
    pub fn next_outbound(&mut self, id: u64) -> (r: Option<Vec<u8>>)
        requires
            old(self).wf(),
        ensures
            final(self).wf(),
            match r {
                Some(msg) => old(self)@.sessions.contains_key(id) && old(
                    self,
                )@.sessions[id].len() > 0 && msg@ == old(self)@.sessions[id][0] && final(self)@
                    == (RelayModel {
                    sessions: old(self)@.sessions.insert(
                        id,
                        old(self)@.sessions[id].drop_first(),
                    ),
                    ..old(self)@
                }),
                None => final(self)@ == old(self)@ && (old(self)@.sessions.contains_key(id)
                    ==> old(self)@.sessions[id].len() == 0),
            },
    {
        self.registry.pop_front(id)
    }
}

/// Law: under the exclude-sender policy, when a registered session
/// sends one message every other registered session receives exactly
/// one copy — its queue grows by exactly that message — the sender
/// receives zero, and no session appears or disappears.
pub proof fn lemma_fanout_excludes_sender(m: RelayModel, sender: u64, msg: Seq<u8>)
    requires
        m.policy == FanOutPolicy::ExcludeSender,
    ensures
        spec_inbound(m, sender, msg).sessions.dom() == m.sessions.dom(),
        forall|k: u64|
            m.sessions.contains_key(k) && k != sender ==> #[trigger] spec_inbound(
                m,
                sender,
                msg,
            ).sessions[k] == m.sessions[k].push(msg),
        m.sessions.contains_key(sender) ==> spec_inbound(m, sender, msg).sessions[sender]
            == m.sessions[sender],
{
    assert(spec_inbound(m, sender, msg).sessions.dom() =~= m.sessions.dom());
}

/// Law: under the include-all policy, every registered session — the
/// sender too — receives exactly one copy of a sent message.
pub proof fn lemma_fanout_includes_all(m: RelayModel, sender: u64, msg: Seq<u8>)
    requires
        m.policy == FanOutPolicy::IncludeAll,
    ensures
        spec_inbound(m, sender, msg).sessions.dom() == m.sessions.dom(),
        forall|k: u64|
            m.sessions.contains_key(k) ==> #[trigger] spec_inbound(m, sender, msg).sessions[k]
                == m.sessions[k].push(msg),
{
    assert(spec_inbound(m, sender, msg).sessions.dom() =~= m.sessions.dom());
}

/// Law: the readiness announcer is a latch. A crossing sets it; once
/// set, no connect fires again, and neither fan-out nor disconnect
/// clears it — so the sentinel goes out at most once over the relay's
/// lifetime.
pub proof fn lemma_ready_latch(m: RelayModel, id: u64, sender: u64, msg: Seq<u8>)
    ensures
        spec_connect(m, id).ready_fired == (m.ready_fired || connect_fires(m, id)),
        m.ready_fired ==> !connect_fires(m, id),
        spec_inbound(m, sender, msg).ready_fired == m.ready_fired,
        spec_disconnect(m, id).ready_fired == m.ready_fired,
{
}

/// Law: when the threshold crossing fires, every session registered at
/// that moment — the one that just joined included — has the sentinel
/// appended to its queue exactly once.
pub proof fn lemma_ready_delivery(m: RelayModel, id: u64)
    requires
        connect_fires(m, id),
    ensures
        spec_connect(m, id).sessions.dom() == m.sessions.dom().insert(id),
        spec_connect(m, id).sessions[id] == Seq::<Seq<u8>>::empty().push(ready_sentinel()),
        forall|k: u64|
            m.sessions.contains_key(k) ==> #[trigger] spec_connect(m, id).sessions[k]
                == m.sessions[k].push(ready_sentinel()),
{
    let joined = m.sessions.insert(id, Seq::<Seq<u8>>::empty());
    assert(spec_connect(m, id).sessions.dom() =~= m.sessions.dom().insert(id));
    assert forall|k: u64| m.sessions.contains_key(k) implies #[trigger] spec_connect(
        m,
        id,
    ).sessions[k] == m.sessions[k].push(ready_sentinel()) by {
        assert(joined.contains_key(k));
        assert(joined[k] == m.sessions[k]);
    }
}

/// Law: a session that connects after the sentinel already went out
/// joins with an empty queue — it receives no sentinel — and nobody
/// else's queue moves.
pub proof fn lemma_no_refire(m: RelayModel, id: u64)
    requires
        m.ready_fired,
        !m.sessions.contains_key(id),
    ensures
        spec_connect(m, id).sessions == m.sessions.insert(id, Seq::<Seq<u8>>::empty()),
        spec_connect(m, id).ready_fired,
        spec_connect(m, id).sessions[id] == Seq::<Seq<u8>>::empty(),
{
}

/// Law: a disconnected session is out of the registry, and a later
/// broadcast delivers nothing to it — fan-out only ever touches queues
/// of registered sessions.
pub proof fn lemma_disconnect_stops_delivery(m: RelayModel, id: u64, sender: u64, msg: Seq<u8>)
    ensures
        !spec_disconnect(m, id).sessions.contains_key(id),
        !spec_inbound(spec_disconnect(m, id), sender, msg).sessions.contains_key(id),
        spec_inbound(m, sender, msg).sessions.dom() == m.sessions.dom(),
{
    assert(spec_inbound(m, sender, msg).sessions.dom() =~= m.sessions.dom());
}

/// Law: a connect followed by the matching disconnect leaves the set of
/// registered sessions exactly as it was — sessions do not drift.
pub proof fn lemma_connect_disconnect_balance(m: RelayModel, id: u64)
    requires
        !m.sessions.contains_key(id),
    ensures
        spec_disconnect(spec_connect(m, id), id).sessions.dom() == m.sessions.dom(),
{
    assert(spec_disconnect(spec_connect(m, id), id).sessions.dom() =~= m.sessions.dom());
}

/// One event of the relay's lifetime, as the laws quantify over it.
pub enum RelayEvent {
    /// A peer registered under an identifier.
    Connect(u64),
    /// A registered peer sent a message.
    Inbound(u64, Seq<u8>),
    /// A session went away.
    Disconnect(u64),
}

/// One step of the relay's event-level behaviour.
pub open spec fn spec_step(m: RelayModel, e: RelayEvent) -> RelayModel {
    match e {
        RelayEvent::Connect(id) => spec_connect(m, id),
        RelayEvent::Inbound(sender, msg) => spec_inbound(m, sender, msg),
        RelayEvent::Disconnect(id) => spec_disconnect(m, id),
    }
}

/// The relay after a whole sequence of events.
pub open spec fn spec_run(m: RelayModel, es: Seq<RelayEvent>) -> RelayModel
    decreases es.len(),
{
    if es.len() == 0 {
        m
    } else {
        spec_run(spec_step(m, es[0]), es.drop_first())
    }
}

/// Whether the event at position `i` of a run starting in `m` is a
/// connect that makes the readiness sentinel go out.
pub open spec fn fires_at(m: RelayModel, es: Seq<RelayEvent>, i: int) -> bool {
    es[i] matches RelayEvent::Connect(id) && connect_fires(spec_run(m, es.take(i)), id)
}

/// Law: the readiness latch is stable over the relay's whole lifetime.
/// Once the sentinel has gone out, no sequence of further connects,
/// broadcasts and disconnects — in particular no climb back up to the
/// threshold — ever clears the latch or makes a connect fire again, so
/// the sentinel goes out at most once.
pub proof fn lemma_ready_fired_stable(m: RelayModel, es: Seq<RelayEvent>)
    requires
        m.ready_fired,
    ensures
        spec_run(m, es).ready_fired,
        forall|i: int| 0 <= i < es.len() ==> !#[trigger] fires_at(m, es, i),
    decreases es.len(),
{
    if es.len() > 0 {
        let m1 = spec_step(m, es[0]);
        assert(m1.ready_fired);
        let tail = es.drop_first();
        lemma_ready_fired_stable(m1, tail);
        assert forall|i: int| 0 <= i < es.len() implies !fires_at(m, es, i) by {
            if i == 0 {
                assert(es.take(0) =~= Seq::<RelayEvent>::empty());
                assert(spec_run(m, es.take(0)) == m);
            } else {
                assert(es.take(i)[0] == es[0]);
                assert(es.take(i).drop_first() =~= tail.take(i - 1));
                assert(spec_run(m, es.take(i)) == spec_run(m1, tail.take(i - 1)));
                assert(tail[i - 1] == es[i]);
                assert(!fires_at(m1, tail, i - 1));
            }
        }
    }
}

/// Law: per receiver, one sender's messages stay in the order sent: two
/// consecutive broadcasts from the same sender append to a receiving
/// session's FIFO queue in that order.
pub proof fn lemma_fifo_per_sender(
    m: RelayModel,
    sender: u64,
    first: Seq<u8>,
    second: Seq<u8>,
    k: u64,
)
    requires
        m.sessions.contains_key(k),
        fanout_targets(m.sessions.dom(), sender, m.policy).contains(k),
    ensures
        spec_inbound(spec_inbound(m, sender, first), sender, second).sessions[k]
            == m.sessions[k].push(first).push(second),
{
    let m1 = spec_inbound(m, sender, first);
    assert(m1.sessions.dom() =~= m.sessions.dom());
}

} // verus!
