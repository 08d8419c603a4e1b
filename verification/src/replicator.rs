//! Sends new atoms to the nodes that subscribe to their worlds, and takes in what arrives.

use vstd::prelude::*;
use vstd::string::*;

use crate::atom::{Atom, AtomView};
use crate::bloom::AtomBatch;
use crate::clock::{Duration, Instant};
use crate::lists;
use crate::lists::duplicate_all;
use crate::message;
use crate::message::{BatchView, CarrierView, MessageView, SwarmEnvelope, SwarmMessage};
use crate::nats;
use crate::nats::{BusCall, NatsSwarmTransport, SwarmBus, TransportView, SUBJECT_BROADCAST};
use crate::replication::{AllowAllWorldAccess, ReplayGuard, ReplayView, WorldAccessPolicy};
use crate::subscriptions;
use crate::subscriptions::{any_matches, PersistedSubscriptionRecord, RecordView};
use crate::subscriptions::{SubscriptionTable, SubscriptionsView};
use crate::swarm::{PeerId, SwarmError, SwarmErrorView};
use crate::text;
use crate::wire::Wire;

verus! {

broadcast use crate::lists::group_views;

/// How many messages of a sender are remembered.
pub const REPLAY_ENTRIES: usize = 2048;

/// How many batches wait to be taken in, where nothing else is said.
pub const DEFAULT_INBOX: usize = 1024;

/// How many seconds messages are remembered, where nothing else is said.
pub const DEFAULT_REPLAY_SECS: u64 = 300;

/// Replicates atoms to and from other nodes.
pub struct Replicator<B, P> {
    pub transport: NatsSwarmTransport<B>,
    pub subscriptions: SubscriptionTable,
    pub self_patterns: Vec<String>,
    pub expiry: Duration,
    pub last_announce: Instant,
    pub incoming: Vec<(PeerId, AtomBatch)>,
    pub max_inbox: usize,
    pub dropped_inbox: usize,
    pub dropped_replay: usize,
    pub replay: ReplayGuard,
    pub policy: P,
}

/// Model of a replicator.
#[verifier::ext_equal]
pub ghost struct ReplicatorView {
    pub transport: TransportView,
    pub subscriptions: SubscriptionsView,
    pub self_patterns: Seq<Seq<char>>,
    pub expiry: u128,
    pub last_announce: Instant,
    pub incoming: Seq<(Seq<char>, BatchView)>,
    pub max_inbox: usize,
    pub dropped_inbox: usize,
    pub dropped_replay: usize,
    pub replay: ReplayView,
}

impl<B: SwarmBus, P> View for Replicator<B, P> {
    type V = ReplicatorView;

    open spec fn view(&self) -> ReplicatorView {
        ReplicatorView {
            transport: self.transport@,
            subscriptions: self.subscriptions@,
            self_patterns: lists::views(self.self_patterns@),
            expiry: self.expiry.nanos,
            last_announce: self.last_announce,
            incoming: lists::views(self.incoming@),
            max_inbox: self.max_inbox,
            dropped_inbox: self.dropped_inbox,
            dropped_replay: self.dropped_replay,
            replay: self.replay@,
        }
    }
}

impl ReplicatorView {
    /// A new replicator.
    pub open spec fn fresh(
        transport: TransportView,
        subscriptions: SubscriptionsView,
        self_patterns: Seq<Seq<char>>,
        expiry: u128,
        max_inbox: usize,
        replay_window: u128,
        now: Instant,
    ) -> ReplicatorView {
        ReplicatorView {
            transport,
            subscriptions,
            self_patterns,
            expiry,
            last_announce: Instant { nanos: (now.nanos - expiry) as u64 },
            incoming: Seq::empty(),
            max_inbox: if max_inbox == 0 {
                1
            } else {
                max_inbox
            },
            dropped_inbox: 0,
            dropped_replay: 0,
            replay: ReplayView {
                seen: Map::empty(),
                window: replay_window,
                max_entries: REPLAY_ENTRIES as nat,
            },
        }
    }

    /// Whether the node wants the atoms of a world.
    pub open spec fn wants(self, world: Seq<char>) -> bool {
        subscriptions::one_matches(self.self_patterns, world)
    }

    /// Whether it is time to say again what the node subscribes to: half of the expiry window
    /// has passed.
    pub open spec fn is_due(self, now: Instant) -> bool {
        now.since(self.last_announce) >= self.expiry / 2
    }

    /// The replicator with one more batch; the oldest one goes if there are too many.
    pub open spec fn enqueued(self, from: Seq<char>, batch: BatchView) -> ReplicatorView {
        if self.incoming.len() >= self.max_inbox {
            ReplicatorView {
                incoming: (if self.incoming.len() > 0 {
                    self.incoming.drop_first()
                } else {
                    self.incoming
                }).push((from, batch)),
                dropped_inbox: self.dropped_inbox.wrapping_add(1),
                ..self
            }
        } else {
            ReplicatorView { incoming: self.incoming.push((from, batch)), ..self }
        }
    }

    /// The replicator after a message for all nodes.
    pub open spec fn after_hearing(self, bytes: Seq<u8>, now: Instant) -> ReplicatorView {
        match message::heard(bytes) {
            Some((from, MessageView::SubscriptionIntent { patterns })) => if from
                != self.transport.self_id {
                ReplicatorView {
                    subscriptions: self.subscriptions.with_record(
                        from,
                        RecordView { patterns, last_seen: now },
                    ),
                    ..self
                }
            } else {
                self
            },
            _ => self,
        }
    }

    /// The nodes that get the atoms of a world: those that subscribe to it, but for this one
    /// and those that the policy leaves out.
    pub open spec fn receivers<P: WorldAccessPolicy>(
        self,
        policy: P,
        world: Seq<char>,
        now: Instant,
    ) -> Seq<Seq<char>> {
        self.subscriptions.pruned(now).subscribers(world).filter(
            |id: Seq<char>| id != self.transport.self_id && policy.sends(world, id),
        )
    }
}

/// What an envelope that has arrived leads to, and whether it can be read: one that was seen
/// before is counted and dropped; of the others, a batch of atoms of a world that the node
/// wants and the policy lets in is queued.
pub open spec fn taken_in<P: WorldAccessPolicy>(
    s: ReplicatorView,
    policy: P,
    e: CarrierView,
    now: Instant,
) -> (ReplicatorView, bool) {
    let next = ReplicatorView { replay: s.replay.after(e.from, e.correlation_id, now), ..s };
    if !s.replay.is_new(e.from, e.correlation_id, now) {
        (ReplicatorView { dropped_replay: s.dropped_replay.wrapping_add(1), ..next }, true)
    } else {
        match SwarmMessage::read(e.payload) {
            None => (next, false),
            Some((MessageView::AtomBatch(batch), _)) => if s.wants(batch.world)
                && policy.receives(batch.world, e.from) {
                (next.enqueued(e.from, batch), true)
            } else {
                (next, true)
            },
            Some(_) => (next, true),
        }
    }
}

/// The replicator without the latest envelope that has arrived.
pub open spec fn without_latest(s: ReplicatorView) -> ReplicatorView {
    ReplicatorView {
        transport: TransportView { rx: s.transport.rx.drop_last(), ..s.transport },
        ..s
    }
}

/// What taking in all that has arrived leads to, the latest first, up to the first envelope
/// that cannot be read; and whether there is none such.
pub open spec fn polled<P: WorldAccessPolicy>(s: ReplicatorView, policy: P, now: Instant) -> (
    ReplicatorView,
    bool,
)
    decreases s.transport.rx.len(),
{
    if s.transport.rx.len() == 0 {
        (s, true)
    } else {
        let (next, readable) = taken_in(
            without_latest(s),
            policy,
            s.transport.rx.last().1,
            now,
        );
        if readable {
            polled(next, policy, now)
        } else {
            (next, readable)
        }
    }
}

/// Whether sending a message to some nodes, one after the other, may lead through the given
/// states of the transport.
pub open spec fn may_send_all<F: Fn() -> bool>(
    allow: F,
    states: Seq<TransportView>,
    receivers: Seq<Seq<char>>,
    msg: MessageView,
    now: Instant,
) -> bool {
    &&& states.len() == receivers.len() + 1
    &&& forall|i: int|
        0 <= i < receivers.len() ==> may_send_step(
            allow,
            states[i],
            #[trigger] receivers[i],
            msg,
            now,
            states[i + 1],
        )
}

/// Whether sending a message to a node may lead from one state of the transport to another.
pub open spec fn may_send_step<F: Fn() -> bool>(
    allow: F,
    before: TransportView,
    to: Seq<char>,
    msg: MessageView,
    now: Instant,
    after: TransportView,
) -> bool {
    exists|r: Result<(), SwarmError>| #[trigger]
        nats::may_send(allow, before, to, msg, now, after, r)
}

/// The message that carries one atom.
pub open spec fn atom_message(atom: AtomView) -> MessageView {
    MessageView::AtomBatch(BatchView { world: atom.world, atoms: seq![atom] })
}

impl<B: SwarmBus> Replicator<B, AllowAllWorldAccess> {
    /// A replicator that lets all worlds in and out.
    pub fn new(
        transport: NatsSwarmTransport<B>,
        self_patterns: Vec<String>,
        expiry: Duration,
        now: Instant,
    ) -> (r: Result<Self, SwarmError>)
        requires
            expiry.nanos <= now.nanos,
        ensures
            exists|reply: Result<(), SwarmError>| #[trigger]
                nats::has_replied(transport.bus, SUBJECT_BROADCAST@, reply) && match reply {
                    Ok(_) => r matches Ok(x) && x@ == ReplicatorView::fresh(
                        transport@.subscribed(SUBJECT_BROADCAST@, reply),
                        SubscriptionsView::empty(expiry.nanos),
                        lists::views(self_patterns@),
                        expiry.nanos,
                        DEFAULT_INBOX,
                        300_000_000_000,
                        now,
                    ),
                    Err(e) => r matches Err(x) && x == e,
                },
    {
        Replicator::with_policy(transport, self_patterns, expiry, AllowAllWorldAccess, now)
    }
}

impl<B: SwarmBus, P: WorldAccessPolicy> Replicator<B, P> {
    /// A replicator with a policy.
    pub fn with_policy(
        transport: NatsSwarmTransport<B>,
        self_patterns: Vec<String>,
        expiry: Duration,
        policy: P,
        now: Instant,
    ) -> (r: Result<Self, SwarmError>)
        requires
            expiry.nanos <= now.nanos,
        ensures
            exists|reply: Result<(), SwarmError>| #[trigger]
                nats::has_replied(transport.bus, SUBJECT_BROADCAST@, reply) && match reply {
                    Ok(_) => r matches Ok(x) && x.policy == policy && x@ == ReplicatorView::fresh(
                        transport@.subscribed(SUBJECT_BROADCAST@, reply),
                        SubscriptionsView::empty(expiry.nanos),
                        lists::views(self_patterns@),
                        expiry.nanos,
                        DEFAULT_INBOX,
                        300_000_000_000,
                        now,
                    ),
                    Err(e) => r matches Err(x) && x == e,
                },
    {
        Replicator::with_policy_and_state(
            transport,
            self_patterns,
            expiry,
            policy,
            None,
            DEFAULT_INBOX,
            Duration::from_secs(DEFAULT_REPLAY_SECS),
            now,
            0,
        )
    }

    /// A replicator with a policy and the subscriptions that were kept on disk; asks for the
    /// messages for all nodes. The clock must reach back as far as the expiry window.
    pub fn with_policy_and_state(
        transport: NatsSwarmTransport<B>,
        self_patterns: Vec<String>,
        expiry: Duration,
        policy: P,
        saved: Option<Vec<(String, PersistedSubscriptionRecord)>>,
        max_inbox: usize,
        replay_window: Duration,
        now: Instant,
        now_ms: u64,
    ) -> (r: Result<Self, SwarmError>)
        requires
            expiry.nanos <= now.nanos,
        ensures
            exists|reply: Result<(), SwarmError>| #[trigger]
                nats::has_replied(transport.bus, SUBJECT_BROADCAST@, reply) && match reply {
                    Ok(_) => r matches Ok(x) && x.policy == policy && x@ == ReplicatorView::fresh(
                        transport@.subscribed(SUBJECT_BROADCAST@, reply),
                        match saved {
                            Some(s) => SubscriptionsView::restored(
                                expiry.nanos,
                                lists::views(s@),
                                now,
                                now_ms,
                            ),
                            None => SubscriptionsView::empty(expiry.nanos),
                        },
                        lists::views(self_patterns@),
                        expiry.nanos,
                        max_inbox,
                        replay_window.nanos,
                        now,
                    ),
                    Err(e) => r matches Err(x) && x == e,
                },
    {
        let subscriptions = match saved {
            Some(s) => SubscriptionTable::restore(expiry, s, now, now_ms),
            None => SubscriptionTable::new(expiry),
        };
        let subject = SUBJECT_BROADCAST;
        let mut transport = transport;
        let ghost given = transport;
        let reply = transport.bus.subscribe(subject);
        assert(nats::has_replied(given.bus, SUBJECT_BROADCAST@, reply));
        assert(transport@ =~= given@.subscribed(SUBJECT_BROADCAST@, reply));
        match reply {
            Ok(_) => Ok(
                Replicator {
                    transport,
                    subscriptions,
                    self_patterns,
                    expiry,
                    last_announce: Instant { nanos: now.nanos - expiry.nanos as u64 },
                    incoming: Vec::new(),
                    max_inbox: if max_inbox == 0 {
                        1
                    } else {
                        max_inbox
                    },
                    dropped_inbox: 0,
                    dropped_replay: 0,
                    replay: ReplayGuard::new(replay_window, REPLAY_ENTRIES),
                    policy,
                },
            ),
            Err(e) => Err(e),
        }
    }

    /// A message for all nodes has arrived: another node says what it subscribes to. Whether
    /// the subscriptions have changed.
    pub fn hear(&mut self, bytes: &[u8], now: Instant) -> (r: bool)
        ensures
            final(self).transport.bus == old(self).transport.bus,
            final(self).policy == old(self).policy,
            final(self)@ == old(self)@.after_hearing(bytes@, now),
            r == (message::heard(bytes@) matches Some(
                (from, MessageView::SubscriptionIntent { .. }),
            ) && from != old(self)@.transport.self_id),
    {
        match SwarmEnvelope::hear(bytes) {
            Some((from, SwarmMessage::SubscriptionIntent { patterns })) => {
                if text::same(from.as_str(), self.transport.self_id.0.as_str()) {
                    false
                } else {
                    self.subscriptions.upsert(from, patterns, now);
                    true
                }
            },
            _ => false,
        }
    }

    /// Says to all nodes what this one subscribes to, unless it did so of late.
    pub fn announce(&mut self, now: Instant) -> (r: Result<(), SwarmError>)
        ensures
            final(self).policy == old(self).policy,
            !old(self)@.is_due(now) ==> r is Ok && final(self)@ == old(self)@,
            old(self)@.is_due(now) ==> exists|e: CarrierView| #[trigger]
                e.carries(
                    old(self)@.transport.self_id,
                    None,
                    MessageView::SubscriptionIntent { patterns: old(self)@.self_patterns },
                    None,
                ) && e.is_stamped() && match message::carrier_packed(e) {
                    Ok(bytes) => final(self)@ == (ReplicatorView {
                        last_announce: now,
                        transport: old(self)@.transport.published(
                            SUBJECT_BROADCAST@,
                            None,
                            bytes,
                            r,
                        ),
                        ..old(self)@
                    }),
                    Err(s) => (r matches Err(x) && x@ == SwarmErrorView::Encode(s)) && final(self)@
                        == (ReplicatorView { last_announce: now, ..old(self)@ }),
                },
    {
        let ghost before = *self;
        if now.duration_since(self.last_announce).nanos < self.expiry.nanos / 2 {
            return Ok(());
        }
        self.last_announce = now;
        let patterns = duplicate_all(self.self_patterns.as_slice());
        let msg = SwarmMessage::SubscriptionIntent { patterns };
        let env = SwarmEnvelope::new(self.transport.self_id.clone(), None, msg, None)?;
        assert(env@.carries(self@.transport.self_id, None, msg@, None));
        assert(self@ =~= (ReplicatorView { last_announce: now, ..before@ }));
        let bytes = env.to_broadcast_bytes()?;
        let ghost sent = bytes@;
        let r = self.transport.bus.publish(SUBJECT_BROADCAST, None, bytes);
        proof {
            let published = before@.transport.published(SUBJECT_BROADCAST@, None, sent, r);
            assert(self@.transport =~= published);
            assert(self@ =~= (ReplicatorView {
                last_announce: now,
                transport: published,
                ..before@
            }));
        }
        r
    }

    /// Whether the node wants the atoms of a world.
    pub fn should_ingest(&self, world: &str) -> (r: bool)
        ensures
            r == self@.wants(world@),
    {
        any_matches(self.self_patterns.as_slice(), world)
    }

    /// Puts a batch into the queue; the oldest one goes if there are too many.
    fn enqueue(&mut self, from: PeerId, batch: AtomBatch)
        ensures
            final(self).transport == old(self).transport,
            final(self).policy == old(self).policy,
            final(self)@ == old(self)@.enqueued(from@, batch@),
    {
        let ghost before = self.incoming@;
        if self.incoming.len() >= self.max_inbox {
            if self.incoming.len() > 0 {
                let _ = self.incoming.remove(0);
                assert(lists::views(self.incoming@) =~= lists::views(before).drop_first());
            }
            self.dropped_inbox = self.dropped_inbox.wrapping_add(1);
        }
        self.incoming.push((from, batch));
    }

    /// Takes in an envelope that has arrived.
    pub fn take_in(&mut self, env: SwarmEnvelope, now: Instant) -> (r: Result<(), SwarmError>)
        ensures
            final(self).transport == old(self).transport,
            final(self).policy == old(self).policy,
            (final(self)@, r is Ok) == taken_in(old(self)@, old(self).policy, env@, now),
            r matches Err(e) ==> e@ == SwarmErrorView::Decode("decode swarm message"@),
    {
        let from = PeerId::new(env.from.as_str());
        if !self.replay.should_accept(&from, env.correlation_id.as_str(), now) {
            self.dropped_replay = self.dropped_replay.wrapping_add(1);
            return Ok(());
        }
        let msg = match env.decode_message() {
            Ok(msg) => msg,
            Err(e) => {
                return Err(e);
            },
        };
        if let SwarmMessage::AtomBatch(batch) = msg {
            if self.should_ingest(batch.world.text()) && self.policy.can_receive_world(
                batch.world.text(),
                &from,
            ) {
                self.enqueue(from, batch);
            }
        }
        Ok(())
    }

    /// Poll the inbox and enqueue any incoming AtomBatch that passes local subscription +
    /// policy checks.
    pub fn poll_inbox(&mut self, now: Instant) -> (r: Result<(), SwarmError>)
        ensures
            final(self).transport.bus == old(self).transport.bus,
            final(self).policy == old(self).policy,
            (final(self)@, r is Ok) == polled(old(self)@, old(self).policy, now),
            r matches Err(e) ==> e@ == SwarmErrorView::Decode("decode swarm message"@),
    {
        let ghost before = *self;
        loop
            invariant
                self.transport.bus == before.transport.bus,
                self.policy == before.policy,
                before == *old(self),
                polled(self@, before.policy, now) == polled(before@, before.policy, now),
            ensures
                self.transport.bus == before.transport.bus,
                self.policy == before.policy,
                (self@, true) == polled(before@, before.policy, now),
            decreases self@.transport.rx.len(),
        {
            let ghost full = *self;
            match self.transport.poll() {
                None => {
                    assert(self@ =~= full@);
                    break;
                },
                Some((_, env)) => {
                    assert(self@ =~= without_latest(full@));
                    self.take_in(env, now)?;
                },
            }
        }
        Ok(())
    }

    /// The oldest batch that waits to be taken in.
    pub fn poll_atom_batch(&mut self) -> (r: Option<(PeerId, AtomBatch)>)
        ensures
            final(self).transport == old(self).transport,
            final(self).policy == old(self).policy,
            old(self)@.incoming.len() == 0 ==> r is None && final(self)@ == old(self)@,
            old(self)@.incoming.len() > 0 ==> (r matches Some((from, batch)) && (from@, batch@)
                == old(self)@.incoming[0]) && final(self)@ == (ReplicatorView {
                incoming: old(self)@.incoming.drop_first(),
                ..old(self)@
            }),
    {
        let ghost before = self.incoming@;
        if self.incoming.len() == 0 {
            return None;
        }
        let r = self.incoming.remove(0);
        assert(lists::views(self.incoming@) =~= lists::views(before).drop_first());
        assert(lists::views(before)[0] == before[0].view());
        Some(r)
    }

    /// How many messages were dropped because they were seen before.
    pub fn dropped_replay(&self) -> (r: usize)
        ensures
            r == self@.dropped_replay,
    {
        self.dropped_replay
    }

    /// How many batches were dropped because too many waited.
    pub fn dropped_inbox(&self) -> (r: usize)
        ensures
            r == self@.dropped_inbox,
    {
        self.dropped_inbox
    }

    /// Sends a new atom to the nodes that subscribe to its world; that one of them cannot be
    /// reached is no failure.
    pub fn replicate_new_atom<F: Fn() -> bool>(&mut self, atom: Atom, now: Instant, allow: &F) -> (r:
        Result<(), SwarmError>)
        requires
            call_requires(*allow, ()),
        ensures
            r is Ok,
            final(self).policy == old(self).policy,
            exists|states: Seq<TransportView>| #[trigger]
                may_send_all(
                    *allow,
                    states,
                    old(self)@.receivers(old(self).policy, atom@.world, now),
                    atom_message(atom@),
                    now,
                ) && states[0] == old(self)@.transport && final(self)@ == (ReplicatorView {
                    transport: states.last(),
                    subscriptions: old(self)@.subscriptions.pruned(now),
                    ..old(self)@
                }),
    {
        let ghost before = *self;
        let ghost model = atom@;
        let world = atom.world().clone();
        let targets = self.subscriptions.nodes_subscribed_to_world(world.text(), now);
        let ghost p = |id: Seq<char>| id != before@.transport.self_id && before.policy.sends(
            model.world,
            id,
        );
        let ghost all = lists::views(targets@);
        let mut atoms: Vec<Atom> = Vec::new();
        atoms.push(atom);
        assert(lists::views(atoms@) =~= seq![model]);
        let batch = AtomBatch { world, atoms };
        let ghost msg = atom_message(model);
        let ghost mut states: Seq<TransportView> = seq![before@.transport];
        proof {
            assert(all.subrange(0, 0).filter(p) =~= Seq::empty()) by {
                reveal(Seq::filter);
            }
        }
        for i in 0..targets.len()
            invariant
                before == *old(self),
                call_requires(*allow, ()),
                all == lists::views(targets@),
                all == before@.subscriptions.pruned(now).subscribers(model.world),
                p == |id: Seq<char>|
                    id != before@.transport.self_id && before.policy.sends(model.world, id),
                batch@ == (BatchView { world: model.world, atoms: seq![model] }),
                msg == atom_message(model),
                self.policy == before.policy,
                may_send_all(
                    *allow,
                    states,
                    all.subrange(0, i as int).filter(p),
                    msg,
                    now,
                ),
                states[0] == before@.transport,
                self@ == (ReplicatorView {
                    transport: states.last(),
                    subscriptions: before@.subscriptions.pruned(now),
                    ..before@
                }),
                states.last().self_id == before@.transport.self_id,
        {
            let ghost key = all[i as int];
            let ghost so_far = all.subrange(0, i as int).filter(p);
            proof {
                let done = all.subrange(0, i as int);
                assert(all.subrange(0, i + 1) == done.push(key));
                done.lemma_filter_push(key, p);
                assert(key == targets@[i as int]@);
            }
            let node = targets[i].as_str();
            let peer = PeerId::new(node);
            let is_self: bool = text::same(node, self.transport.self_id.0.as_str());
            if !is_self && self.policy.can_send_world(batch.world.text(), &peer) {
                let ghost last = self.transport@;
                let outcome = self.transport.send_direct(
                    peer,
                    SwarmMessage::AtomBatch(batch.clone()),
                    now,
                    allow,
                );
                proof {
                    let grown = states.push(self.transport@);
                    assert(nats::may_send(
                        *allow,
                        last,
                        key,
                        msg,
                        now,
                        self.transport@,
                        outcome,
                    ));
                    assert forall|j: int| 0 <= j < so_far.push(key).len() implies may_send_step(
                        *allow,
                        grown[j],
                        #[trigger] so_far.push(key)[j],
                        msg,
                        now,
                        grown[j + 1],
                    ) by {
                        if j < so_far.len() {
                            assert(so_far.push(key)[j] == so_far[j]);
                            assert(grown[j] == states[j]);
                            assert(grown[j + 1] == states[j + 1]);
                        }
                    }
                    states = grown;
                }
            }
        }
        proof {
            assert(all.subrange(0, all.len() as int) =~= all);
            assert(all.filter(p) == before@.receivers(before.policy, model.world, now));
        }
        Ok(())
    }
}

/// The queue never grows beyond its bound.
pub proof fn queue_is_bounded(s: ReplicatorView, from: Seq<char>, batch: BatchView)
    requires
        s.max_inbox > 0,
        s.incoming.len() <= s.max_inbox,
    ensures
        s.enqueued(from, batch).incoming.len() <= s.max_inbox,
        s.enqueued(from, batch).incoming.last() == (from, batch),
{
}

/// Every batch that is admitted is queued or takes the place of one that is dropped: queued
/// and dropped batches together grow by one.
pub proof fn admitted_batch_is_queued_or_drops_one(
    s: ReplicatorView,
    from: Seq<char>,
    batch: BatchView,
)
    requires
        s.max_inbox > 0,
        s.dropped_inbox < usize::MAX,
    ensures
        ({
            let after = s.enqueued(from, batch);
            after.incoming.len() + after.dropped_inbox == s.incoming.len() + s.dropped_inbox + 1
        }),
{
}

/// How many of the envelopes that have arrived are admitted, the latest first, up to the first
/// that cannot be read.
pub open spec fn admitted<P: WorldAccessPolicy>(s: ReplicatorView, policy: P, now: Instant) -> nat
    decreases s.transport.rx.len(),
{
    if s.transport.rx.len() == 0 {
        0
    } else {
        let e = s.transport.rx.last().1;
        let (next, readable) = taken_in(without_latest(s), policy, e, now);
        let one: nat = if is_admitted(s, policy, e, now) {
            1
        } else {
            0
        };
        if readable {
            one + admitted(next, policy, now)
        } else {
            one
        }
    }
}

/// Whether an envelope is new and carries a batch of atoms of a world that the node wants and
/// the policy lets in.
pub open spec fn is_admitted<P: WorldAccessPolicy>(
    s: ReplicatorView,
    policy: P,
    e: CarrierView,
    now: Instant,
) -> bool {
    s.replay.is_new(e.from, e.correlation_id, now) && (SwarmMessage::read(e.payload) matches Some(
        (MessageView::AtomBatch(batch), _),
    ) && s.wants(batch.world) && policy.receives(batch.world, e.from))
}

/// Taking in all that has arrived makes the batches that are queued and those that were
/// dropped together more by the number admitted.
pub proof fn polling_queues_or_drops_all_admitted<P: WorldAccessPolicy>(
    s: ReplicatorView,
    policy: P,
    now: Instant,
)
    requires
        s.max_inbox > 0,
        s.dropped_inbox + admitted(s, policy, now) <= usize::MAX,
    ensures
        ({
            let after = polled(s, policy, now).0;
            after.incoming.len() + after.dropped_inbox == s.incoming.len() + s.dropped_inbox
                + admitted(s, policy, now)
        }),
    decreases s.transport.rx.len(),
{
    if s.transport.rx.len() > 0 {
        let e = s.transport.rx.last().1;
        let rest = without_latest(s);
        let (next, readable) = taken_in(rest, policy, e, now);
        if is_admitted(s, policy, e, now) {
            assert(is_admitted(rest, policy, e, now));
        }
        if readable {
            polling_queues_or_drops_all_admitted(next, policy, now);
        }
    }
}

/// Taking in all that has arrived keeps the queue within its bound.
pub proof fn polling_keeps_queue_bounded<P: WorldAccessPolicy>(
    s: ReplicatorView,
    policy: P,
    now: Instant,
)
    requires
        s.max_inbox > 0,
        s.incoming.len() <= s.max_inbox,
    ensures
        polled(s, policy, now).0.incoming.len() <= s.max_inbox,
    decreases s.transport.rx.len(),
{
    if s.transport.rx.len() > 0 {
        let (next, readable) = taken_in(without_latest(s), policy, s.transport.rx.last().1, now);
        if readable {
            polling_keeps_queue_bounded(next, policy, now);
        }
    }
}

/// An envelope that is taken in twice is queued once: the second time it is counted as seen.
pub proof fn duplicate_is_dropped<P: WorldAccessPolicy>(
    s: ReplicatorView,
    policy: P,
    e: CarrierView,
    now: Instant,
    again: Instant,
)
    requires
        s.replay.is_new(e.from, e.correlation_id, now),
        again.since(now) <= s.replay.window,
        s.replay.max_entries > 0,
    ensures
        ({
            let once = taken_in(s, policy, e, now).0;
            let twice = taken_in(once, policy, e, again).0;
            twice.incoming == once.incoming && twice.dropped_replay
                == once.dropped_replay.wrapping_add(1)
        }),
{
    crate::replication::repeated_message_is_not_new(
        s.replay,
        e.from,
        e.correlation_id,
        now,
        again,
    );
}

/// A batch of a world that the node does not want, or that the policy does not let in, is not
/// queued.
pub proof fn unwanted_worlds_stay_out<P: WorldAccessPolicy>(
    s: ReplicatorView,
    policy: P,
    e: CarrierView,
    now: Instant,
)
    requires
        SwarmMessage::read(e.payload) matches Some((MessageView::AtomBatch(b), _)) && !(s.wants(
            b.world,
        ) && policy.receives(b.world, e.from)),
    ensures
        taken_in(s, policy, e, now).0.incoming == s.incoming,
{
}

/// What sending a message to some nodes publishes goes to the inboxes of those nodes alone,
/// and to each at most once: the calls on the bus only grow, by at most one for each node.
pub proof fn only_receivers_are_sent_to<F: Fn() -> bool>(
    allow: F,
    states: Seq<TransportView>,
    receivers: Seq<Seq<char>>,
    msg: MessageView,
    now: Instant,
    k: int,
)
    requires
        may_send_all(allow, states, receivers, msg, now),
        states[0].calls.len() <= k < states.last().calls.len(),
    ensures
        states.last().calls.len() <= states[0].calls.len() + receivers.len(),
        states.last().calls.subrange(0, states[0].calls.len() as int) == states[0].calls,
        exists|i: int|
            0 <= i < receivers.len() && is_sent_to(
                states.last().calls[k],
                #[trigger] receivers[i],
            ),
    decreases receivers.len(),
{
    sending_grows_calls(allow, states, receivers, msg, now, receivers.len() as int, k);
    assert(states[receivers.len() as int] == states.last());
}

/// Whether a call publishes to the inbox of a node.
pub open spec fn is_sent_to(call: BusCall, to: Seq<char>) -> bool {
    call matches BusCall::Publish { subject, .. } && subject == nats::inbox_of(to)
}

proof fn sending_grows_calls<F: Fn() -> bool>(
    allow: F,
    states: Seq<TransportView>,
    receivers: Seq<Seq<char>>,
    msg: MessageView,
    now: Instant,
    n: int,
    k: int,
)
    requires
        may_send_all(allow, states, receivers, msg, now),
        0 <= n <= receivers.len(),
        0 <= k,
    ensures
        states[0].calls.len() <= states[n].calls.len() <= states[0].calls.len() + n,
        states[n].calls.subrange(0, states[0].calls.len() as int) == states[0].calls,
        states[0].calls.len() <= k < states[n].calls.len() ==> exists|i: int|
            0 <= i < receivers.len() && is_sent_to(states[n].calls[k], #[trigger] receivers[i]),
    decreases n,
{
    let first = states[0].calls;
    if n > 0 {
        sending_grows_calls(allow, states, receivers, msg, now, n - 1, k);
        let (before, after) = (states[n - 1], states[n]);
        let to = receivers[n - 1];
        assert(states[n - 1 + 1] == after);
        assert(may_send_step(allow, before, to, msg, now, after));
        let r = choose|r: Result<(), SwarmError>| #[trigger]
            nats::may_send(allow, before, to, msg, now, after, r);
        assert(nats::may_send(allow, before, to, msg, now, after, r));
        if after.calls != before.calls {
            let call = after.calls.last();
            assert(after.calls == before.calls.push(call));
            assert(is_sent_to(call, to));
            assert(after.calls.subrange(0, first.len() as int) =~= before.calls.subrange(
                0,
                first.len() as int,
            ));
            if k < before.calls.len() {
                assert(after.calls[k] == before.calls[k]);
            }
        }
    } else {
        assert(first.subrange(0, first.len() as int) =~= first);
    }
}

/// Only nodes that subscribe to a world, and never the node itself, get its atoms.
pub proof fn only_subscribers_receive<P: WorldAccessPolicy>(
    s: ReplicatorView,
    policy: P,
    world: Seq<char>,
    now: Instant,
    id: Seq<char>,
)
    requires
        s.receivers(policy, world, now).contains(id),
    ensures
        id != s.transport.self_id,
        policy.sends(world, id),
        s.subscriptions.pruned(now).ids.contains(id),
        s.subscriptions.pruned(now).records[id].wants(world),
{
    let t = s.subscriptions.pruned(now);
    let p = |id: Seq<char>| id != s.transport.self_id && policy.sends(world, id);
    let q = |id: Seq<char>| t.records[id].wants(world);
    let found = t.subscribers(world);
    let i = choose|i: int| 0 <= i < found.filter(p).len() && found.filter(p)[i] == id;
    found.lemma_filter_pred(p, i);
    found.lemma_filter_contains_rev(p, id);
    let j = choose|j: int| 0 <= j < t.ids.filter(q).len() && t.ids.filter(q)[j] == id;
    t.ids.lemma_filter_pred(q, j);
    t.ids.lemma_filter_contains_rev(q, id);
}

/// What a node says to all that it subscribes to is what the others know of it.
pub proof fn announced_patterns_are_known(
    s: ReplicatorView,
    bytes: Seq<u8>,
    e: CarrierView,
    from: Seq<char>,
    patterns: Seq<Seq<char>>,
    now: Instant,
)
    requires
        e.carries(from, None, MessageView::SubscriptionIntent { patterns }, None),
        message::carrier_unpacked(bytes) == Ok::<CarrierView, Seq<char>>(e),
        from != s.transport.self_id,
    ensures
        s.after_hearing(bytes, now).subscriptions == s.subscriptions.with_record(
            from,
            RecordView { patterns, last_seen: now },
        ),
{
    message::envelope_keeps_message(
        e,
        from,
        None,
        MessageView::SubscriptionIntent { patterns },
        None,
    );
}

/// An atom that is sent to a node that wants its world arrives, and is queued when the inbox is
/// polled, if the message is new and the policy lets the world in.
pub proof fn sent_atom_is_queued<P: WorldAccessPolicy>(
    s: ReplicatorView,
    policy: P,
    e: CarrierView,
    from: Seq<char>,
    to: Seq<char>,
    atom: AtomView,
    now: Instant,
)
    requires
        e.carries(from, Some(to), atom_message(atom), None),
        SwarmEnvelope::fits(e),
        s.transport.rx.len() == 0,
        s.wants(atom.world),
        policy.receives(atom.world, from),
        s.replay.is_new(from, e.correlation_id, now),
    ensures
        ({
            let delivered = ReplicatorView {
                transport: s.transport.delivered(SwarmEnvelope::packed(e), None),
                ..s
            };
            let (after, readable) = polled(delivered, policy, now);
            readable && after.incoming.last() == (
                from,
                BatchView { world: atom.world, atoms: seq![atom] },
            )
        }),
{
    let t = ReplicatorView {
        transport: s.transport.delivered(SwarmEnvelope::packed(e), None),
        ..s
    };
    message::envelope_arrives(e);
    message::envelope_keeps_message(e, from, Some(to), atom_message(atom), None);
    assert(t.transport.rx.last().1 == e);
    assert(without_latest(t).transport.rx =~= s.transport.rx);
    let next = taken_in(without_latest(t), policy, e, now).0;
    assert(next.transport.rx.len() == 0);
    assert(polled(next, policy, now) == (next, true));
}

}
