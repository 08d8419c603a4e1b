use std::cell::RefCell;
use std::rc::Rc;

use dwbase::atom::{Atom, AtomId, AtomKind, Importance, LinkKind, Timestamp, WorkerKey, WorldKey};
use dwbase::bloom::{AtomBatch, BloomFilter, BloomOffer, MissingRequest};
use dwbase::clock::{Duration, Instant};
use dwbase::ids::{new_batch_id, new_correlation_id};
use dwbase::message::{millis_of, now_ms, SwarmEnvelope, SwarmMessage};
use dwbase::model::{SummaryWindow, TimeWindow};
use dwbase::nats::{
    inbox_subject, NatsSwarmTransport, RequestError, RequestStep, SwarmBus, SUBJECT_BROADCAST,
};
use dwbase::replication::{matches_world, AllowAllWorldAccess, ReplayGuard, WorldAccessPolicy};
use dwbase::replicator::Replicator;
use dwbase::single::Single;
use dwbase::subscriptions::SubscriptionTable;
use dwbase::summary::SummaryAdvert;
use dwbase::swarm::{PeerId, SwarmError};
use dwbase::wire::{from_bytes, to_bytes, Blob, Many, Maybe};
use dwbase::world_events::{
    decode_event_batch, encode_event_batch, world_events_subject, AtomEvent, AtomEventBatch,
    WorldEventBroadcaster,
};

type Sent = (String, Option<String>, Vec<u8>);

/// A bus that keeps what is published.
#[derive(Clone, Default)]
struct MemoryBus {
    sent: Rc<RefCell<Vec<Sent>>>,
    subjects: Rc<RefCell<Vec<String>>>,
    broken: Rc<RefCell<bool>>,
}

impl MemoryBus {
    /// What was published on a subject since the last call.
    fn take(&self, subject: &str) -> Vec<(Option<String>, Vec<u8>)> {
        let mut taken = Vec::new();
        self.sent.borrow_mut().retain(|(s, reply, bytes)| {
            if s == subject {
                taken.push((reply.clone(), bytes.clone()));
            }
            s != subject
        });
        taken
    }
}

impl SwarmBus for MemoryBus {
    fn publish(
        &mut self,
        subject: &str,
        reply_to: Option<&str>,
        bytes: Vec<u8>,
    ) -> Result<(), SwarmError> {
        if *self.broken.borrow() {
            return Err(SwarmError::Io("broken".into()));
        }
        self.sent.borrow_mut().push((
            subject.to_string(),
            reply_to.map(|s| s.to_string()),
            bytes,
        ));
        Ok(())
    }

    fn subscribe(&mut self, subject: &str) -> Result<(), SwarmError> {
        if *self.broken.borrow() {
            return Err(SwarmError::Io("broken".into()));
        }
        self.subjects.borrow_mut().push(subject.to_string());
        Ok(())
    }
}

const START: Instant = Instant {
    nanos: 1_000_000_000_000,
};

fn later(millis: u64) -> Instant {
    Instant {
        nanos: START.nanos + millis * 1_000_000,
    }
}

fn allow() -> bool {
    true
}

fn deny() -> bool {
    false
}

fn half() -> Importance {
    Importance::clamped(Single::from_bits(0.5f32.to_bits()))
}

fn sample_atom(world: &str, id: &str) -> Atom {
    Atom::builder(
        AtomId::new(id),
        WorldKey::new(world),
        WorkerKey::new("w"),
        AtomKind::Observation,
        Timestamp::new("2024-01-01T00:00:00Z"),
        half(),
        r#"{"x":1}"#,
    )
    .build()
}

fn rich_atom(world: &str, id: &str) -> Atom {
    Atom::builder(
        AtomId::new(id),
        WorldKey::new(world),
        WorkerKey::new("w\u{e4}"),
        AtomKind::Message,
        Timestamp::new("2024-01-01T00:00:00Z"),
        half(),
        "\u{1f600}",
    )
    .vector(Some(vec![
        Single::from_bits(f32::NAN.to_bits()),
        Single::from_bits((-0.0f32).to_bits()),
    ]))
    .add_flag("f")
    .add_label("a")
    .add_label("b")
    .add_typed_link(AtomId::new("x"), LinkKind::Contradicts)
    .build()
}

fn replicator(bus: &MemoryBus, id: &str, patterns: Vec<String>) -> Replicator<MemoryBus, AllowAllWorldAccess> {
    let transport = NatsSwarmTransport::new(bus.clone(), PeerId::new(id)).unwrap();
    Replicator::new(transport, patterns, Duration::from_secs(30), START).unwrap()
}

/// Hands what was published to the nodes it is for.
fn carry<P: WorldAccessPolicy>(bus: &MemoryBus, nodes: &mut [&mut Replicator<MemoryBus, P>]) {
    for (_, bytes) in bus.take(SUBJECT_BROADCAST) {
        for node in nodes.iter_mut() {
            node.hear(&bytes, START);
        }
    }
    for node in nodes.iter_mut() {
        let inbox = inbox_subject(&node.transport.self_id.0);
        for (reply, bytes) in bus.take(&inbox) {
            node.transport.deliver(&bytes, reply);
        }
    }
}

#[test]
fn only_subscribed_nodes_receive_atoms() {
    let bus = MemoryBus::default();
    let mut a = replicator(&bus, "node-a", vec![]);
    let mut b = replicator(&bus, "node-b", vec!["world-x".into()]);
    let mut c = replicator(&bus, "node-c", vec![]);

    // B broadcasts subscription.
    b.announce(START).unwrap();
    carry(&bus, &mut [&mut a, &mut b, &mut c]);

    // Replicate atom in world-x; only node-b should receive.
    a.replicate_new_atom(sample_atom("world-x", "a1"), START, &allow)
        .unwrap();
    carry(&bus, &mut [&mut a, &mut b, &mut c]);

    b.poll_inbox(START).unwrap();
    c.poll_inbox(START).unwrap();
    let (from, batch) = b.poll_atom_batch().expect("node-b should receive atom");
    assert_eq!(from, PeerId::new("node-a"));
    assert_eq!(batch.atoms, vec![sample_atom("world-x", "a1")]);
    assert!(
        c.poll_atom_batch().is_none(),
        "node-c should not receive atom"
    );
}

struct DenyAll;

impl WorldAccessPolicy for DenyAll {
    fn can_send_world(&self, _world: &str, _to: &PeerId) -> bool {
        true
    }

    fn can_receive_world(&self, _world: &str, _from: &PeerId) -> bool {
        false
    }
}

struct SendNothing;

impl WorldAccessPolicy for SendNothing {
    fn can_send_world(&self, _world: &str, _to: &PeerId) -> bool {
        false
    }

    fn can_receive_world(&self, _world: &str, _from: &PeerId) -> bool {
        true
    }
}

#[test]
fn receiver_policy_can_drop_worlds() {
    let bus = MemoryBus::default();
    let mut a = replicator(&bus, "node-a", vec![]);
    let transport_b = NatsSwarmTransport::new(bus.clone(), PeerId::new("node-b")).unwrap();
    let mut b = Replicator::with_policy(
        transport_b,
        vec!["world-x".into()],
        Duration::from_secs(30),
        DenyAll,
        START,
    )
    .unwrap();

    b.announce(START).unwrap();
    carry(&bus, &mut [&mut a]);
    a.replicate_new_atom(sample_atom("world-x", "a1"), START, &allow)
        .unwrap();
    carry(&bus, &mut [&mut b]);
    assert_eq!(b.transport.rx.len(), 1);

    b.poll_inbox(START).unwrap();
    assert!(b.poll_atom_batch().is_none(), "policy should drop batch");
}

#[test]
fn sender_policy_can_hold_worlds_back() {
    let bus = MemoryBus::default();
    let transport = NatsSwarmTransport::new(bus.clone(), PeerId::new("node-a")).unwrap();
    let mut a = Replicator::with_policy(
        transport,
        vec![],
        Duration::from_secs(30),
        SendNothing,
        START,
    )
    .unwrap();
    a.subscriptions
        .upsert("node-b".into(), vec!["*".into()], START);
    a.replicate_new_atom(sample_atom("w", "a1"), START, &allow)
        .unwrap();
    assert!(bus.take(&inbox_subject("node-b")).is_empty());
}

#[test]
fn subscriptions_persist_and_reload() {
    let bus = MemoryBus::default();
    let transport_a = NatsSwarmTransport::new(bus.clone(), PeerId::new("node-a")).unwrap();
    let mut rep_a = Replicator::with_policy_and_state(
        transport_a,
        vec!["*".into()],
        Duration::from_secs(30),
        AllowAllWorldAccess,
        None,
        16,
        Duration::from_secs(60),
        START,
        5_000,
    )
    .unwrap();
    rep_a
        .subscriptions
        .upsert("node-b".into(), vec!["world-x".into()], START);
    let saved = rep_a.subscriptions.to_save(later(1_500), 6_500);
    assert_eq!(saved.len(), 1);
    assert_eq!(saved[0].1.last_seen_ms, 5_000);
    drop(rep_a);

    let transport_b = NatsSwarmTransport::new(bus.clone(), PeerId::new("node-a")).unwrap();
    let mut rep_b = Replicator::with_policy_and_state(
        transport_b,
        vec!["*".into()],
        Duration::from_secs(30),
        AllowAllWorldAccess,
        Some(saved),
        16,
        Duration::from_secs(60),
        later(2_000),
        7_000,
    )
    .unwrap();
    let nodes = rep_b
        .subscriptions
        .nodes_subscribed_to_world("world-x", later(2_000));
    assert!(
        nodes.contains(&"node-b".into()),
        "subscription persisted across restart"
    );
}

#[test]
fn stale_subscriptions_are_forgotten() {
    let mut table = SubscriptionTable::new(Duration::from_secs(30));
    table.upsert("a".into(), vec!["w*".into()], START);
    table.upsert("b".into(), vec!["v".into()], later(10_000));
    assert!(!table.prune(later(30_000)));
    assert_eq!(table.nodes_subscribed_to_world("w1", later(30_000)), ["a"]);
    assert!(table.prune(later(30_001)));
    let snapshot = table.snapshot(later(30_001));
    assert_eq!(snapshot, vec![("b".to_string(), vec!["v".to_string()])]);
    let saved = table.to_save(later(30_001), 1_000_000);
    let gone = SubscriptionTable::restore(Duration::from_secs(30), saved, later(90_000), 2_000_000);
    let mut gone = gone;
    assert!(gone.snapshot(later(90_000)).is_empty());
    let mut usual = SubscriptionTable::default();
    usual.upsert("c".into(), vec!["*".into()], START);
    assert_eq!(usual.nodes_subscribed_to_world("any", later(30_000)).len(), 1);
    assert!(usual.nodes_subscribed_to_world("any", later(30_001)).is_empty());
}

fn bounded(bus: &MemoryBus, pattern: &str, max_inbox: usize) -> Replicator<MemoryBus, AllowAllWorldAccess> {
    let transport = NatsSwarmTransport::new(bus.clone(), PeerId::new("node-rx")).unwrap();
    Replicator::with_policy_and_state(
        transport,
        vec![pattern.into()],
        Duration::from_secs(30),
        AllowAllWorldAccess,
        None,
        max_inbox,
        Duration::from_secs(300),
        START,
        0,
    )
    .unwrap()
}

#[test]
fn duplicate_batches_are_dropped() {
    let mut bus = MemoryBus::default();
    let inbox = inbox_subject("node-rx");
    let mut rep = bounded(&bus, "world-x", 8);

    let batch = AtomBatch {
        world: WorldKey::new("world-x"),
        atoms: vec![sample_atom("world-x", "a1")],
    };
    let mut env = SwarmEnvelope::new(
        PeerId::new("node-tx"),
        Some(PeerId::new("node-rx")),
        SwarmMessage::AtomBatch(batch),
        None,
    )
    .unwrap();
    env.correlation_id = "dup-1".into();
    let bytes = env.to_broadcast_bytes().unwrap();
    bus.publish(&inbox, None, bytes.clone()).unwrap();
    bus.publish(&inbox, None, bytes).unwrap();
    carry(&bus, &mut [&mut rep]);

    rep.poll_inbox(START).unwrap();
    rep.poll_inbox(START).unwrap();
    let first = rep.poll_atom_batch();
    let second = rep.poll_atom_batch();
    assert!(first.is_some(), "first batch should be enqueued");
    assert!(second.is_none(), "duplicate should be dropped");
    assert!(rep.dropped_replay() >= 1, "replay counter increments");
}

#[test]
fn inbox_is_bounded() {
    let mut bus = MemoryBus::default();
    let inbox = inbox_subject("node-rx");
    let mut rep = bounded(&bus, "*", 1);

    for idx in 0..2 {
        let batch = AtomBatch {
            world: WorldKey::new("world-x"),
            atoms: vec![sample_atom("world-x", &format!("a{idx}"))],
        };
        let mut env = SwarmEnvelope::new(
            PeerId::new("node-tx"),
            Some(PeerId::new("node-rx")),
            SwarmMessage::AtomBatch(batch),
            None,
        )
        .unwrap();
        env.correlation_id = format!("cid-{idx}");
        let bytes = env.to_broadcast_bytes().unwrap();
        bus.publish(&inbox, None, bytes).unwrap();
    }
    carry(&bus, &mut [&mut rep]);

    rep.poll_inbox(START).unwrap();
    let first = rep.poll_atom_batch();
    let second = rep.poll_atom_batch();
    assert!(first.is_some());
    assert!(second.is_none(), "bounded inbox drops overflow");
    assert_eq!(rep.dropped_inbox(), 1, "overflow accounted");
}

#[test]
fn unreadable_messages_stop_the_poll() {
    let bus = MemoryBus::default();
    let mut rep = bounded(&bus, "*", 1);
    let mut env = SwarmEnvelope::new(
        PeerId::new("tx"),
        None,
        SwarmMessage::Ping { nonce: 1 },
        None,
    )
    .unwrap();
    env.payload = vec![99];
    assert!(matches!(env.decode_message(), Err(SwarmError::Decode(_))));
    rep.transport.deliver(&env.to_inbox_bytes(), None);
    rep.transport.deliver(b"noise", None);
    assert_eq!(rep.transport.rx.len(), 1);
    assert!(matches!(
        rep.poll_inbox(START),
        Err(SwarmError::Decode(_))
    ));
    assert!(rep.poll_inbox(START).is_ok());
}

#[test]
fn replay_guard_forgets_with_time_and_number() {
    let mut guard = ReplayGuard::new(Duration::from_secs(1), 2);
    let (a, b) = (PeerId::new("a"), PeerId::new("b"));
    assert!(guard.should_accept(&a, "1", later(0)));
    assert!(!guard.should_accept(&a, "1", later(1_000)));
    assert!(guard.should_accept(&b, "1", later(0)));
    assert!(guard.should_accept(&a, "1", later(1_001)));
    assert!(guard.should_accept(&a, "2", later(1_002)));
    assert!(guard.should_accept(&a, "3", later(1_003)));
    assert!(guard.should_accept(&a, "1", later(1_004)));
    assert!(!guard.should_accept(&a, "3", later(1_005)));
}

#[test]
fn patterns_match_worlds() {
    assert!(matches_world("*", "anything"));
    assert!(matches_world("tenant:acme:*", "tenant:acme:x"));
    assert!(matches_world("tenant:acme:*", "tenant:acme"));
    assert!(matches_world("tenant*", "tenant:acme"));
    assert!(!matches_world("tenant*", "other"));
    assert!(matches_world("w", "w"));
    assert!(!matches_world("w", "w1"));
    assert!(!matches_world("", "w"));
    assert!(matches_world(":*", "w"));
}

#[test]
fn announcements_are_spaced() {
    let bus = MemoryBus::default();
    let mut rep = replicator(&bus, "n", vec!["w".into()]);
    rep.announce(START).unwrap();
    assert_eq!(bus.take(SUBJECT_BROADCAST).len(), 1);
    rep.announce(later(14_999)).unwrap();
    assert!(bus.take(SUBJECT_BROADCAST).is_empty());
    rep.announce(later(15_000)).unwrap();
    let sent = bus.take(SUBJECT_BROADCAST);
    assert_eq!(sent.len(), 1);
    assert!(!rep.hear(&sent[0].1, START), "own messages are ignored");
    assert!(!rep.hear(b"noise", START));
}

#[test]
fn ping_and_summary_advert_roundtrip() {
    let bus = MemoryBus::default();
    let mut a = NatsSwarmTransport::new(bus.clone(), PeerId::new("a")).unwrap();
    let mut b = NatsSwarmTransport::new(bus.clone(), PeerId::new("b")).unwrap();

    a.send_direct(
        PeerId::new("b"),
        SwarmMessage::Ping { nonce: 1 },
        START,
        &allow,
    )
    .unwrap();
    for (reply, bytes) in bus.take(&inbox_subject("b")) {
        b.deliver(&bytes, reply);
    }
    let (_reply_to, env) = b.poll().expect("b should receive ping");
    assert_eq!(env.kind, "Ping");

    // Request/reply summary advert
    let advert = SummaryAdvert::new(
        WorldKey::new("w1"),
        vec![SummaryWindow {
            start_ms: 0,
            end_ms: 1000,
        }],
        "d1",
    );
    a.send_direct(
        PeerId::new("b"),
        SwarmMessage::SummaryAdvert(advert.clone()),
        START,
        &allow,
    )
    .unwrap();
    for (reply, bytes) in bus.take(&inbox_subject("b")) {
        b.deliver(&bytes, reply);
    }
    let (_r, env2) = b.poll().expect("b should receive advert");
    match env2.decode_message().unwrap() {
        SwarmMessage::SummaryAdvert(a) => assert_eq!(a.digest, advert.digest),
        other => panic!("unexpected message {other:?}"),
    }

    // Request/reply: b answers when asked.
    let mut pending = a
        .request(
            PeerId::new("b"),
            SwarmMessage::Ping { nonce: 9 },
            Duration::from_millis(500),
            START,
        )
        .unwrap();
    assert!(bus.subjects.borrow().contains(&pending.reply_subject));
    assert!(matches!(
        a.poll_reply(&mut pending, START),
        RequestStep::Wait(_)
    ));
    for (reply, bytes) in bus.take(&inbox_subject("b")) {
        b.deliver(&bytes, reply);
    }
    let (reply_to, req) = b.poll().expect("b should receive the request");
    assert_eq!(reply_to, pending.reply_subject);
    b.respond(
        &reply_to,
        SwarmMessage::Ping { nonce: 42 },
        req.correlation_id.clone(),
    )
    .unwrap();
    // A reply is not read in the format of messages for all nodes.
    let other = SwarmEnvelope::new(PeerId::new("b"), None, SwarmMessage::Ping { nonce: 1 }, None);
    pending.deliver(&other.unwrap().to_broadcast_bytes().unwrap());
    assert!(matches!(
        a.poll_reply(&mut pending, START),
        RequestStep::Wait(_)
    ));
    for (_, bytes) in bus.take(&pending.reply_subject) {
        pending.deliver(&bytes);
    }
    match a.poll_reply(&mut pending, later(499)) {
        RequestStep::Reply(resp) => {
            assert_eq!(resp.kind, "Ping");
            assert_eq!(resp.correlation_id, req.correlation_id);
        }
        other => panic!("unexpected step {other:?}"),
    }
}

#[test]
fn requests_time_out_and_rest() {
    let bus = MemoryBus::default();
    let mut a = NatsSwarmTransport::new(bus.clone(), PeerId::new("a")).unwrap();
    let mut pending = a
        .request(
            PeerId::new("b"),
            SwarmMessage::Ping { nonce: 9 },
            Duration::from_millis(500),
            START,
        )
        .unwrap();
    match a.poll_reply(&mut pending, later(500)) {
        RequestStep::Failed(RequestError::Timeout) => {}
        other => panic!("unexpected step {other:?}"),
    }
    assert!(a.is_backing_off(later(699)));
    assert!(!a.is_backing_off(later(700)));
    let refused = a
        .request(
            PeerId::new("b"),
            SwarmMessage::Ping { nonce: 9 },
            Duration::from_millis(500),
            later(600),
        )
        .unwrap_err();
    assert_eq!(refused.message(), "backing off");
    assert_eq!(RequestError::Timeout.message(), "request timeout");
}

#[test]
fn failures_and_limits_hold_messages_back() {
    let bus = MemoryBus::default();
    let mut a = NatsSwarmTransport::new(bus.clone(), PeerId::new("a")).unwrap();
    let ping = || SwarmMessage::Ping { nonce: 1 };
    a.send_direct(PeerId::new("b"), ping(), START, &deny).unwrap();
    assert!(bus.take(&inbox_subject("b")).is_empty());
    *bus.broken.borrow_mut() = true;
    assert_eq!(
        a.send_direct(PeerId::new("b"), ping(), START, &allow),
        Err(SwarmError::Io("broken".into()))
    );
    *bus.broken.borrow_mut() = false;
    a.send_direct(PeerId::new("b"), ping(), later(199), &allow).unwrap();
    assert!(bus.take(&inbox_subject("b")).is_empty());
    a.send_direct(PeerId::new("b"), ping(), later(200), &allow).unwrap();
    assert_eq!(bus.take(&inbox_subject("b")).len(), 1);
    *bus.broken.borrow_mut() = true;
    assert!(NatsSwarmTransport::new(bus.clone(), PeerId::new("c")).is_err());
    let err = a
        .request(
            PeerId::new("b"),
            ping(),
            Duration::from_millis(1),
            later(400),
        )
        .unwrap_err();
    assert_eq!(err.message(), "io error: broken");
}

fn all_messages() -> Vec<SwarmMessage> {
    vec![
        SwarmMessage::Ping { nonce: u64::MAX },
        SwarmMessage::SubscriptionIntent {
            patterns: vec!["*".into(), "".into()],
        },
        SwarmMessage::SummaryAdvert(SummaryAdvert::new(
            WorldKey::new("w"),
            vec![SummaryWindow::new(i64::MIN, i64::MAX), SummaryWindow::new(-1, 1)],
            "d",
        )),
        SwarmMessage::BloomOffer(BloomOffer {
            world: WorldKey::new("w"),
            window: TimeWindow::new(-5, 70_000),
            bloom: BloomFilter::from_ids(&[AtomId::new("a")], 300, 3),
        }),
        SwarmMessage::MissingRequest(MissingRequest {
            world: WorldKey::new("w"),
            atom_ids: vec![AtomId::new("a"), AtomId::new("b")],
        }),
        SwarmMessage::AtomBatch(AtomBatch {
            world: WorldKey::new("w"),
            atoms: vec![sample_atom("w", "a"), rich_atom("w", "b")],
        }),
    ]
}

#[test]
fn messages_come_back_as_they_were() {
    let names = [
        "Ping",
        "SubscriptionIntent",
        "SummaryAdvert",
        "BloomOffer",
        "MissingRequest",
        "AtomBatch",
    ];
    for (message, name) in all_messages().into_iter().zip(names) {
        let shown = format!("{message:?}");
        let env = SwarmEnvelope::new(
            PeerId::new("from"),
            Some(PeerId::new("to")),
            message,
            Some("reply".into()),
        )
        .unwrap();
        assert_eq!(env.kind, name);
        assert_eq!(env.correlation_id.len(), 32);
        let arrived = SwarmEnvelope::from_inbox_bytes(&env.to_inbox_bytes()).unwrap();
        assert_eq!(arrived, env);
        let broadcast = SwarmEnvelope::from_inbox_bytes(&env.to_broadcast_bytes().unwrap());
        assert_eq!(broadcast.as_ref(), Some(&env));
        assert_eq!(format!("{:?}", arrived.decode_message().unwrap()), shown);
        let (from, heard) = SwarmEnvelope::hear(&env.to_broadcast_bytes().unwrap()).unwrap();
        assert_eq!(from, "from");
        assert_eq!(format!("{heard:?}"), shown);
    }
}

#[test]
fn messages_are_laid_out_field_by_field() {
    let config = bincode::config::standard();
    let ping = to_bytes(&SwarmMessage::Ping { nonce: 70_000 });
    let expected = bincode::serde::encode_to_vec((0u32, 70_000u64), config).unwrap();
    assert_eq!(ping, expected);
    let advert = SwarmMessage::SummaryAdvert(SummaryAdvert::new(
        WorldKey::new("w"),
        vec![SummaryWindow::new(-3, 300)],
        "d",
    ));
    let expected =
        bincode::serde::encode_to_vec((2u32, ("w", vec![(-3i64, 300i64)], "d")), config).unwrap();
    assert_eq!(to_bytes(&advert), expected);
    let batch = SwarmMessage::AtomBatch(AtomBatch {
        world: WorldKey::new("w"),
        atoms: vec![sample_atom("w", "a")],
    });
    let atom = (
        ("a", "w", "w", 0u32, "2024-01-01T00:00:00Z", 0.5f32),
        (
            r#"{"x":1}"#,
            None::<Vec<f32>>,
            Vec::<String>::new(),
            Vec::<String>::new(),
            Vec::<(String, u32)>::new(),
        ),
    );
    let expected = bincode::serde::encode_to_vec((5u32, ("w", vec![atom])), config).unwrap();
    assert_eq!(to_bytes(&batch), expected);
    assert!(from_bytes::<SwarmMessage>(&[6]).is_none());
    assert!(from_bytes::<SwarmMessage>(&[]).is_none());
    assert!(from_bytes::<SwarmMessage>(&[253, 0, 0, 0, 0, 0, 0, 0, 0, 1]).is_none());
}

#[test]
fn every_message_is_laid_out_as_its_fields() {
    let config = bincode::config::standard();
    let intent = SwarmMessage::SubscriptionIntent {
        patterns: vec!["a*".into(), String::new(), "\u{e4}".into()],
    };
    let expected =
        bincode::serde::encode_to_vec((1u32, vec!["a*", "", "\u{e4}"]), config).unwrap();
    assert_eq!(to_bytes(&intent), expected);
    let request = SwarmMessage::MissingRequest(MissingRequest {
        world: WorldKey::new("w"),
        atom_ids: vec![AtomId::new("a"), AtomId::new("b")],
    });
    let expected = bincode::serde::encode_to_vec((4u32, ("w", vec!["a", "b"])), config).unwrap();
    assert_eq!(to_bytes(&request), expected);
    let bits: Vec<u8> = (0..40).collect();
    let offer = SwarmMessage::BloomOffer(BloomOffer {
        world: WorldKey::new("w"),
        window: TimeWindow::new(i64::MIN, i64::MAX),
        bloom: BloomFilter::from_parts(bits.clone(), 3, 300).unwrap(),
    });
    let fields = (3u32, ("w", (i64::MIN, i64::MAX), (bits, 3u32, 300u32)));
    let expected = bincode::serde::encode_to_vec(fields, config).unwrap();
    assert_eq!(to_bytes(&offer), expected);
    let rich = rich_atom("w", "b");
    let bits: Option<Vec<f32>> = rich
        .vector()
        .map(|v| v.iter().map(|x| f32::from_bits(x.to_bits())).collect());
    assert!(bits.is_some() && !rich.links().is_empty());
    let kind = match rich.kind() {
        AtomKind::Observation => 0u32,
        AtomKind::Reflection => 1,
        AtomKind::Plan => 2,
        AtomKind::Action => 3,
        AtomKind::Message => 4,
    };
    let links: Vec<(String, u32)> = rich
        .links()
        .iter()
        .map(|l| {
            let kind = match l.kind {
                LinkKind::Supersedes => 0,
                LinkKind::References => 1,
                LinkKind::Confirms => 2,
                LinkKind::Contradicts => 3,
            };
            (l.target.0.clone(), kind)
        })
        .collect();
    let fields = (
        (&rich.id().0, &rich.world().0, &rich.worker().0, kind, &rich.timestamp().0),
        f32::from_bits(rich.importance().get().to_bits()),
        (rich.payload_json(), bits, rich.flags(), rich.labels(), links),
    );
    let expected = bincode::serde::encode_to_vec((5u32, ("w", vec![fields])), config).unwrap();
    let batch = SwarmMessage::AtomBatch(AtomBatch {
        world: WorldKey::new("w"),
        atoms: vec![rich],
    });
    assert_eq!(to_bytes(&batch), expected);
    for to in [None, Some(PeerId::new("to"))] {
        let env = SwarmEnvelope::new(PeerId::new("from"), to.clone(), SwarmMessage::Ping { nonce: 1 }, None);
        let env = env.unwrap();
        let to = to.map(|p| p.0);
        let fields = (
            (&env.kind, &env.from, to, &env.correlation_id),
            (&env.reply_to, &env.payload, env.sent_at_ms),
        );
        let expected = bincode::serde::encode_to_vec(fields, config).unwrap();
        assert_eq!(env.to_inbox_bytes(), expected);
    }
}

#[test]
fn numbers_and_texts_take_their_bytes() {
    for n in [0u64, 250, 251, 65_535, 65_536, u32::MAX as u64, u32::MAX as u64 + 1, u64::MAX] {
        let bytes = to_bytes(&n);
        assert_eq!(from_bytes::<u64>(&bytes), Some(n));
        let signed = n as i64;
        assert_eq!(from_bytes::<i64>(&to_bytes(&signed)), Some(signed));
    }
    assert_eq!(to_bytes(&250u64), [250]);
    assert_eq!(to_bytes(&251u64), [251, 251, 0]);
    assert_eq!(to_bytes(&65_536u64), [252, 0, 0, 1, 0]);
    assert_eq!(to_bytes(&u64::MAX)[0], 253);
    assert_eq!(to_bytes(&(-1i64)), [1]);
    assert_eq!(to_bytes(&"h\u{e4}".to_string()), [3, b'h', 0xc3, 0xa4]);
    assert_eq!(from_bytes::<String>(&[2, 0xc3]), None);
    assert_eq!(from_bytes::<String>(&[2, 0xff, 0xff]), None);
    let beyond = [253, 255, 255, 255, 255, 255, 255, 255, 255];
    assert_eq!(from_bytes::<String>(&beyond), None);
    assert!(from_bytes::<Blob>(&beyond).is_none());
    assert!(from_bytes::<Many<String>>(&beyond).is_none());
    assert!(from_bytes::<Maybe<u64>>(&[2, 0]).is_none());
    let some = from_bytes::<Maybe<u64>>(&[1, 7]).unwrap();
    assert_eq!(some.0, Some(7));
    let many = from_bytes::<Many<u64>>(&[2, 7, 8, 9]).unwrap();
    assert_eq!(many.0, [7, 8]);
}

#[test]
fn encode_decode_roundtrip() {
    let batch = AtomEventBatch {
        batch_id: "b1".into(),
        events: vec![AtomEvent {
            world_key: "w".into(),
            from_node: "n".into(),
            sent_at_ms: 1,
            atom: sample_atom("w", "a1"),
        }],
    };
    let bytes = encode_event_batch(&batch).unwrap();
    let decoded = decode_event_batch(&bytes).unwrap();
    assert_eq!(decoded.batch_id, "b1");
    assert_eq!(decoded.events.len(), 1);
    assert_eq!(decoded.events[0].atom.id().0, "a1");
    assert!(matches!(
        decode_event_batch(&[5]),
        Err(SwarmError::Decode(_))
    ));
}

#[test]
fn broadcaster_publishes_on_world_subject() {
    let bus = MemoryBus::default();
    let subj = world_events_subject("w");

    let mut b = WorldEventBroadcaster::new(bus.clone(), "node-a".into());
    b.publish_atom(sample_atom("w", "a1"), START, 7, &allow)
        .unwrap();
    b.flush_all().unwrap();

    let batches: Vec<AtomEventBatch> = bus
        .take(&subj)
        .iter()
        .map(|(_, bytes)| decode_event_batch(bytes).unwrap())
        .collect();
    assert!(!batches.is_empty());
    assert_eq!(batches[0].events[0].atom.id().0, "a1");
    assert_eq!(batches[0].events[0].sent_at_ms, 7);
    assert_eq!(batches[0].batch_id.len(), 16);
}

#[test]
fn events_are_flushed_when_due() {
    let bus = MemoryBus::default();
    let subj = world_events_subject("w");
    assert_eq!(subj, "dwbase.world.77.events");
    let mut b = WorldEventBroadcaster::new(bus.clone(), "n".into());
    for i in 0..31 {
        b.publish_atom(sample_atom("w", &format!("a{i}")), START, 0, &allow)
            .unwrap();
    }
    assert!(bus.take(&subj).is_empty());
    b.publish_atom(sample_atom("w", "a31"), START, 0, &allow)
        .unwrap();
    let sent = bus.take(&subj);
    assert_eq!(sent.len(), 1);
    assert_eq!(decode_event_batch(&sent[0].1).unwrap().events.len(), 32);

    b.publish_atom(sample_atom("w", "x"), START, 0, &allow).unwrap();
    b.publish_atom(sample_atom("w", "y"), later(49), 0, &deny).unwrap();
    b.publish_atom(sample_atom("w", "y"), later(49), 0, &allow).unwrap();
    assert!(bus.take(&subj).is_empty());
    b.publish_atom(sample_atom("w", "z"), later(50), 0, &allow).unwrap();
    let sent = bus.take(&subj);
    assert_eq!(decode_event_batch(&sent[0].1).unwrap().events.len(), 3);

    b.publish_atom(sample_atom("w", "q"), START, 0, &allow).unwrap();
    *bus.broken.borrow_mut() = true;
    assert_eq!(b.flush_all(), Err(SwarmError::Io("broken".into())));
    *bus.broken.borrow_mut() = false;
    b.flush_all().unwrap();
    assert!(bus.take(&subj).is_empty());
}

#[test]
fn identifiers_are_hexadecimal_and_new() {
    let (a, b) = (new_correlation_id(), new_correlation_id());
    assert_eq!(a.len(), 32);
    assert_ne!(a, b);
    assert!(a.chars().all(|c| c.is_ascii_hexdigit() && !c.is_ascii_uppercase()));
    assert_eq!(new_batch_id().len(), 16);
    assert_eq!(inbox_subject("n"), "dwbase.swarm.n.inbox");
    assert_eq!(millis_of(1, 999_999_999), 1999);
    assert_eq!(millis_of(u64::MAX, 0), u64::MAX);
    assert!(now_ms() > 1_600_000_000_000);
}

#[test]
fn refused_subscribers_get_nothing() {
    let bus = MemoryBus::default();
    let transport = NatsSwarmTransport::new(bus.clone(), PeerId::new("a")).unwrap();
    let mut node =
        Replicator::with_policy(transport, vec![], Duration::from_secs(30), SendNothing, START)
            .unwrap();
    node.subscriptions
        .upsert("b".to_string(), vec!["w".to_string()], START);
    node.replicate_new_atom(sample_atom("w", "x"), START, &allow)
        .unwrap();
    assert!(bus.sent.borrow().is_empty());
}

#[test]
fn each_receiver_gets_an_atom_once() {
    let bus = MemoryBus::default();
    let mut node = replicator(&bus, "a", vec![]);
    for id in ["a", "b", "c"] {
        node.subscriptions
            .upsert(id.to_string(), vec!["w".to_string()], START);
    }
    node.subscriptions
        .upsert("d".to_string(), vec!["other".to_string()], START);
    node.replicate_new_atom(sample_atom("w", "x"), START, &allow)
        .unwrap();
    let mut subjects: Vec<String> = bus.sent.borrow().iter().map(|s| s.0.clone()).collect();
    subjects.sort();
    assert_eq!(subjects, [inbox_subject("b"), inbox_subject("c")]);
}
