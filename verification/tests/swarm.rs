use std::cell::Cell;
use std::rc::Rc;

use dwbase::atom::{Atom, AtomId, AtomKind, Importance, Timestamp, WorkerKey, WorldKey};
use dwbase::bloom::{AtomBatch, BloomFilter, BloomOffer};
use dwbase::clock::{Clock, Duration, Instant, LONGEST_NANOS};
use dwbase::codec::{from_record, to_record, AtomRecord};
use dwbase::membership::Membership;
use dwbase::model::{SummaryWindow, TimeWindow};
use dwbase::moment::parse_ts;
use dwbase::single::Single;
use dwbase::summary::{SummaryAdvert, SummaryCatalog};
use dwbase::swarm::{
    check_datagram, Envelope, EnvelopeKind, Hello, InterestKind, PeerId, PeerInfo, SwarmError,
    WorldSubscription,
};

fn number(value: f32) -> Single {
    Single::from_bits(value.to_bits())
}

#[derive(Clone)]
struct FakeClock {
    nanos: Rc<Cell<u64>>,
}

impl FakeClock {
    fn new() -> Self {
        FakeClock {
            nanos: Rc::new(Cell::new(1_000_000_000)),
        }
    }

    fn advance(&self, secs: u64) {
        self.nanos.set(self.nanos.get() + secs * 1_000_000_000);
    }
}

impl Clock for FakeClock {
    fn now(&self) -> Instant {
        Instant {
            nanos: self.nanos.get(),
        }
    }
}

fn peer(id: &str, port: u16) -> PeerInfo {
    PeerInfo {
        id: PeerId::new(id),
        addr: format!("127.0.0.1:{port}"),
        trust_score: number(1.0),
        worlds: vec!["default".into()],
        subscriptions: vec![],
        summary_adverts: vec![],
    }
}

fn membership(clock: &FakeClock) -> Membership<FakeClock> {
    Membership::with_clock(
        clock.clone(),
        Duration::from_secs(30),
        Duration::from_secs(5),
    )
}

#[test]
fn membership_add_update_and_expire() {
    let clock = FakeClock::new();
    let mut membership = membership(&clock);

    let mut p1 = peer("node-a", 7000);
    assert!(membership.upsert(p1.clone()));
    assert_eq!(membership.len(), 1);

    // Update trust score and ensure it overwrites.
    p1.trust_score = number(0.6);
    assert!(!membership.upsert(p1.clone()));
    assert_eq!(membership.peers()[0].trust_score, number(0.6));

    // Expire after window passes.
    clock.advance(31);
    let expired = membership.expire();
    assert_eq!(expired, vec![p1.id.clone()]);
    assert!(membership.is_empty());
}

#[test]
fn membership_backoff_and_recovery() {
    let clock = FakeClock::new();
    let mut membership = membership(&clock);
    let p1 = peer("node-b", 7001);
    membership.upsert(p1.clone());

    membership.mark_failure(&p1.id);
    assert!(membership.is_backing_off(&p1.id));

    // Backoff expires then mark seen clears failures.
    clock.advance(6);
    assert!(!membership.is_backing_off(&p1.id));
    membership.mark_seen(&p1.id);
    assert!(!membership.is_backing_off(&p1.id));
}

#[test]
fn backoff_doubles_up_to_a_bound() {
    let clock = FakeClock::new();
    let mut membership = membership(&clock);
    let p1 = peer("node-c", 7002);
    membership.upsert(p1.clone());
    let start = Instant { nanos: 0 };
    let mut expected = 5u64;
    for _ in 0..17 {
        membership.mark_failure_at(&p1.id, start);
        let before = Instant {
            nanos: expected * 1_000_000_000 - 1,
        };
        let after = Instant {
            nanos: expected * 1_000_000_000,
        };
        assert!(membership.is_backing_off_at(&p1.id, before));
        assert!(!membership.is_backing_off_at(&p1.id, after));
        expected *= 2;
    }
    membership.mark_failure_at(&p1.id, start);
    let bound = Instant {
        nanos: 5 * 65536 * 1_000_000_000,
    };
    assert!(!membership.is_backing_off_at(&p1.id, bound));
    assert!(membership.eligible_peers_at(start).is_empty());
    membership.mark_seen_at(&p1.id, start);
    assert_eq!(membership.eligible_peers_at(start).len(), 1);
    membership.mark_failure_at(&PeerId::new("unknown"), start);
    assert!(!membership.is_backing_off_at(&PeerId::new("unknown"), start));
}

#[test]
fn durations_saturate() {
    let day = Duration::from_secs(86_400);
    assert_eq!(day.saturating_mul(2), Duration::from_secs(172_800));
    let longest = Duration {
        nanos: LONGEST_NANOS,
    };
    assert_eq!(longest.saturating_mul(3), longest);
}

#[test]
fn envelope_roundtrip() {
    let env = Envelope::new(
        EnvelopeKind::Ping,
        PeerId::new("node-a"),
        Some(PeerId::new("node-b")),
        vec![1, 2, 3],
    );
    let bytes = env.encode().unwrap();
    let decoded = Envelope::decode(&bytes).unwrap();
    assert_eq!(env.kind, decoded.kind);
    assert_eq!(env.from, decoded.from);
    assert_eq!(env.to, decoded.to);
    assert_eq!(env.payload_bytes, decoded.payload_bytes);
}

#[test]
fn all_envelope_kinds_come_back() {
    let kinds = [
        EnvelopeKind::Ping,
        EnvelopeKind::Membership,
        EnvelopeKind::Hello,
        EnvelopeKind::SummaryAdvert,
        EnvelopeKind::BloomOffer,
        EnvelopeKind::MissingRequest,
        EnvelopeKind::AtomBatch,
        EnvelopeKind::Gossip,
        EnvelopeKind::Custom("mine".into()),
        EnvelopeKind::Custom("Ping".into()),
    ];
    for kind in kinds {
        let env = Envelope::new(kind, PeerId::new("a"), None, vec![9; 300]);
        let decoded = Envelope::decode(&env.encode().unwrap()).unwrap();
        assert_eq!(decoded, env);
    }
    let named = rmp_serde::to_vec(&("Pong", "a", None::<String>, vec![1u8], (0u64, 0u32))).unwrap();
    assert_eq!(
        Envelope::decode(&named),
        Err(SwarmError::Decode(
            "unknown variant `Pong`, expected one of `Ping`, `Membership`, `Hello`, \
             `SummaryAdvert`, `BloomOffer`, `MissingRequest`, `AtomBatch`, `Gossip`, `Custom`"
                .into()
        ))
    );
    let bare = rmp_serde::to_vec(&("Custom", "a", None::<String>, vec![1u8], (0u64, 0u32))).unwrap();
    assert_eq!(
        Envelope::decode(&bare),
        Err(SwarmError::Decode(
            "invalid type: unit variant, expected newtype variant".into()
        ))
    );
    let tag = std::collections::BTreeMap::from([("Pong", "x")]);
    let tagged = rmp_serde::to_vec(&(tag, "a", None::<String>, vec![1u8], (0u64, 0u32))).unwrap();
    assert!(matches!(
        Envelope::decode(&tagged),
        Err(SwarmError::Decode(e)) if e.starts_with("unknown variant `Pong`, expected one of `Ping`")
    ));
    assert!(matches!(
        Envelope::decode(&[0xc1]),
        Err(SwarmError::Decode(_))
    ));
}

#[test]
fn hello_merge_is_idempotent() {
    let clock = FakeClock::new();
    let mut membership = membership(&clock);
    let mut p1 = peer("node-hello", 7100);
    p1.worlds = vec!["w1".into()];
    let hello = Hello {
        peer: p1.clone(),
        subscriptions: vec![WorldSubscription {
            world_pattern: "w*".into(),
            kinds: vec![InterestKind::Summaries],
        }],
    };
    assert!(membership.merge_hello(hello.clone()));
    assert_eq!(membership.len(), 1);

    // Second hello updates worlds/subscriptions without duplicating.
    p1.worlds.push("w2".into());
    let updated = Hello {
        peer: p1.clone(),
        subscriptions: hello.clone().subscriptions,
    };
    assert!(!membership.merge_hello(updated));
    let worlds: Vec<String> = membership.peers()[0].worlds.clone();
    assert_eq!(worlds, vec!["w1".to_string(), "w2".to_string()]);
    assert_eq!(membership.peers()[0].subscriptions, hello.subscriptions);
}

#[test]
fn summary_advert_updates_catalog_and_membership() {
    let clock = FakeClock::new();
    let mut membership = membership(&clock);
    let mut catalog = SummaryCatalog::new();
    let p1 = peer("node-sum", 7200);
    membership.upsert(p1.clone());

    let advert = SummaryAdvert::new(
        WorldKey::new("w-sum"),
        vec![SummaryWindow::new(0, 100)],
        "digest-1",
    );
    membership.apply_summary_advert(&p1.id, advert.clone());
    catalog.upsert(advert.clone());

    let stored = membership.peers()[0].summary_adverts.clone();
    assert_eq!(stored.len(), 1);
    assert_eq!(stored[0].digest, "digest-1");

    let known = catalog.list(&WorldKey::new("w-sum"));
    assert_eq!(known.len(), 1);
    assert_eq!(known[0].digest, "digest-1");

    // The same digest for the same world takes the place of the advert.
    membership.apply_summary_advert(&p1.id, advert);
    assert_eq!(membership.peers()[0].summary_adverts.len(), 1);
}

type Subscriptions = Vec<(String, Vec<String>)>;
type AdvertFields = (String, Vec<(i64, i64)>, String);
type PeerFields = (String, String, f32, Vec<String>, Subscriptions, Vec<AdvertFields>);

fn subscription_fields(subscriptions: &[WorldSubscription]) -> Subscriptions {
    subscriptions
        .iter()
        .map(|s| {
            let kinds = s.kinds.iter().map(|k| format!("{k:?}").to_lowercase()).collect();
            (s.world_pattern.clone(), kinds)
        })
        .collect()
}

fn read_subscriptions(fields: Subscriptions) -> Vec<WorldSubscription> {
    fields
        .into_iter()
        .map(|(world_pattern, kinds)| WorldSubscription {
            world_pattern,
            kinds: kinds
                .iter()
                .map(|k| match k.as_str() {
                    "atoms" => InterestKind::Atoms,
                    "summaries" => InterestKind::Summaries,
                    other => panic!("unknown interest {other}"),
                })
                .collect(),
        })
        .collect()
}

fn encode_advert(advert: &SummaryAdvert) -> Vec<u8> {
    let windows: Vec<(i64, i64)> = advert.windows.iter().map(|w| (w.start_ms, w.end_ms)).collect();
    rmp_serde::to_vec(&(&advert.world.0, windows, &advert.digest)).unwrap()
}

fn decode_advert(bytes: &[u8]) -> SummaryAdvert {
    let (world, windows, digest): AdvertFields = rmp_serde::from_slice(bytes).unwrap();
    let windows = windows.into_iter().map(|(a, b)| SummaryWindow::new(a, b)).collect();
    SummaryAdvert::new(WorldKey::new(&world), windows, &digest)
}

fn encode_hello(hello: &Hello) -> Vec<u8> {
    let peer = &hello.peer;
    assert!(peer.summary_adverts.is_empty());
    let fields: PeerFields = (
        peer.id.0.clone(),
        peer.addr.clone(),
        f32::from_bits(peer.trust_score.to_bits()),
        peer.worlds.clone(),
        subscription_fields(&peer.subscriptions),
        vec![],
    );
    rmp_serde::to_vec(&(fields, subscription_fields(&hello.subscriptions))).unwrap()
}

fn decode_hello(bytes: &[u8]) -> Hello {
    let (peer, subscriptions): (PeerFields, Subscriptions) = rmp_serde::from_slice(bytes).unwrap();
    let (id, addr, trust, worlds, own, _) = peer;
    Hello {
        peer: PeerInfo {
            id: PeerId::new(&id),
            addr,
            trust_score: number(trust),
            worlds,
            subscriptions: read_subscriptions(own),
            summary_adverts: vec![],
        },
        subscriptions: read_subscriptions(subscriptions),
    }
}

/// What arrives of what is sent.
fn carried(env: Envelope) -> Envelope {
    Envelope::decode(&env.encode().unwrap()).unwrap()
}

#[test]
fn exchange_hello_and_summary_advert() {
    let mut m1 = Membership::new(Duration::from_secs(60), Duration::from_secs(5));
    let mut m2 = Membership::new(Duration::from_secs(60), Duration::from_secs(5));
    let mut catalog = SummaryCatalog::new();

    let mut sender = peer("node-a", 9000);
    sender.worlds = vec!["w1".into()];
    let hello = Hello {
        peer: sender,
        subscriptions: vec![WorldSubscription {
            world_pattern: "w1".into(),
            kinds: vec![InterestKind::Atoms, InterestKind::Summaries],
        }],
    };

    // Send hello from node A to node B.
    let env = carried(Envelope::new(
        EnvelopeKind::Hello,
        hello.peer.id.clone(),
        None,
        encode_hello(&hello),
    ));
    assert_eq!(env.kind, EnvelopeKind::Hello);
    let decoded = decode_hello(&env.payload_bytes);
    assert_eq!(decoded, hello);
    m2.merge_hello(decoded);
    assert_eq!(m2.len(), 1);
    assert_eq!(m2.peers()[0].subscriptions, hello.subscriptions);

    // Send summary advert from node B back to A.
    let mut other = peer("node-b", 9001);
    other.worlds = vec!["w1".into()];
    m1.upsert(other);
    let advert = SummaryAdvert::new(
        WorldKey::new("w1"),
        vec![SummaryWindow::new(0, 1000)],
        "digest-hello",
    );
    let env2 = carried(Envelope::new(
        EnvelopeKind::SummaryAdvert,
        PeerId::new("node-b"),
        Some(PeerId::new("node-a")),
        encode_advert(&advert),
    ));
    assert_eq!(env2.kind, EnvelopeKind::SummaryAdvert);
    let decoded_advert = decode_advert(&env2.payload_bytes);
    assert_eq!(decoded_advert, advert);
    catalog.upsert(decoded_advert.clone());
    m1.apply_summary_advert(&hello.peer.id, decoded_advert);

    assert_eq!(catalog.list(&WorldKey::new("w1")).len(), 1);
    assert_eq!(m1.peers().len(), 1);
}

fn atom_with(id: &str, world: &str, timestamp: &str) -> Atom {
    Atom::builder(
        AtomId::new(id),
        WorldKey::new(world),
        WorkerKey::new("worker"),
        AtomKind::Observation,
        Timestamp::new(timestamp),
        Importance::new(number(1.0)).unwrap(),
        "{}",
    )
    .build()
}

struct SimpleNode {
    world: WorldKey,
    atoms: Vec<Atom>,
}

impl SimpleNode {
    fn new(world: &str, atoms: Vec<Atom>) -> Self {
        SimpleNode {
            world: WorldKey::new(world),
            atoms,
        }
    }

    fn ids_in_window(&self, window: &TimeWindow) -> Vec<AtomId> {
        self.atoms
            .iter()
            .filter(|a| {
                parse_ts(a.timestamp()).is_ok_and(|at| {
                    let ms = at.millis();
                    ms >= window.start_ms && ms <= window.end_ms
                })
            })
            .map(|a| a.id().clone())
            .collect()
    }

    /// An offer with the sizes for one id and a rate of false positives of one in a hundred.
    fn bloom_offer(&self, window: TimeWindow) -> BloomOffer {
        let ids = self.ids_in_window(&window);
        assert_eq!(ids.len(), 1);
        BloomOffer {
            world: self.world.clone(),
            window,
            bloom: BloomFilter::from_ids(&ids, 10, 178),
        }
    }

    fn missing_atoms(&self, bloom: &BloomFilter, window: &TimeWindow) -> Vec<Atom> {
        let missing = bloom.missing(&self.ids_in_window(window));
        self.atoms
            .iter()
            .filter(|a| missing.contains(a.id()))
            .cloned()
            .collect()
    }

    fn ingest_batch(&mut self, batch: AtomBatch) {
        for atom in batch.atoms {
            if !self.atoms.iter().any(|a| a.id() == atom.id()) {
                self.atoms.push(atom);
            }
        }
    }
}

fn encode_offer(offer: &BloomOffer) -> Vec<u8> {
    let window = (offer.window.start_ms, offer.window.end_ms);
    rmp_serde::to_vec(&(&offer.world.0, window, offer.bloom.parts())).unwrap()
}

fn decode_offer(bytes: &[u8]) -> BloomOffer {
    let (world, (start, end), (bits, k, m)): (String, (i64, i64), (Vec<u8>, u32, u32)) =
        rmp_serde::from_slice(bytes).unwrap();
    BloomOffer {
        world: WorldKey::new(&world),
        window: TimeWindow::new(start, end),
        bloom: BloomFilter::from_parts(bits, k, m).unwrap(),
    }
}

type TextFields = (String, String, String, String, String, u32, String);

fn encode_batch(batch: &AtomBatch) -> Vec<u8> {
    let atoms: Vec<TextFields> = batch
        .atoms
        .iter()
        .map(|a| {
            let r = to_record(a);
            (r.id, r.world, r.worker, r.kind, r.timestamp, r.importance, r.payload_json)
        })
        .collect();
    rmp_serde::to_vec(&(&batch.world.0, atoms)).unwrap()
}

fn decode_batch(bytes: &[u8]) -> AtomBatch {
    let (world, atoms): (String, Vec<TextFields>) = rmp_serde::from_slice(bytes).unwrap();
    let atoms = atoms
        .into_iter()
        .map(|(id, world, worker, kind, timestamp, importance, payload_json)| {
            from_record(AtomRecord {
                id,
                world,
                worker,
                kind,
                timestamp,
                importance,
                payload_json,
                vector: None,
                flags: vec![],
                labels: vec![],
                links: vec![],
            })
            .unwrap()
        })
        .collect();
    AtomBatch {
        world: WorldKey::new(&world),
        atoms,
    }
}

#[test]
fn delta_sync_via_bloom_and_atom_batch() {
    let window = TimeWindow::new(0, 10_000);
    let node_a = SimpleNode::new(
        "w-delta",
        vec![
            atom_with("a1", "w-delta", "1970-01-01T00:00:01Z"),
            atom_with("a2", "w-delta", "1970-01-01T00:00:02Z"),
        ],
    );
    let mut node_b = SimpleNode::new(
        "w-delta",
        vec![atom_with("a1", "w-delta", "1970-01-01T00:00:01Z")],
    );

    // B sends bloom of what it has to A.
    let offer = node_b.bloom_offer(window);
    let env = carried(Envelope::new(
        EnvelopeKind::BloomOffer,
        PeerId::new("node-b"),
        Some(PeerId::new("node-a")),
        encode_offer(&offer),
    ));

    // A receives offer and responds with AtomBatch of missing atoms.
    let decoded = decode_offer(&env.payload_bytes);
    let missing_atoms = node_a.missing_atoms(&decoded.bloom, &decoded.window);
    let batch = AtomBatch {
        world: decoded.world.clone(),
        atoms: missing_atoms,
    };
    let env2 = carried(Envelope::new(
        EnvelopeKind::AtomBatch,
        PeerId::new("node-a"),
        Some(PeerId::new("node-b")),
        encode_batch(&batch),
    ));

    // B ingests the batch and ends up in sync.
    let decoded_batch = decode_batch(&env2.payload_bytes);
    assert_eq!(decoded_batch.atoms.len(), 1);
    node_b.ingest_batch(decoded_batch);

    assert_eq!(node_b.atoms.len(), node_a.atoms.len());
    assert_eq!(node_b.atoms[1].id(), &AtomId::new("a2"));
}

#[test]
fn bloom_has_no_false_negatives() {
    let ids: Vec<AtomId> = (0..200).map(|i| AtomId::new(&format!("id-{i}"))).collect();
    let bloom = BloomFilter::from_ids(&ids, 1918, 7);
    assert!(ids.iter().all(|id| bloom.contains(id)));
    assert!(bloom.missing(&ids).is_empty());
    let others: Vec<AtomId> = (0..200).map(|i| AtomId::new(&format!("no-{i}"))).collect();
    assert!(bloom.missing(&others).len() > 150);
    let empty = BloomFilter::from_ids(&[], 1, 0);
    assert_eq!(empty.parts().2, 256);
    assert_eq!(empty.parts().1, 1);
    assert!(!empty.contains(&AtomId::new("x")));
    assert!(BloomFilter::from_parts(vec![0; 3], 1, 256).is_none());
    assert!(BloomFilter::from_parts(vec![], 1, 0).is_none());
    // More bytes than the bits take do no harm, and without hash functions none are looked at.
    let mut roomy = bloom.parts().0.to_vec();
    roomy.extend([255; 5]);
    let roomy = BloomFilter::from_parts(roomy, 7, 1918).unwrap();
    assert_eq!(roomy.missing(&others), bloom.missing(&others));
    assert!(roomy.missing(&ids).is_empty());
    let hollow = BloomFilter::from_parts(vec![], 0, 0).unwrap();
    assert!(hollow.contains(&AtomId::new("x")));
}

#[test]
fn datagrams_are_bounded() {
    assert_eq!(check_datagram(10, 10), Ok(()));
    let err = check_datagram(11, 10).unwrap_err();
    assert_eq!(err, SwarmError::Oversize(11, 10));
    assert_eq!(err.message(), "datagram too large (11 > 10)");
    assert_eq!(SwarmError::Io("x".into()).message(), "io error: x");
    assert_eq!(SwarmError::Encode("x".into()).message(), "encode error: x");
    assert_eq!(SwarmError::Decode("x".into()).message(), "decode error: x");
}
