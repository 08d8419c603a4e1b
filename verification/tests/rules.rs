use dwbase::atom::{
    Atom, AtomId, AtomKind, Importance, Link, LinkKind, Timestamp, WorkerKey, WorldKey,
};
use dwbase::clock::{Duration, Instant};
use dwbase::conflict::ConflictIndex;
use dwbase::keys::{key_from_variable, DummyKeyProvider, KeyProvider};
use dwbase::membership::Membership;
use dwbase::model::{
    AtomFilter, DwbaseError, NewAtom, Question, SummaryWindow, WorldAction, WorldMeta,
};
use dwbase::policy::{is_policy_atom, policy_world_of, read_policy, tenant_policy_world_of};
use dwbase::quarantine::{
    is_impossible_payload, is_quarantine_world, is_suspect, low_trust, quarantined, Suspicions,
};
use dwbase::recall::{deduplicate, exclude_quarantine, rank_candidates, truncate_atoms};
use dwbase::reflex::{ReflexFilter, ReflexIndex, ReflexIndexConfig};
use dwbase::single::Single;
use dwbase::summary::{SummaryAdvert, SummaryCatalog};
use dwbase::swarm::{PeerId, PeerInfo};
use dwbase::text::{trim, up_to};
use dwbase::world_status::{status_from, Transition};

fn number(value: f32) -> Single {
    Single::from_bits(value.to_bits())
}

fn read(text: &str) -> Option<Single> {
    text.parse::<f32>().ok().map(number)
}

fn atom_at(id: &str, ts: &str, importance: f32, labels: &[&str], links: &[(&str, LinkKind)]) -> Atom {
    Atom::new(
        AtomId::new(id),
        WorldKey::new("w"),
        WorkerKey::new("worker"),
        AtomKind::Observation,
        Timestamp::new(ts),
        Importance::clamped(number(importance)),
        "{}".into(),
        None,
        vec![],
        labels.iter().map(|s| s.to_string()).collect(),
        links
            .iter()
            .map(|(target, kind)| Link::new(AtomId::new(target), *kind))
            .collect(),
    )
}

fn labelled(labels: &[&str]) -> Atom {
    atom_at("a", "2024-01-01T00:00:00Z", 0.5, labels, &[])
}

fn submission(worker: &str, payload: &str, importance: f32) -> NewAtom {
    NewAtom {
        world: WorldKey::new("w"),
        worker: WorkerKey::new(worker),
        kind: AtomKind::Observation,
        timestamp: Timestamp::new("2024-01-01T00:00:00Z"),
        importance: Importance::clamped(number(importance)),
        payload_json: payload.into(),
        vector: None,
        flags: vec![],
        labels: vec!["quarantine".into()],
        links: vec![],
    }
}

#[test]
fn links_are_counted_by_kind() {
    let mut index = ConflictIndex::default();
    index.register(&atom_at(
        "b",
        "t",
        0.5,
        &[],
        &[
            ("a", LinkKind::Supersedes),
            ("a", LinkKind::Contradicts),
            ("a", LinkKind::References),
        ],
    ));
    index.register(&atom_at(
        "c",
        "t",
        0.5,
        &[],
        &[
            ("a", LinkKind::Supersedes),
            ("a", LinkKind::Contradicts),
            ("a", LinkKind::Confirms),
        ],
    ));
    let a = AtomId::new("a");
    assert_eq!(index.superseded_by(&a), Some(AtomId::new("c")));
    assert_eq!(index.contradiction_count(&a), 2);
    assert_eq!(index.confirmation_count(&a), 1);
    let b = AtomId::new("b");
    assert_eq!(index.superseded_by(&b), None);
    assert_eq!(index.contradiction_count(&b), 0);
}

#[test]
fn adverts_are_replaced_by_digest() {
    let advert = |world: &str, start: i64, digest: &str| {
        SummaryAdvert::new(
            WorldKey::new(world),
            vec![SummaryWindow::new(start, start + 1)],
            digest,
        )
    };
    let mut catalog = SummaryCatalog::new();
    catalog.upsert(advert("w", 0, "d1"));
    catalog.upsert(advert("w", 1, "d2"));
    catalog.upsert(advert("w", 2, "d1"));
    catalog.upsert(advert("v", 3, "d1"));
    let list = catalog.list(&WorldKey::new("w"));
    assert_eq!(list, [advert("w", 2, "d1"), advert("w", 1, "d2")]);
    assert!(catalog.list(&WorldKey::new("x")).is_empty());
    assert_eq!(catalog.worlds().len(), 2);
}

#[test]
fn old_buckets_leave_the_reflex_index() {
    let mut index = ReflexIndex::new(ReflexIndexConfig {
        recency_seconds: 2,
        bucket_width_seconds: 1,
    });
    for (id, second) in [("a", 0), ("b", 1), ("c", 2), ("d", 3)] {
        let ts = format!("2024-01-01T00:00:0{second}Z");
        index.insert(atom_at(id, &ts, 0.5, &["l"], &[])).unwrap();
    }
    let mut ids: Vec<String> = index
        .filter(&ReflexFilter::default())
        .unwrap()
        .iter()
        .map(|a| a.id().0.clone())
        .collect();
    ids.sort();
    assert_eq!(ids, ["b", "c", "d"]);

    let mut filter = ReflexFilter::default();
    filter.world = Some(WorldKey::new("w"));
    filter.since = Some(Timestamp::new("2024-01-01T00:00:03Z"));
    assert_eq!(index.filter(&filter).unwrap().len(), 1);
    filter.since = Some(Timestamp::new("yesterday"));
    assert!(matches!(
        index.filter(&filter),
        Err(DwbaseError::InvalidInput(_))
    ));
    filter.since = None;
    filter.min_importance = Some(number(0.6));
    assert!(index.filter(&filter).unwrap().is_empty());
    filter.min_importance = Some(number(0.5));
    filter.labels = vec!["l".into()];
    assert_eq!(index.filter(&filter).unwrap().len(), 3);
    filter.labels = vec!["m".into()];
    assert!(index.filter(&filter).unwrap().is_empty());
    filter.labels = vec![];
    filter.author = Some(WorkerKey::new("other"));
    assert!(index.filter(&filter).unwrap().is_empty());
    filter.author = None;
    filter.kinds = vec![AtomKind::Plan];
    assert!(index.filter(&filter).unwrap().is_empty());
    filter.kinds = vec![];
    filter.world = Some(WorldKey::new("other"));
    assert!(index.filter(&filter).unwrap().is_empty());
    let refused = index.insert(atom_at("e", "yesterday", 0.5, &[], &[]));
    match refused {
        Err(DwbaseError::InvalidInput(s)) => {
            assert!(s.starts_with("invalid timestamp yesterday: "), "{s}")
        }
        other => panic!("unexpected {other:?}"),
    }
}

#[test]
fn questions_exclude_the_flags_of_their_filter() {
    let question = Question {
        world: WorldKey::new("w"),
        text: "q".into(),
        filter: Some(AtomFilter {
            flags: vec!["f".into()],
            labels: vec!["l".into()],
            ..AtomFilter::default()
        }),
    };
    let filter = ReflexFilter::from_question(&question);
    assert_eq!(filter.exclude_flags, ["f"]);
    assert_eq!(filter.labels, ["l"]);
    assert_eq!(filter.world, Some(WorldKey::new("w")));
}

#[test]
fn suspect_submissions_are_told_apart() {
    assert!(is_impossible_payload("a NaN here"));
    assert!(is_impossible_payload("Infinity"));
    assert!(is_impossible_payload("IMPOSSIBLE"));
    assert!(!is_impossible_payload("fine"));
    assert!(low_trust(&WorkerKey::new("LowTrust-7")));
    assert!(!low_trust(&WorkerKey::new("a-lowtrust")));
    assert!(is_suspect(&submission("lowtrust", "x", 0.75), 1));
    assert!(!is_suspect(&submission("lowtrust", "x", 0.7), 1));
    assert!(!is_suspect(&submission("w", "x", 1.0), 5));
    assert!(is_suspect(&submission("w", "x", 0.0), 6));
    let apart = quarantined(submission("w", "x", 0.0));
    assert_eq!(apart.world, WorldKey::new("quarantine:w"));
    assert_eq!(apart.flags, ["suspect"]);
    assert_eq!(apart.labels, ["quarantine"]);
    assert!(is_quarantine_world(&apart.world));
}

#[test]
fn submissions_are_noted_for_a_second() {
    let mut noted = Suspicions::new();
    let w = WorkerKey::new("w");
    let at = |nanos: u64| Instant { nanos };
    assert_eq!(noted.record(&w, at(0)), 1);
    assert_eq!(noted.record(&w, at(500_000_000)), 2);
    assert_eq!(noted.record(&w, at(1_000_000_000)), 3);
    assert_eq!(noted.record(&w, at(1_000_000_001)), 3);
    assert_eq!(noted.record(&WorkerKey::new("v"), at(1_000_000_001)), 1);
}

#[test]
fn policies_are_read_from_labels() {
    let plain = read_policy(&vec![], &read);
    assert_eq!(plain.retention_days, Some(365));
    assert_eq!(plain.min_importance, None);
    let policy = read_policy(
        &vec![
            labelled(&["policy:retention_days=3", "policy:min_importance=0.25"]),
            labelled(&[
                "policy:retention_days=x",
                "policy:replication_allow=",
                "policy:replication_allow=n1",
                "policy:replication_deny=n2",
            ]),
            labelled(&["policy:retention_min_days=10"]),
        ],
        &read,
    );
    assert_eq!(policy.retention_days, Some(10));
    assert_eq!(policy.min_importance, Some(number(0.25)));
    assert_eq!(policy.replication_allow, ["n1"]);
    assert_eq!(policy.replication_deny, ["n2"]);
    let longer = read_policy(
        &vec![labelled(&["policy:retention_min_days=10", "policy:retention_days=+20"])],
        &read,
    );
    assert_eq!(longer.retention_days, Some(20));
    assert_eq!(
        policy_world_of(&WorldKey::new("w")),
        WorldKey::new("policy:w")
    );
    assert_eq!(
        tenant_policy_world_of(&WorldKey::new("tenant:a/b/c")),
        Some(WorldKey::new("tenant:a/policy"))
    );
    assert_eq!(tenant_policy_world_of(&WorldKey::new("tenant:a")), None);
    assert_eq!(tenant_policy_world_of(&WorldKey::new("x/a")), None);
    assert!(is_policy_atom(&labelled(&["policy:x"])));
    assert!(is_policy_atom(&labelled(&["world_meta"])));
    assert!(!is_policy_atom(&labelled(&["world_metal"])));
}

#[test]
fn retention_evicts_the_old_and_the_unimportant() {
    let atoms = vec![
        atom_at("new", "2024-01-11T00:00:00Z", 0.5, &[], &[("linked", LinkKind::References)]),
        atom_at("edge", "2024-01-01T00:00:00Z", 0.5, &[], &[]),
        atom_at("old", "2023-12-31T23:59:59Z", 0.5, &[], &[]),
        atom_at("linked", "2020-01-01T00:00:00Z", 0.5, &[], &[]),
        atom_at("policy", "2020-01-01T00:00:00Z", 0.0, &["policy:x"], &[]),
        atom_at("meta", "2020-01-01T00:00:00Z", 0.0, &["world_meta_x"], &[]),
        atom_at("low", "2024-01-11T00:00:00Z", 0.1, &[], &[]),
        atom_at("odd", "never", 0.5, &[], &[]),
    ];
    let policy = read_policy(
        &vec![labelled(&["policy:retention_days=10", "policy:min_importance=0.2"])],
        &read,
    );
    let ids: Vec<String> = policy.evictable(&atoms).into_iter().map(|id| id.0).collect();
    assert_eq!(ids, ["old", "low"]);
    let keep_all = read_policy(&vec![labelled(&["policy:retention_days=0"])], &read);
    assert!(keep_all.evictable(&atoms).is_empty());
}

#[test]
fn world_records_hold_json() {
    let action = WorldAction::Create(WorldMeta {
        world: WorldKey::new("w\"\\\n\u{1}\u{e4}"),
        description: Some("d\t".into()),
        labels: vec!["l1".into(), "l2".into()],
    });
    let transition = Transition::from_action(&action);
    assert!(!transition.is_redundant(&Some("active".into())));
    let atom = transition.record(AtomId::new("id"), Timestamp::new("now"));
    let mut expected = serde_json::Map::new();
    expected.insert("action".into(), "active".into());
    expected.insert("at".into(), "now".into());
    expected.insert("description".into(), "d\t".into());
    expected.insert("labels".into(), vec!["l1", "l2"].into());
    expected.insert("world".into(), "w\"\\\n\u{1}\u{e4}".into());
    assert_eq!(
        atom.payload_json(),
        serde_json::Value::Object(expected).to_string()
    );
    assert_eq!(atom.labels(), ["world_meta", "world_status:active", "l1", "l2"]);
    assert_eq!(atom.importance().get(), number(0.1));
    assert_eq!(atom.worker(), &WorkerKey::new("system"));
    let archive = Transition::from_action(&WorldAction::Archive(WorldKey::new("w")));
    assert!(archive.is_redundant(&Some("archived".into())));
    assert!(!archive.is_redundant(&None));
}

#[test]
fn the_latest_status_counts() {
    let status = |ts: &str, label: &str| atom_at("a", ts, 0.1, &["world_meta", label], &[]);
    let atoms = vec![
        status("2024-01-02T00:00:00Z", "world_status:archived"),
        status("2024-01-01T00:00:00Z", "world_status:active"),
        status("2024-01-02T00:00:00Z", "world_status:other"),
        status("2024-01-03T00:00:00Z", "nothing"),
    ];
    assert_eq!(status_from(&atoms).as_deref(), Some("archived"));
    assert_eq!(status_from(&vec![]), None);
}

#[test]
fn candidates_are_ranked_once_each() {
    let a = || atom_at("a", "2024-01-01T00:00:00Z", 0.5, &[], &[]);
    let b = || atom_at("b", "2024-01-02T00:00:00Z", 0.5, &[], &[]);
    let c = || atom_at("c", "2024-01-01T00:00:00Z", 0.6, &[], &[]);
    let d = || atom_at("d", "2024-01-01T00:00:00Z", 0.5, &[], &[]);
    let list = deduplicate(vec![a(), b(), a(), c(), d(), b()]);
    assert_eq!(list, [a(), b(), c(), d()]);
    let scores = vec![number(0.5), number(0.5), number(0.5), number(0.5)];
    let ranked = rank_candidates(&list, &scores, &vec![10_001, 0, 0, 10_002]);
    assert_eq!(ranked, [b(), c(), d(), a()]);
    let scores = vec![number(0.9), number(-0.5), number(0.5), number(f32::INFINITY)];
    let ranked = rank_candidates(&list, &scores, &vec![0, 0, 0, 0]);
    assert_eq!(ranked, [b(), d(), a(), c()]);
    assert_eq!(truncate_atoms(vec![a(), b()], 1), [a()]);
    assert_eq!(truncate_atoms(vec![a(), b()], 3).len(), 2);
    assert_eq!(exclude_quarantine(&WorldKey::new("w"), vec![a()]).len(), 1);
}

#[test]
fn errors_say_what_failed() {
    let texts: Vec<String> = [
        DwbaseError::CapabilityDenied("x".into()),
        DwbaseError::InvalidInput("x".into()),
        DwbaseError::Storage("x".into()),
        DwbaseError::Vector("x".into()),
        DwbaseError::Stream("x".into()),
        DwbaseError::Internal("x".into()),
    ]
    .iter()
    .map(|e| e.message())
    .collect();
    assert_eq!(
        texts,
        [
            "capability denied: x",
            "invalid input: x",
            "storage error: x",
            "vector error: x",
            "stream error: x",
            "internal error: x"
        ]
    );
}

#[test]
fn hexadecimal_keys_are_read_in_either_case() {
    assert_eq!(
        key_from_variable("k", Some(" 00fFA9 ")),
        Ok(vec![0x00, 0xff, 0xa9])
    );
    assert_eq!(
        key_from_variable("k", Some("abc")),
        Err(DwbaseError::InvalidInput("Odd number of digits".into()))
    );
    assert_eq!(
        key_from_variable("k", Some("0g")),
        Err(DwbaseError::InvalidInput(
            "Invalid character 'g' at position 1".into()
        ))
    );
    assert_eq!(
        key_from_variable("a-b", None),
        Err(DwbaseError::InvalidInput(
            "env var DWBASE_KEY_A_B missing for key id a-b".into()
        ))
    );
    let keys = DummyKeyProvider::default().with_key("k", [7; 32]);
    assert_eq!(keys.key_bytes("k").unwrap(), [7; 32]);
    assert!(keys.key_bytes("other").is_err());
}

#[test]
fn peers_that_back_off_are_not_eligible() {
    let mut members = Membership::new(Duration::from_secs(60), Duration::from_secs(10));
    let info = |id: &str| PeerInfo {
        id: PeerId::new(id),
        addr: "127.0.0.1:9000".into(),
        trust_score: number(1.0),
        worlds: vec![],
        subscriptions: vec![],
        summary_adverts: vec![],
    };
    assert!(members.upsert(info("a")));
    assert!(members.upsert(info("b")));
    members.mark_failure(&PeerId::new("a"));
    assert!(members.is_backing_off(&PeerId::new("a")));
    let ids: Vec<String> = members.eligible_peers().into_iter().map(|p| p.id.0).collect();
    assert_eq!(ids, ["b"]);
}

#[test]
fn white_space_is_what_unicode_says() {
    for c in ['\t', '\r', ' ', '\u{85}', '\u{a0}', '\u{1680}', '\u{2003}', '\u{2029}', '\u{202f}', '\u{205f}', '\u{3000}'] {
        assert_eq!(trim(&format!("{c}x{c}")), "x");
    }
    for c in ['\u{200b}', '\u{feff}', '\u{180e}', '\u{8}'] {
        assert_eq!(trim(&format!("{c}x")).chars().count(), 2);
    }
    let white = (0..=0x10ffffu32)
        .filter_map(char::from_u32)
        .filter(|c| c.is_whitespace())
        .count();
    assert_eq!(white, 25);
}

#[test]
fn first_occurrence_ends_the_head() {
    assert_eq!(up_to("a/b/c", "/"), Some("a"));
    assert_eq!(up_to("abc", "bc"), Some("a"));
    assert_eq!(up_to("abc", "d"), None);
    assert_eq!(up_to("ab", "abc"), None);
    assert_eq!(up_to("ab", ""), Some(""));
}

#[test]
fn catalog_names_exactly_the_worlds_with_adverts() {
    let mut catalog = SummaryCatalog::new();
    assert!(catalog.worlds().is_empty());
    let advert = |world: &str, digest: &str| {
        SummaryAdvert::new(WorldKey::new(world), vec![], digest)
    };
    catalog.upsert(advert("w1", "d1"));
    catalog.upsert(advert("w1", "d1"));
    catalog.upsert(advert("w2", "d2"));
    assert_eq!(catalog.worlds().len(), 2);
    for world in catalog.worlds() {
        assert_eq!(catalog.list(&world).len(), 1);
    }
    assert!(catalog.list(&WorldKey::new("w3")).is_empty());
}
