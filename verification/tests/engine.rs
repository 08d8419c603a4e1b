use std::collections::HashMap;

use dwbase::atom::{
    Atom, AtomId, AtomKind, Importance, Link, LinkKind, Timestamp, WorkerKey, WorldKey,
};
use dwbase::clock::Instant;
use dwbase::engine::{
    DWBaseEngine, Embedder, Gatekeeper, Now, StorageEngine, StreamEngine, VectorEngine,
};
use dwbase::index::IndexMetadata;
use dwbase::model::{
    AtomFilter, DwbaseError, NewAtom, Question, Result, StorageStats, TimeWindow, WorldAction,
    WorldMeta,
};
use dwbase::moment::{parse_or_epoch, parse_ts};
use dwbase::single::Single;

fn number(value: f32) -> Single {
    Single::from_bits(value.to_bits())
}

fn value(n: Single) -> f32 {
    f32::from_bits(n.to_bits())
}

/// Importance, less what is superseded or contradicted, more what is confirmed.
fn score(importance: Single, superseded: bool, contradicted: usize, confirmed: usize) -> Single {
    let mut score = value(importance);
    if superseded {
        score -= 1.0;
    }
    if contradicted > 0 {
        score -= 0.3 * contradicted as f32;
    }
    if confirmed > 0 {
        score += 0.2 * confirmed as f32;
    }
    number(score)
}

fn read(text: &str) -> Option<Single> {
    text.parse::<f32>().ok().map(number)
}

fn now_at(nanos: u64) -> Now {
    Now {
        instant: Instant { nanos },
        timestamp: Timestamp::new("2024-03-01T00:00:00Z"),
    }
}

fn at_second(second: u8) -> Timestamp {
    Timestamp::new(&format!("2024-03-01T00:00:{second:02}Z"))
}

fn today() -> Timestamp {
    Timestamp::new("2024-03-01T00:00:00Z")
}

struct AllowGatekeeper;

impl Gatekeeper for AllowGatekeeper {
    fn check_remember(&mut self, _new_atom: &NewAtom) -> Result<()> {
        Ok(())
    }

    fn check_ask(&mut self, _question: &Question) -> Result<()> {
        Ok(())
    }

    fn check_world_action(&mut self, _action: &WorldAction) -> Result<()> {
        Ok(())
    }
}

struct DenyGatekeeper;

impl Gatekeeper for DenyGatekeeper {
    fn check_remember(&mut self, _new_atom: &NewAtom) -> Result<()> {
        Err(DwbaseError::CapabilityDenied("remember".into()))
    }

    fn check_ask(&mut self, _question: &Question) -> Result<()> {
        Err(DwbaseError::CapabilityDenied("ask".into()))
    }

    fn check_world_action(&mut self, _action: &WorldAction) -> Result<()> {
        Err(DwbaseError::CapabilityDenied("world".into()))
    }
}

#[derive(Default)]
struct NumberEmbedder {
    embedded: Vec<String>,
}

impl Embedder for NumberEmbedder {
    fn embed(&mut self, payload_json: &str) -> Result<Option<Vec<Single>>> {
        self.embedded.push(payload_json.to_string());
        let parts: Vec<Single> = payload_json
            .split(',')
            .filter_map(|p| p.trim().parse::<f32>().ok())
            .map(number)
            .collect();
        if parts.is_empty() {
            Ok(None)
        } else {
            Ok(Some(parts))
        }
    }

    fn model_version(&self) -> &'static str {
        "dummy-test"
    }
}

#[derive(Default)]
struct MemStorage {
    atoms: Vec<Atom>,
    /// The names of the calls made, in order.
    calls: Vec<&'static str>,
    /// What was asked to be deleted.
    deleted: Vec<(WorldKey, Vec<AtomId>)>,
}

impl StorageEngine for MemStorage {
    fn append(&mut self, atom: Atom) -> Result<()> {
        self.calls.push("append");
        self.atoms.push(atom);
        Ok(())
    }

    fn get_by_ids(&mut self, ids: &[AtomId]) -> Result<Vec<Atom>> {
        self.calls.push("get_by_ids");
        let atoms = &self.atoms;
        Ok(atoms
            .iter()
            .filter(|a| ids.contains(a.id()))
            .cloned()
            .collect())
    }

    fn scan(&mut self, world: &WorldKey, filter: &AtomFilter) -> Result<Vec<Atom>> {
        self.calls.push("scan");
        let atoms = &self.atoms;
        let mut results = Vec::new();
        for atom in atoms.iter() {
            if atom.world() != world {
                continue;
            }
            if !filter.kinds.is_empty() && !filter.kinds.contains(atom.kind()) {
                continue;
            }
            if !filter.labels.is_empty()
                && !filter.labels.iter().all(|l| atom.labels().contains(l))
            {
                continue;
            }
            if !filter.flags.is_empty() && !filter.flags.iter().all(|f| atom.flags().contains(f)) {
                continue;
            }
            results.push(atom.clone());
        }
        Ok(results)
    }

    fn stats(&mut self, _world: &WorldKey) -> Result<StorageStats> {
        Ok(StorageStats {
            atom_count: self.atoms.len(),
            vector_count: 0,
        })
    }

    fn list_ids_in_window(&mut self, world: &WorldKey, window: &TimeWindow) -> Result<Vec<AtomId>> {
        let atoms = &self.atoms;
        Ok(atoms
            .iter()
            .filter(|a| a.world() == world)
            .filter(|a| match parse_ts(a.timestamp()) {
                Ok(moment) => {
                    moment.millis() >= window.start_ms && moment.millis() <= window.end_ms
                }
                Err(_) => false,
            })
            .map(|a| a.id().clone())
            .collect())
    }

    fn delete_atoms(&mut self, world: &WorldKey, ids: &[AtomId]) -> Result<usize> {
        self.calls.push("delete_atoms");
        self.deleted.push((world.clone(), ids.to_vec()));
        let atoms = &mut self.atoms;
        let before = atoms.len();
        atoms.retain(|a| !(a.world() == world && ids.contains(a.id())));
        Ok(before.saturating_sub(atoms.len()))
    }

    fn worlds(&mut self) -> Result<Vec<WorldKey>> {
        self.calls.push("worlds");
        let mut worlds: Vec<WorldKey> = Vec::new();
        for atom in self.atoms.iter() {
            if !worlds.contains(atom.world()) {
                worlds.push(atom.world().clone());
            }
        }
        Ok(worlds)
    }
}

#[derive(Default)]
struct MemVector {
    data: Vec<(AtomId, Vec<f32>)>,
    calls: Vec<&'static str>,
}

impl VectorEngine for MemVector {
    fn upsert(&mut self, _world: &WorldKey, atom_id: &AtomId, vector: &[Single]) -> Result<()> {
        self.calls.push("upsert");
        let data = &mut self.data;
        data.retain(|(id, _)| id != atom_id);
        data.push((atom_id.clone(), vector.iter().map(|n| value(*n)).collect()));
        Ok(())
    }

    fn search(
        &mut self,
        _world: &WorldKey,
        query: &[Single],
        k: usize,
        _filter: &AtomFilter,
    ) -> Result<Vec<AtomId>> {
        self.calls.push("search");
        let mut pairs: Vec<(AtomId, f32)> = self
            .data
            .iter()
            .map(|(id, v)| {
                let dist = v
                    .iter()
                    .zip(query.iter())
                    .map(|(a, b)| (a - value(*b)) * (a - value(*b)))
                    .sum();
                (id.clone(), dist)
            })
            .collect();
        pairs.sort_by(|a, b| a.1.partial_cmp(&b.1).unwrap());
        Ok(pairs.into_iter().take(k).map(|(id, _)| id).collect())
    }

    fn rebuild(&mut self, _world: &WorldKey) -> Result<()> {
        self.calls.push("rebuild");
        Ok(())
    }
}

#[derive(Default)]
struct MemStream {
    published: Vec<AtomId>,
    next: usize,
    subscribers: HashMap<usize, (AtomFilter, Vec<Atom>)>,
}

impl StreamEngine for MemStream {
    type Handle = usize;

    fn publish(&mut self, atom: &Atom) -> Result<()> {
        self.published.push(atom.id().clone());
        for (filter, queue) in self.subscribers.values_mut() {
            let mut wanted = true;
            if let Some(world) = &filter.world {
                wanted &= atom.world() == world;
            }
            if !filter.kinds.is_empty() && !filter.kinds.contains(atom.kind()) {
                wanted = false;
            }
            if wanted {
                queue.push(atom.clone());
            }
        }
        Ok(())
    }

    fn subscribe(&mut self, _world: &WorldKey, filter: AtomFilter) -> Result<usize> {
        let id = self.next;
        self.next += 1;
        self.subscribers.insert(id, (filter, Vec::new()));
        Ok(id)
    }

    fn poll(&mut self, handle: &usize) -> Result<Option<Atom>> {
        match self.subscribers.get_mut(handle) {
            Some((_, queue)) if queue.is_empty() => Ok(None),
            Some((_, queue)) => Ok(Some(queue.remove(0))),
            None => Err(DwbaseError::Stream(format!("unknown handle {handle}"))),
        }
    }

    fn stop(&mut self, handle: usize) -> Result<()> {
        self.subscribers.remove(&handle);
        Ok(())
    }
}

type TestEngine =
    DWBaseEngine<MemStorage, MemVector, MemStream, AllowGatekeeper, NumberEmbedder>;

fn engine_components() -> TestEngine {
    DWBaseEngine::new(
        MemStorage::default(),
        MemVector::default(),
        MemStream::default(),
        AllowGatekeeper,
        NumberEmbedder::default(),
    )
}

fn new_atom_with(ts: &str, payload: &str, label: &str) -> NewAtom {
    NewAtom {
        world: WorldKey::new("w1"),
        worker: WorkerKey::new("worker-1"),
        kind: AtomKind::Observation,
        timestamp: Timestamp::new(ts),
        importance: Importance::new(number(0.5)).unwrap(),
        payload_json: payload.into(),
        vector: None,
        flags: vec![],
        labels: vec![label.into()],
        links: vec![],
    }
}

fn question(world: &str, text: &str) -> Question {
    Question {
        world: WorldKey::new(world),
        text: text.into(),
        filter: None,
    }
}

fn ids_of(atoms: &[Atom]) -> Vec<AtomId> {
    atoms.iter().map(|a| a.id().clone()).collect()
}

#[test]
fn remember_and_ask_returns_ranked_atoms() {
    let mut engine = engine_components();
    let a1 = new_atom_with("2024-01-01T00:00:01Z", "0,0", "a1");
    let a2 = new_atom_with("2024-01-01T00:00:00Z", "10,10", "a2");

    let id1 = engine.remember(a1, &now_at(0)).expect("remember a1");
    let id2 = engine.remember(a2, &now_at(0)).expect("remember a2");

    assert_ne!(id1, id2);

    let answer = engine
        .ask(question("w1", "0,0"), &today(), &score)
        .expect("ask");
    let ids = ids_of(&answer.supporting_atoms);
    assert_eq!(ids.first().unwrap(), &id1);
    assert!(ids.contains(&id2));
}

#[test]
fn superseded_atoms_downranked() {
    let mut engine = engine_components();
    let base = new_atom_with("2024-01-01T00:00:00Z", "p", "base");
    let base_id = engine.remember(base, &now_at(0)).expect("base");

    let newer = NewAtom {
        world: WorldKey::new("w1"),
        worker: WorkerKey::new("worker-1"),
        kind: AtomKind::Observation,
        timestamp: Timestamp::new("2024-01-01T00:00:05Z"),
        importance: Importance::new(number(0.5)).unwrap(),
        payload_json: "p-new".into(),
        vector: None,
        flags: vec![],
        labels: vec![],
        links: vec![Link::new(base_id.clone(), LinkKind::Supersedes)],
    };
    let newer_id = engine.remember(newer, &now_at(0)).expect("newer");

    let answer = engine
        .ask(question("w1", "p"), &today(), &score)
        .expect("ask");
    let ids = ids_of(&answer.supporting_atoms);
    assert_eq!(ids.first(), Some(&newer_id));
    assert!(ids.contains(&base_id));
}

#[test]
fn gc_retains_linked_and_policy_atoms() {
    let mut engine = engine_components();
    let base = new_atom_with("2024-01-01T00:00:00Z", "p", "keep");
    let base_id = engine.remember(base, &now_at(0)).unwrap();
    let linker = NewAtom {
        world: WorldKey::new("w1"),
        worker: WorkerKey::new("w1-worker"),
        kind: AtomKind::Observation,
        timestamp: Timestamp::new("2024-01-02T00:00:00Z"),
        importance: Importance::new(number(0.5)).unwrap(),
        payload_json: "linker".into(),
        vector: None,
        flags: vec![],
        labels: vec![],
        links: vec![Link::new(base_id, LinkKind::References)],
    };
    engine.remember(linker, &now_at(0)).unwrap();

    // Add a retention policy atom.
    let policy = NewAtom {
        world: WorldKey::new("w1"),
        worker: WorkerKey::new("w1-worker"),
        kind: AtomKind::Reflection,
        timestamp: Timestamp::new("2024-01-03T00:00:00Z"),
        importance: Importance::new(number(0.5)).unwrap(),
        payload_json: "policy".into(),
        vector: None,
        flags: vec![],
        labels: vec!["policy:retention_days=0".into()],
        links: vec![],
    };
    engine.remember(policy, &now_at(0)).unwrap();

    // GC should not delete the linked base despite retention=0 because it is referenced.
    let evicted = engine.gc_once(None, &read).unwrap();
    assert_eq!(evicted, 0);
    let replayed = engine
        .replay(WorldKey::new("w1"), AtomFilter::default())
        .unwrap();
    assert_eq!(replayed.len(), 3);
}

#[test]
fn gc_applies_retention_and_min_importance() {
    let mut engine = engine_components();
    let old_low = NewAtom {
        world: WorldKey::new("w1"),
        worker: WorkerKey::new("w1-worker"),
        kind: AtomKind::Observation,
        timestamp: Timestamp::new("2020-01-01T00:00:00Z"),
        importance: Importance::new(number(0.1)).unwrap(),
        payload_json: "old".into(),
        vector: None,
        flags: vec![],
        labels: vec![],
        links: vec![],
    };
    let recent = new_atom_with("2024-01-01T00:00:00Z", "new", "recent");
    engine.remember(old_low, &now_at(0)).unwrap();
    engine.remember(recent, &now_at(0)).unwrap();
    let policy = NewAtom {
        world: WorldKey::new("w1"),
        worker: WorkerKey::new("w1-worker"),
        kind: AtomKind::Reflection,
        timestamp: Timestamp::new("2024-01-02T00:00:00Z"),
        importance: Importance::new(number(0.5)).unwrap(),
        payload_json: "policy".into(),
        vector: None,
        flags: vec![],
        labels: vec![
            "policy:retention_days=365".into(),
            "policy:min_importance=0.2".into(),
        ],
        links: vec![],
    };
    engine.remember(policy, &now_at(0)).unwrap();

    let evicted = engine.gc_once(None, &read).unwrap();
    assert_eq!(evicted, 1);
    let remaining = engine
        .replay(WorldKey::new("w1"), AtomFilter::default())
        .unwrap();
    assert_eq!(remaining.len(), 2);
}

#[test]
fn contradicted_atoms_downranked_but_present() {
    let mut engine = engine_components();
    let base = new_atom_with("2024-01-01T00:00:00Z", "p", "base");
    let base_id = engine.remember(base, &now_at(0)).expect("base");

    let contradictor = NewAtom {
        world: WorldKey::new("w1"),
        worker: WorkerKey::new("worker-2"),
        kind: AtomKind::Observation,
        timestamp: Timestamp::new("2024-01-01T00:00:10Z"),
        importance: Importance::new(number(0.5)).unwrap(),
        payload_json: "p-alt".into(),
        vector: None,
        flags: vec![],
        labels: vec![],
        links: vec![Link::new(base_id.clone(), LinkKind::Contradicts)],
    };
    let contra_id = engine
        .remember(contradictor, &now_at(0))
        .expect("contradictor");

    let answer = engine
        .ask(question("w1", "p"), &today(), &score)
        .expect("ask");
    let ids = ids_of(&answer.supporting_atoms);
    assert_eq!(ids.first(), Some(&contra_id));
    assert!(ids.contains(&base_id));
}

#[test]
fn suspicious_atoms_are_quarantined_and_excluded() {
    let mut engine = engine_components();
    let suspicious = NewAtom {
        world: WorldKey::new("wq"),
        worker: WorkerKey::new("lowtrust-bot"),
        kind: AtomKind::Observation,
        timestamp: Timestamp::new(""),
        importance: Importance::new(number(0.9)).unwrap(),
        payload_json: "nan value".into(),
        vector: None,
        flags: vec![],
        labels: vec![],
        links: vec![],
    };
    let _ = engine
        .remember(suspicious, &now_at(0))
        .expect("quarantine");

    let answer = engine
        .ask(question("wq", "nan"), &today(), &score)
        .expect("ask");
    assert!(
        answer.supporting_atoms.is_empty(),
        "quarantine filtered for normal world"
    );

    let answer_q = engine
        .ask(question("quarantine:wq", "nan"), &today(), &score)
        .expect("ask quarantine");
    assert_eq!(answer_q.supporting_atoms.len(), 1);
    assert!(answer_q.supporting_atoms[0]
        .flags()
        .iter()
        .any(|f| f == "suspect"));
}

#[test]
fn manage_world_create_adds_world_and_meta() {
    let mut engine = engine_components();
    let world = WorldKey::new("tenant:demo/new");
    engine
        .manage_world(
            WorldAction::Create(WorldMeta {
                world: world.clone(),
                description: Some("demo".into()),
                labels: vec!["team:demo".into()],
            }),
            &today(),
        )
        .expect("manage world");
    let worlds = engine.worlds().unwrap();
    assert!(worlds.contains(&world));
    assert!(!engine.world_archived(&world).unwrap());
}

#[test]
fn manage_world_archive_and_resume_flip_status() {
    let mut engine = engine_components();
    let world = WorldKey::new("tenant:demo/archive");
    engine
        .manage_world(
            WorldAction::Create(WorldMeta {
                world: world.clone(),
                description: None,
                labels: vec![],
            }),
            &at_second(1),
        )
        .unwrap();
    engine
        .manage_world(WorldAction::Archive(world.clone()), &at_second(2))
        .unwrap();
    assert!(engine.world_archived(&world).unwrap());
    engine
        .manage_world(WorldAction::Resume(world.clone()), &at_second(3))
        .unwrap();
    assert!(!engine.world_archived(&world).unwrap());
}

#[test]
fn worlds_excludes_archived_by_default() {
    let mut engine = engine_components();
    let active = WorldKey::new("tenant:demo/active");
    let archived = WorldKey::new("tenant:demo/archived");
    engine
        .manage_world(
            WorldAction::Create(WorldMeta {
                world: active.clone(),
                description: None,
                labels: vec![],
            }),
            &at_second(1),
        )
        .unwrap();
    engine
        .manage_world(
            WorldAction::Create(WorldMeta {
                world: archived.clone(),
                description: None,
                labels: vec![],
            }),
            &at_second(2),
        )
        .unwrap();
    engine
        .manage_world(WorldAction::Archive(archived.clone()), &at_second(3))
        .unwrap();
    let worlds = engine.worlds().unwrap();
    assert!(worlds.contains(&active));
    assert!(!worlds.contains(&archived));

    let with_archived = engine.worlds_filtered(true).unwrap();
    assert!(with_archived.contains(&archived));
}

#[test]
fn policy_atoms_respect_policy_world_conventions() {
    let mut engine = engine_components();
    let world = WorldKey::new("tenant:acme/alpha");
    engine
        .manage_world(
            WorldAction::Create(WorldMeta {
                world: world.clone(),
                description: Some("alpha".into()),
                labels: vec!["team:alpha".into()],
            }),
            &today(),
        )
        .unwrap();

    let per_world_policy = NewAtom {
        world: WorldKey::new("policy:tenant:acme/alpha"),
        worker: WorkerKey::new("policy-tester"),
        kind: AtomKind::Reflection,
        timestamp: Timestamp::new("2024-02-01T00:00:00Z"),
        importance: Importance::clamped(number(0.2)),
        payload_json: "policy".into(),
        vector: None,
        flags: vec![],
        labels: vec![
            "policy:retention_days=1".into(),
            "policy:min_importance=0.4".into(),
            "policy:replication_allow=tenant:acme/".into(),
        ],
        links: vec![],
    };
    engine.remember(per_world_policy, &now_at(0)).unwrap();

    let tenant_policy = NewAtom {
        world: WorldKey::new("tenant:acme/policy"),
        worker: WorkerKey::new("policy-tester"),
        kind: AtomKind::Reflection,
        timestamp: Timestamp::new("2024-02-02T00:00:00Z"),
        importance: Importance::clamped(number(0.2)),
        payload_json: "policy".into(),
        vector: None,
        flags: vec![],
        labels: vec![
            "policy:replication_deny=tenant:acme/private".into(),
            "policy:retention_min_days=7".into(),
        ],
        links: vec![],
    };
    engine.remember(tenant_policy, &now_at(0)).unwrap();

    let policy = engine.parse_policy(&vec![], &world, &read);
    assert_eq!(policy.retention_days, Some(7));
    assert_eq!(policy.min_importance, Some(number(0.4)));
    assert!(policy
        .replication_allow
        .contains(&"tenant:acme/".to_string()));
    assert!(policy
        .replication_deny
        .contains(&"tenant:acme/private".to_string()));
}

#[test]
fn embedder_change_triggers_index_metadata_update() {
    let mut engine = engine_components();
    let world = WorldKey::new("w1");
    engine.set_index_metadata(IndexMetadata {
        world: world.clone(),
        version: 0,
        embedder_version: "old".into(),
        last_rebuilt: Timestamp::new("2024-01-01T00:00:00Z"),
        ready: true,
        rebuilding: true,
        progress: number(0.0),
        started_at: Some(Timestamp::new("2024-01-01T00:00:00Z")),
        last_progress: None,
    });
    engine
        .remember(
            new_atom_with("2024-01-01T00:00:00Z", "1,2", "x"),
            &now_at(0),
        )
        .unwrap();
    let meta = engine
        .index_status()
        .into_iter()
        .find(|m| m.world == world)
        .expect("meta");
    assert!(meta.ready);
    assert_ne!(meta.embedder_version, "old");
    assert!(meta.version >= 1);
    assert_eq!(meta.progress, number(1.0));
    assert!(!meta.rebuilding);
}

#[test]
fn rebuild_lag_reports_inflight() {
    let mut engine = engine_components();
    let world = WorldKey::new("w-lag");
    engine.set_index_metadata(IndexMetadata {
        world: world.clone(),
        version: 1,
        embedder_version: "v1".into(),
        last_rebuilt: Timestamp::new("2024-01-01T00:00:00Z"),
        ready: false,
        rebuilding: true,
        progress: number(0.3),
        started_at: Some(Timestamp::new("2024-01-02T00:00:00Z")),
        last_progress: Some(Timestamp::new("2024-01-02T00:00:00Z")),
    });
    let lag = engine.max_index_rebuild_lag_ms(parse_or_epoch(&today()));
    assert!(lag.is_some());
    assert!(lag.unwrap() > 0);
    assert_eq!(lag, Some(59 * 24 * 3600 * 1000));
}

#[test]
fn refused_requests_change_nothing() {
    let mut engine = DWBaseEngine::new(
        MemStorage::default(),
        MemVector::default(),
        MemStream::default(),
        DenyGatekeeper,
        NumberEmbedder::default(),
    );
    assert_eq!(
        engine.remember(new_atom_with("2024-01-01T00:00:00Z", "p", "x"), &now_at(0)),
        Err(DwbaseError::CapabilityDenied("remember".into()))
    );
    assert_eq!(
        engine.ask(question("w1", "p"), &today(), &score).err(),
        Some(DwbaseError::CapabilityDenied("ask".into()))
    );
    assert_eq!(
        engine.manage_world(WorldAction::Archive(WorldKey::new("w1")), &today()),
        Err(DwbaseError::CapabilityDenied("world".into()))
    );
    assert!(engine
        .replay(WorldKey::new("w1"), AtomFilter::default())
        .unwrap()
        .is_empty());
}

#[test]
fn known_remote_atoms_are_not_taken_in_again() {
    let mut engine = engine_components();
    let remote = Atom::builder(
        AtomId::new("remote-1"),
        WorldKey::new("w1"),
        WorkerKey::new("elsewhere"),
        AtomKind::Message,
        Timestamp::new("2024-01-01T00:00:00Z"),
        Importance::clamped(number(0.5)),
        "1,1",
    )
    .build();
    let first = engine.ingest_remote_atoms(vec![remote.clone()]).unwrap();
    assert_eq!(first, vec![AtomId::new("remote-1")]);
    let second = engine.ingest_remote_atoms(vec![remote]).unwrap();
    assert!(second.is_empty());
    assert_eq!(
        engine
            .replay(WorldKey::new("w1"), AtomFilter::default())
            .unwrap()
            .len(),
        1
    );
    assert_eq!(engine.get_atoms(&[AtomId::new("remote-1")]).unwrap().len(), 1);
}

#[test]
fn equal_scores_rank_by_recency() {
    let mut engine = engine_components();
    let older = engine
        .remember(new_atom_with("2024-01-01T00:00:00Z", "p", "a"), &now_at(0))
        .unwrap();
    let newer = engine
        .remember(new_atom_with("2024-01-01T00:00:09Z", "p", "b"), &now_at(0))
        .unwrap();
    let answer = engine
        .ask(question("w1", "p"), &today(), &score)
        .expect("ask");
    assert_eq!(ids_of(&answer.supporting_atoms), vec![newer, older]);
}

#[test]
fn remembered_atoms_are_streamed() {
    let mut engine = engine_components();
    let handle = engine
        .stream
        .subscribe(&WorldKey::new("w1"), AtomFilter::default())
        .unwrap();
    let id = engine
        .remember(new_atom_with("2024-01-01T00:00:00Z", "p", "a"), &now_at(0))
        .unwrap();
    let seen = engine.stream.poll(&handle).unwrap().unwrap();
    assert_eq!(seen.id(), &id);
    assert!(engine.stream.poll(&handle).unwrap().is_none());
}

#[test]
fn repeated_archive_adds_no_atom() {
    let mut engine = engine_components();
    let world = WorldKey::new("w9");
    engine
        .manage_world(WorldAction::Archive(world.clone()), &today())
        .unwrap();
    let once = engine.storage.atoms.len();
    engine
        .manage_world(WorldAction::Archive(world.clone()), &today())
        .unwrap();
    assert_eq!(engine.storage.atoms.len(), once);
    assert_eq!(engine.world_status(&world).unwrap(), Some("archived".into()));
}

#[test]
fn moments_are_read_from_timestamps() {
    let epoch = parse_ts(&Timestamp::new("1970-01-01T00:00:00Z")).unwrap();
    assert_eq!(epoch.millis(), 0);
    let later = parse_ts(&Timestamp::new("1970-01-01T00:00:01.500Z")).unwrap();
    assert_eq!(later.millis(), 1500);
    assert_eq!(later.millis_since(epoch), 1500);
    assert_eq!(epoch.millis_since(later), 0);
    let shifted = parse_ts(&Timestamp::new("1970-01-01T01:00:00+01:00")).unwrap();
    assert_eq!(shifted.millis(), 0);
    let err = parse_ts(&Timestamp::new("yesterday")).unwrap_err();
    assert!(matches!(err, DwbaseError::InvalidInput(_)));
    assert_eq!(parse_or_epoch(&Timestamp::new("")).millis(), 0);
}

fn observation(world: &str, ts: &str, importance: f32, payload: &str) -> NewAtom {
    let mut atom = new_atom_with(ts, payload, "x");
    atom.world = WorldKey::new(world);
    atom.importance = Importance::new(number(importance)).unwrap();
    atom
}

#[test]
fn newer_atoms_come_before_more_important_ones() {
    let mut engine = engine_components();
    let x = engine
        .remember(observation("w1", "2024-01-01T00:00:01Z", 0.2, "p"), &now_at(0))
        .unwrap();
    let y = engine
        .remember(observation("w1", "2024-01-01T00:00:00Z", 0.9, "p"), &now_at(0))
        .unwrap();
    let z = engine
        .remember(observation("w1", "2024-01-01T00:00:00Z", 0.3, "p"), &now_at(0))
        .unwrap();
    let answer = engine
        .ask(question("w1", "p"), &today(), &score)
        .unwrap();
    assert_eq!(ids_of(&answer.supporting_atoms), [x, y, z]);
}

#[test]
fn remember_calls_each_component_once() {
    let mut engine = engine_components();
    let id = engine
        .remember(new_atom_with("2024-01-01T00:00:00Z", "1,2", "x"), &now_at(0))
        .unwrap();
    assert_eq!(engine.embedder.embedded, ["1,2"]);
    assert_eq!(engine.vector.calls, ["upsert"]);
    assert_eq!(engine.storage.calls, ["append"]);
    assert_eq!(engine.stream.published, [id]);
}

#[test]
fn refused_submission_reaches_no_other_component() {
    let mut engine = DWBaseEngine::new(
        MemStorage::default(),
        MemVector::default(),
        MemStream::default(),
        DenyGatekeeper,
        NumberEmbedder::default(),
    );
    assert!(engine
        .remember(new_atom_with("2024-01-01T00:00:00Z", "1,2", "x"), &now_at(0))
        .is_err());
    assert!(engine.embedder.embedded.is_empty());
    assert!(engine.vector.calls.is_empty());
    assert!(engine.storage.calls.is_empty());
    assert!(engine.stream.published.is_empty());
    assert_eq!(engine.id_gen, 1);
}

#[test]
fn submission_with_a_bad_timestamp_is_appended_but_not_published() {
    let mut engine = engine_components();
    let r = engine.remember(new_atom_with("not-a-time", "1,2", "x"), &now_at(0));
    assert!(r.is_err());
    assert_eq!(engine.storage.calls, ["append"]);
    assert!(engine.stream.published.is_empty());
}

#[test]
fn gc_deletes_exactly_the_evicted_atoms() {
    let mut engine = engine_components();
    let low = engine
        .remember(observation("w1", "2024-01-01T00:00:00Z", 0.1, "a"), &now_at(0))
        .unwrap();
    let high = engine
        .remember(observation("w1", "2024-01-01T00:00:00Z", 0.9, "b"), &now_at(0))
        .unwrap();
    let mut policy = observation("policy:w1", "2024-01-01T00:00:00Z", 1.0, "{}");
    policy.labels = vec!["policy:min_importance=0.5".into()];
    engine.remember(policy, &now_at(0)).unwrap();
    assert_eq!(engine.gc_once(None, &read).unwrap(), 1);
    assert_eq!(engine.storage.deleted, [(WorldKey::new("w1"), vec![low])]);
    assert!(engine.storage.atoms.iter().any(|a| *a.id() == high));
}

#[test]
fn repeated_transition_only_reads_the_status() {
    let mut engine = engine_components();
    let world = WorldKey::new("w1");
    engine
        .manage_world(WorldAction::Archive(world.clone()), &today())
        .unwrap();
    engine.storage.calls.clear();
    engine.stream.published.clear();
    engine
        .manage_world(WorldAction::Archive(world), &today())
        .unwrap();
    assert_eq!(engine.storage.calls, ["scan"]);
    assert!(engine.stream.published.is_empty());
}

#[test]
fn only_new_remote_atoms_are_appended_and_published() {
    let mut engine = engine_components();
    let atom = |id: &str| {
        Atom::builder(
            AtomId::new(id),
            WorldKey::new("w1"),
            WorkerKey::new("peer"),
            AtomKind::Observation,
            Timestamp::new("2024-01-01T00:00:00Z"),
            Importance::new(number(0.5)).unwrap(),
            "{}",
        )
        .build()
    };
    engine.ingest_remote_atoms(vec![atom("a")]).unwrap();
    engine.storage.calls.clear();
    engine.stream.published.clear();
    let taken = engine
        .ingest_remote_atoms(vec![atom("a"), atom("b"), atom("b")])
        .unwrap();
    assert_eq!(taken, [AtomId::new("b")]);
    assert_eq!(
        engine.storage.calls,
        ["get_by_ids", "get_by_ids", "append", "get_by_ids"]
    );
    assert_eq!(engine.stream.published, [AtomId::new("b")]);
}
