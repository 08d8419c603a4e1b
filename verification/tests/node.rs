use dwbase::atom::{
    Atom, AtomId, AtomKind, Importance, LinkKind, Timestamp, WorkerKey, WorldKey,
};
use dwbase::clock::Instant;
use dwbase::engine::{
    DWBaseEngine, Embedder, Gatekeeper, Now, StreamEngine, VectorEngine,
};
use dwbase::index::IndexMetadata;
use dwbase::keys::EnvKeyProvider;
use dwbase::model::{
    Answer, AtomFilter, DwbaseError, NewAtom, Question, Result, WorldAction,
};
use dwbase::moment::parse_or_epoch;
use dwbase::json::JsonValue;
use dwbase::node::{
    config_path, disk_usage, health, merge_worlds, note_world, readiness, requires_indexes,
    track_world, unlisted_worlds, world_action, ApiError, DiskReading, DiskUsage, DummyEmbedder,
    EmbedderConfig, HealthConfig, NumberText, WorldPolicyRequest,
};
use dwbase::single::Single;
use dwbase::sled_store::{SledConfig, SledStorage};
use dwbase::wit::{
    ClientConfig, EngineApi, WitAtom, WitHostAdapter, WitHostError, WitLink, WitNewAtom,
};
use tempfile::TempDir;

fn number(value: f32) -> Single {
    Single::from_bits(value.to_bits())
}

fn score(importance: Single, _superseded: bool, _contradicted: usize, _confirmed: usize) -> Single {
    importance
}

struct NoVectors;

impl VectorEngine for NoVectors {
    fn upsert(&mut self, _world: &WorldKey, _id: &AtomId, _vector: &[Single]) -> Result<()> {
        Ok(())
    }

    fn search(
        &mut self,
        _world: &WorldKey,
        _query: &[Single],
        _k: usize,
        _filter: &AtomFilter,
    ) -> Result<Vec<AtomId>> {
        Ok(vec![])
    }

    fn rebuild(&mut self, _world: &WorldKey) -> Result<()> {
        Ok(())
    }
}

struct NoStream;

impl StreamEngine for NoStream {
    type Handle = ();

    fn publish(&mut self, _atom: &Atom) -> Result<()> {
        Ok(())
    }

    fn subscribe(&mut self, _world: &WorldKey, _filter: AtomFilter) -> Result<()> {
        Ok(())
    }

    fn poll(&mut self, _handle: &()) -> Result<Option<Atom>> {
        Ok(None)
    }

    fn stop(&mut self, _handle: ()) -> Result<()> {
        Ok(())
    }
}

struct OpenGate;

impl Gatekeeper for OpenGate {
    fn check_remember(&mut self, _new_atom: &NewAtom) -> Result<()> {
        Ok(())
    }

    fn check_ask(&mut self, _question: &Question) -> Result<()> {
        Ok(())
    }

    fn check_world_action(&mut self, _action: &WorldAction) -> Result<()> {
        Ok(())
    }
}

fn build_engine(
    tmp: &TempDir,
) -> DWBaseEngine<SledStorage<EnvKeyProvider>, NoVectors, NoStream, OpenGate, DummyEmbedder> {
    let mut config = SledConfig::new(tmp.path().to_str().unwrap());
    config.flush_on_write = true;
    let storage = SledStorage::open_with_env(config, EnvKeyProvider::new()).expect("sled");
    DWBaseEngine::new(
        storage,
        NoVectors,
        NoStream,
        OpenGate,
        DummyEmbedder::new(),
    )
}

fn reading(percent: f32, threshold: f32) -> DiskReading {
    DiskReading {
        usage: DiskUsage {
            used_bytes: 1,
            total_bytes: 2,
            percent_used: number(percent),
        },
        threshold: number(threshold),
        percent_text: format!("{percent:.1}"),
        threshold_text: format!("{threshold:.1}"),
    }
}

#[test]
fn parses_embedder_config() {
    let config: toml::Value = toml::from_str(
        r#"
[node]
data_dir = "./data"
embedder = "dummy"
"#,
    )
    .expect("config");
    let name = config["node"]["embedder"].as_str().unwrap();
    assert!(matches!(
        EmbedderConfig::named(name),
        Some(EmbedderConfig::Dummy)
    ));
    assert_eq!(EmbedderConfig::named("Dummy"), None);
    assert_eq!(EmbedderConfig::default(), EmbedderConfig::Dummy);
    assert_eq!(EmbedderConfig::Dummy.build().model_version(), "dummy");
}

#[test]
fn readyz_returns_ok_on_fresh_state() {
    let tmp = TempDir::new().unwrap();
    let mut engine = build_engine(&tmp);
    let lag = engine.max_index_rebuild_lag_ms(parse_or_epoch(&Timestamp::new("2024-01-01T00:00:00Z")));
    let resp = readiness(
        Some(reading(50.0, 100.0)),
        lag,
        engine.storage_ready(),
        &engine.index_status(),
        requires_indexes(None),
    );
    assert_eq!(resp.0, 200);
}

#[test]
fn remember_and_ask_flow_sets_correlation() {
    let tmp = TempDir::new().unwrap();
    let mut engine = build_engine(&tmp);
    let now = Now {
        instant: Instant { nanos: 1 },
        timestamp: Timestamp::new("2024-01-01T00:00:00Z"),
    };
    let world = WorldKey::new("w1");
    let atom = NewAtom {
        world: world.clone(),
        worker: WorkerKey::new("w"),
        kind: AtomKind::Observation,
        timestamp: Timestamp::new("2024-01-01T00:00:00Z"),
        importance: Importance::clamped(number(0.5)),
        payload_json: "{}".into(),
        vector: None,
        flags: vec![],
        labels: vec![],
        links: vec![],
    };
    let id = engine.remember(atom, &now).expect("remember");
    let ans = engine
        .ask(
            Question {
                world: world.clone(),
                text: "hi".into(),
                filter: None,
            },
            &now.timestamp,
            &score,
        )
        .expect("ask");
    assert_eq!(ans.world, world);
    assert_eq!(ans.supporting_atoms.len(), 1);
    assert_eq!(ans.supporting_atoms[0].id(), &id);
}

#[test]
fn readiness_tells_what_is_missing() {
    let index = |ready: bool| IndexMetadata {
        world: WorldKey::new("w"),
        version: 1,
        embedder_version: "e".into(),
        last_rebuilt: Timestamp::new("2024-01-01T00:00:00Z"),
        ready,
        rebuilding: false,
        started_at: None,
        progress: number(0.0),
        last_progress: None,
    };
    let (code, r) = readiness(None, None, true, &[], false);
    assert_eq!((code, r.status.as_str()), (200, "ready"));
    assert_eq!(r.message.as_deref(), Some("disk usage unavailable"));

    let (code, r) = readiness(Some(reading(95.04, 90.0)), None, true, &[], false);
    assert_eq!((code, r.status.as_str()), (503, "degraded"));
    assert_eq!(r.message.as_deref(), Some("disk usage 95.0% >= 90.0%"));

    let (code, r) = readiness(Some(reading(1.0, 90.0)), None, false, &[], false);
    assert_eq!(code, 503);
    assert_eq!(r.message.as_deref(), Some("storage unavailable"));

    let indexes = [index(true), index(false)];
    let (code, r) = readiness(Some(reading(1.0, 90.0)), None, true, &indexes, false);
    assert_eq!(code, 200);
    assert_eq!(r.message.as_deref(), Some("index not ready yet"));
    assert_eq!(r.index_rebuild_lag_ms, Some(0));
    let (code, r) = readiness(Some(reading(1.0, 90.0)), Some(7), true, &indexes, true);
    assert_eq!(code, 503);
    assert_eq!(r.status, "ready");
    assert_eq!(r.index_rebuild_lag_ms, Some(7));
    assert_eq!(readiness(Some(reading(1.0, 90.0)), None, true, &indexes[..1], true).0, 200);

    let unset = readiness(Some(reading(1.0, 90.0)), None, true, &indexes, requires_indexes(None));
    assert_eq!(unset.0, 503);
}

#[test]
fn health_warns_of_disk_and_lag() {
    let r = health(None, None, 60);
    assert_eq!(r.status, "degraded");
    assert_eq!(r.message.as_deref(), Some("unable to read disk usage"));
    let r = health(Some(reading(89.9, 90.0)), Some(60_000), 60);
    assert_eq!(r.status, "ready");
    assert_eq!(r.message, None);
    let r = health(Some(reading(90.0, 90.0)), None, 60);
    assert_eq!(r.message.as_deref(), Some("disk usage 90.0% >= 90.0%"));
    let r = health(Some(reading(99.0, 90.0)), Some(60_001), 60);
    assert_eq!(
        r.message.as_deref(),
        Some("index rebuild lag 60001ms exceeds 60000ms threshold")
    );
    let defaults = HealthConfig::default();
    assert_eq!(defaults.disk_usage_degraded, number(0.9));
    assert_eq!(defaults.index_rebuild_warn_seconds, 60);
}

#[test]
fn disk_usage_is_what_is_not_available() {
    let percent = |used: u64, total: u64| number((used as f64 / total as f64) as f32 * 100.0);
    let usage = disk_usage(Some(200), Some(50), &percent).unwrap();
    assert_eq!((usage.used_bytes, usage.total_bytes), (150, 200));
    assert_eq!(usage.percent_used, number(75.0));
    assert_eq!(
        disk_usage(Some(10), Some(50), &percent).unwrap().used_bytes,
        0
    );
    assert!(disk_usage(Some(0), Some(0), &percent).is_none());
    assert!(disk_usage(None, Some(1), &percent).is_none());
    assert!(disk_usage(Some(1), None, &percent).is_none());
}

#[test]
fn index_requirement_is_read_from_text() {
    assert!(requires_indexes(None));
    assert!(!requires_indexes(Some("0")));
    assert!(!requires_indexes(Some("FALSE")));
    assert!(requires_indexes(Some("1")));
    assert!(requires_indexes(Some("")));
}

#[test]
fn world_requests_become_actions() {
    let world = WorldKey::new("w");
    let labels = vec!["l".to_string()];
    let description = Some("d".to_string());
    match world_action("create", &world, &description, &labels) {
        Ok(WorldAction::Create(meta)) => {
            assert_eq!(meta.world, world);
            assert_eq!(meta.description, description);
            assert_eq!(meta.labels, labels);
        }
        other => panic!("unexpected {other:?}"),
    }
    assert!(matches!(
        world_action("archive", &world, &None, &vec![]),
        Ok(WorldAction::Archive(w)) if w == world
    ));
    assert!(matches!(
        world_action("resume", &world, &None, &vec![]),
        Ok(WorldAction::Resume(w)) if w == world
    ));
    let err = world_action("drop", &world, &None, &vec![]).unwrap_err();
    assert_eq!(err.status(), 400);
    assert_eq!(err.message(), "unknown action: drop");
    assert_eq!(ApiError::Engine("e".into()).status(), 500);
    assert_eq!(ApiError::Engine("e".into()).message(), "e");
}

#[test]
fn worlds_are_tracked_and_merged() {
    let key = |s: &str| WorldKey::new(s);
    let mut seen = vec![];
    note_world(&mut seen, &key("b"));
    note_world(&mut seen, &key("b"));
    track_world(&mut seen, "create", &key("c"));
    track_world(&mut seen, "resume", &key("c"));
    track_world(&mut seen, "create", &key("a"));
    track_world(&mut seen, "archive", &key("b"));
    assert_eq!(seen, [key("c"), key("a")]);
    let listed = vec![key("c"), key("x")];
    let others = unlisted_worlds(&listed, &vec![key("c"), key("z"), key("a")]);
    assert_eq!(others, [key("z"), key("a")]);
    assert_eq!(
        merge_worlds(listed, &others, &vec![true, false]),
        [key("a"), key("c"), key("x")]
    );
}

#[test]
fn policy_requests_become_atoms() {
    let now = Timestamp::new("2024-01-01T00:00:00Z");
    let request = WorldPolicyRequest {
        world: WorldKey::new("tenant:a/x"),
        retention_days: Some(7),
        min_importance: Some(NumberText {
            shown: "0.25".into(),
            json: JsonValue::Number(serde_json::Number::from_f64(0.25).unwrap()),
        }),
        replication_allow: vec!["n\"1".into()],
        replication_deny: vec!["n2".into()],
    };
    let atom = request.policy_atom(&now).unwrap();
    assert_eq!(atom.world, WorldKey::new("policy:tenant:a/x"));
    assert_eq!(atom.worker, WorkerKey::new("policy-cli"));
    assert_eq!(atom.kind, AtomKind::Reflection);
    assert_eq!(atom.importance.get(), number(0.2));
    assert_eq!(
        atom.labels,
        [
            "policy:retention_days=7",
            "policy:min_importance=0.25",
            "policy:replication_allow=n\"1",
            "policy:replication_deny=n2"
        ]
    );
    let mut payload = serde_json::Map::new();
    payload.insert("policy_world".into(), "policy:tenant:a/x".into());
    payload.insert("target_world".into(), "tenant:a/x".into());
    payload.insert("retention_days".into(), 7.into());
    payload.insert("min_importance".into(), 0.25.into());
    payload.insert("replication_allow".into(), vec!["n\"1"].into());
    payload.insert("replication_deny".into(), vec!["n2"].into());
    assert_eq!(
        atom.payload_json,
        serde_json::Value::Object(payload).to_string()
    );
    let bare = WorldPolicyRequest {
        world: WorldKey::new("a/policy"),
        retention_days: None,
        min_importance: None,
        replication_allow: vec![],
        replication_deny: vec![],
    };
    let err = bare.policy_atom(&now).unwrap_err();
    assert_eq!(err.status(), 400);
    assert_eq!(err.message(), "policy request must set at least one field");
    let kept = WorldPolicyRequest {
        retention_days: Some(1),
        ..bare
    };
    assert_eq!(
        kept.policy_atom(&now).unwrap().world,
        WorldKey::new("a/policy")
    );
}

#[test]
fn config_path_follows_its_option() {
    let args = |list: &[&str]| list.iter().map(|s| s.to_string()).collect::<Vec<_>>();
    assert_eq!(config_path(&args(&["node"])), "config.toml");
    assert_eq!(config_path(&args(&["node", "--config"])), "config.toml");
    assert_eq!(config_path(&args(&["node", "--config", "a.toml", "--config", "b"])), "a.toml");
}

struct MockEngine;

impl EngineApi for MockEngine {
    fn remember(&mut self, _atom: NewAtom) -> Result<AtomId> {
        Ok(AtomId::new("atom-1"))
    }

    fn ask(&mut self, question: Question) -> Result<Answer> {
        Ok(Answer {
            world: question.world,
            text: question.text,
            supporting_atoms: vec![],
            warnings: vec![],
        })
    }

    fn observe(&mut self, _atom: Atom) -> Result<()> {
        Err(DwbaseError::Stream("closed".into()))
    }

    fn replay(&mut self, _world: WorldKey, _filter: AtomFilter) -> Result<Vec<Atom>> {
        Ok(vec![])
    }
}

fn wit_atom() -> WitNewAtom {
    WitNewAtom {
        world_key: WorldKey::new("w"),
        worker: WorkerKey::new("worker"),
        kind: AtomKind::Observation,
        timestamp: Timestamp::new("2024-01-01T00:00:00Z"),
        importance: number(0.5),
        payload_json: "{}".into(),
        vector: None,
        flags_list: vec!["f".into()],
        labels: vec!["l".into()],
        links: vec![WitLink {
            target: AtomId::new("t"),
            kind: LinkKind::Confirms,
        }],
    }
}

#[test]
fn adapter_calls_engine() {
    let mut adapter = WitHostAdapter::new(MockEngine);
    let new_atom = NewAtom {
        world: WorldKey::new("w"),
        worker: WorkerKey::new("wk"),
        kind: AtomKind::Observation,
        timestamp: Timestamp::new("2024-01-01T00:00:00Z"),
        importance: Importance::new(number(0.5)).unwrap(),
        payload_json: "{}".into(),
        vector: None,
        flags: vec![],
        labels: vec![],
        links: vec![],
    };
    let id = adapter.remember(new_atom).unwrap();
    assert!(!id.0.is_empty());

    let answer = adapter
        .ask(Question {
            world: WorldKey::new("w"),
            text: "hello".into(),
            filter: None,
        })
        .unwrap();
    assert_eq!(answer.world.0, "w");
    assert_eq!(answer.text, "hello");
    assert!(adapter
        .replay(WorldKey::new("w"), AtomFilter::default())
        .unwrap()
        .is_empty());
}

#[test]
fn interface_atoms_keep_their_fields() {
    let atom = Atom::builder(
        AtomId::new("a"),
        WorldKey::new("w"),
        WorkerKey::new("x"),
        AtomKind::Message,
        Timestamp::new("2024-01-01T00:00:00Z"),
        Importance::clamped(number(0.75)),
        "p",
    )
    .vector(Some(vec![number(1.5)]))
    .add_flag("f")
    .add_label("l")
    .add_typed_link(AtomId::new("b"), LinkKind::Supersedes)
    .build();
    let there = WitAtom::from_atom(&atom);
    assert_eq!(there.importance, number(0.75));
    assert_eq!(there.into_atom().unwrap(), atom);
    let new_atom = wit_atom().into_new_atom().unwrap();
    assert_eq!(new_atom.flags, ["f"]);
    assert_eq!(new_atom.links[0].target, AtomId::new("t"));
    let mut faulty = wit_atom();
    faulty.importance = number(1.5);
    let err = faulty.into_new_atom().unwrap_err();
    assert!(matches!(err, WitHostError::Mapping(_)));
    assert_eq!(
        err.message("1.5"),
        "mapping error: importance must be between 0.0 and 1.0 inclusive, got 1.5"
    );
    assert_eq!(ClientConfig::default().world, "default");
}
