use dwbase::atom::{Atom, AtomId, AtomKind, Importance, Timestamp, WorkerKey, WorldKey};
use dwbase::cipher::{decrypt_bytes, encrypt_bytes};
use dwbase::keys::{
    key_from_variable, variable_name, DummyKeyProvider, EnvKeyProvider, KeyProvider,
};
use dwbase::layout::{
    atom_key_of, index_key_of, log_key_of, seq_from_log_key, world_from_key,
};
use dwbase::model::{AtomFilter, DwbaseError, TimeWindow};
use dwbase::single::Single;
use dwbase::sled_store::{
    is_sound_record, keys_at_or_after, keys_naming, take_up, worlds_in, SledConfig, SledStorage,
};
use tempfile::TempDir;

fn sample_atom(id: &str, world: &str, ts: &str, importance: f32) -> Atom {
    Atom::builder(
        AtomId::new(id),
        WorldKey::new(world),
        WorkerKey::new("worker"),
        AtomKind::Observation,
        Timestamp::new(ts),
        Importance::new(Single::from_bits(importance.to_bits())).unwrap(),
        r#"{"hello":"world"}"#,
    )
    .add_flag("f1")
    .add_label("l1")
    .build()
}

fn config_at(tmp: &TempDir) -> SledConfig {
    SledConfig::new(tmp.path().to_str().unwrap())
}

fn new_store() -> (SledStorage<DummyKeyProvider>, TempDir) {
    let tmp = TempDir::new().unwrap();
    let storage = SledStorage::open(config_at(&tmp), DummyKeyProvider::default()).unwrap();
    (storage, tmp)
}

fn index_entry(storage: &SledStorage<DummyKeyProvider>, id: &str) -> Option<(String, u64)> {
    storage
        .raw(&index_key_of(id))
        .unwrap()
        .map(|bytes| rmp_serde::from_slice(&bytes).unwrap())
}

#[test]
fn append_and_replay_preserves_order() {
    let (mut storage, _tmp) = new_store();
    let world = WorldKey::new("w1");
    let a1 = sample_atom("a1", "w1", "2024-01-01T00:00:00Z", 0.4);
    let a2 = sample_atom("a2", "w1", "2024-01-01T00:00:01Z", 0.6);

    storage
        .append_atoms(&world, vec![a1.clone(), a2.clone()])
        .unwrap();

    let replayed = storage
        .scan(&world, &AtomFilter::default())
        .expect("replay");
    assert_eq!(replayed.len(), 2);
    assert_eq!(replayed[0].id(), a1.id());
    assert_eq!(replayed[1].id(), a2.id());
    assert_eq!(replayed, vec![a1, a2]);
}

#[test]
fn get_by_ids_returns_atoms() {
    let (mut storage, _tmp) = new_store();
    let world = WorldKey::new("w1");
    let a1 = sample_atom("a1", "w1", "2024-01-01T00:00:00Z", 0.4);
    let a2 = sample_atom("a2", "w1", "2024-01-01T00:00:01Z", 0.6);
    storage
        .append_atoms(&world, vec![a1.clone(), a2.clone()])
        .unwrap();

    let atoms = storage
        .get_by_ids(&[AtomId::new("a2"), AtomId::new("a1")])
        .unwrap();
    assert_eq!(atoms.len(), 2);
    assert_eq!(atoms[0].id(), a2.id());
    assert_eq!(atoms[1].id(), a1.id());
}

#[test]
fn get_by_ids_prefers_indexed_world() {
    let (mut storage, _tmp) = new_store();
    let w1 = WorldKey::new("a");
    let w2 = WorldKey::new("z");
    let dup1 = sample_atom("dup", "a", "2024-01-01T00:00:00Z", 0.1);
    let dup2 = sample_atom("dup", "z", "2024-01-01T00:00:01Z", 0.2);
    storage.append_atoms(&w1, vec![dup1]).unwrap();
    storage.append_atoms(&w2, vec![dup2.clone()]).unwrap();

    let atoms = storage.get_by_ids(&[AtomId::new("dup")]).unwrap();
    assert_eq!(atoms.len(), 1);
    assert_eq!(atoms[0].world(), dup2.world());
}

#[test]
fn replay_with_limit_and_filters() {
    let (mut storage, _tmp) = new_store();
    let world = WorldKey::new("w1");
    storage
        .append_atoms(
            &world,
            vec![
                sample_atom("a1", "w1", "2024-01-01T00:00:00Z", 0.4),
                sample_atom("a2", "w1", "2024-01-01T00:00:01Z", 0.6),
                sample_atom("a3", "w1", "2024-01-01T00:00:02Z", 0.7),
            ],
        )
        .unwrap();

    let filter = AtomFilter {
        world: None,
        kinds: vec![AtomKind::Observation],
        labels: vec!["l1".to_string()],
        flags: vec!["f1".to_string()],
        since: Some(Timestamp::new("2024-01-01T00:00:01Z")),
        until: None,
        limit: Some(1),
    };
    let replayed = storage.scan(&world, &filter).unwrap();
    assert_eq!(replayed.len(), 1);
    assert_eq!(replayed[0].id(), &AtomId::new("a2"));
}

#[test]
fn rebuild_index_populates_entries() {
    let (mut storage, _tmp) = new_store();
    let world = WorldKey::new("w1");
    storage
        .append_atoms(
            &world,
            vec![
                sample_atom("a1", "w1", "2024-01-01T00:00:00Z", 0.4),
                sample_atom("a2", "w1", "2024-01-01T00:00:01Z", 0.6),
            ],
        )
        .unwrap();

    storage.clear_index().unwrap();
    assert!(index_entry(&storage, "a1").is_none());

    let rebuilt = storage.rebuild_index().unwrap();
    assert_eq!(rebuilt, 2);

    let entry = index_entry(&storage, "a1").expect("rebuilt index entry");
    assert_eq!(WorldKey::new(&entry.0), world);
    assert_eq!(entry.1, 0);
}

#[test]
fn delete_atoms_clears_index_entries() {
    let (mut storage, _tmp) = new_store();
    let world = WorldKey::new("w1");
    storage
        .append_atoms(
            &world,
            vec![
                sample_atom("a1", "w1", "2024-01-01T00:00:00Z", 0.4),
                sample_atom("a2", "w1", "2024-01-01T00:00:01Z", 0.6),
            ],
        )
        .unwrap();

    let removed = storage.delete_atoms(&world, &[AtomId::new("a1")]).unwrap();
    assert_eq!(removed, 1);
    assert!(index_entry(&storage, "a1").is_none());
    let atoms = storage.get_by_ids(&[AtomId::new("a1")]).unwrap();
    assert!(atoms.is_empty());
}

#[test]
fn detects_and_truncates_corrupt_log_tail() {
    let (mut storage, tmp) = new_store();
    let world = WorldKey::new("w1");
    storage
        .append_atoms(
            &world,
            vec![
                sample_atom("a1", "w1", "2024-01-01T00:00:00Z", 0.4),
                sample_atom("a2", "w1", "2024-01-01T00:00:01Z", 0.6),
            ],
        )
        .unwrap();

    // Corrupt the last log frame.
    storage.corrupt_log_entry(&world, 1, b"badframe");
    drop(storage);

    let storage2 = SledStorage::open(config_at(&tmp), DummyKeyProvider::default()).unwrap();
    let replayed = storage2
        .scan(&world, &AtomFilter::default())
        .expect("scan after repair");
    assert_eq!(replayed.len(), 1);
    assert_eq!(replayed[0].id(), &AtomId::new("a1"));
}

#[test]
fn encrypted_roundtrip_and_on_disk_ciphertext() {
    let tmp = TempDir::new().unwrap();
    let mut cfg = config_at(&tmp);
    cfg.encryption_enabled = true;
    cfg.key_id = Some("k1".into());
    let provider = DummyKeyProvider::default().with_key("k1", [7u8; 32]);

    let mut again = config_at(&tmp);
    again.encryption_enabled = true;
    again.key_id = Some("k1".into());

    let mut storage = SledStorage::open(cfg, provider.clone()).expect("open encrypted");
    let world = WorldKey::new("w1");
    let atom = sample_atom("a1", "w1", "2024-01-01T00:00:00Z", 0.4);
    storage.append_atoms(&world, vec![atom.clone()]).unwrap();

    // Validate ciphertext on disk.
    let stored = storage
        .raw(&atom_key_of("w1", "a1"))
        .unwrap()
        .expect("stored");
    assert!(
        stored.starts_with(b"ENC1"),
        "encrypted payload should be prefixed with magic"
    );
    drop(storage);

    // Re-open and read back with the same key.
    let storage2 = SledStorage::open(again, provider).expect("reopen");
    let replayed = storage2.scan(&world, &AtomFilter::default()).unwrap();
    assert_eq!(replayed.len(), 1);
    assert_eq!(replayed[0].id(), atom.id());
}

#[test]
fn encrypted_read_with_wrong_key_fails() {
    let tmp = TempDir::new().unwrap();
    let mut cfg = config_at(&tmp);
    cfg.encryption_enabled = true;
    cfg.key_id = Some("k1".into());
    let mut again = config_at(&tmp);
    again.encryption_enabled = true;
    again.key_id = Some("k1".into());
    let provider = DummyKeyProvider::default().with_key("k1", [8u8; 32]);

    let mut storage = SledStorage::open(cfg, provider).expect("open encrypted");
    let world = WorldKey::new("w1");
    let atom = sample_atom("a1", "w1", "2024-01-01T00:00:00Z", 0.4);
    storage.append_atoms(&world, vec![atom]).unwrap();
    drop(storage);

    let wrong_provider = DummyKeyProvider::default().with_key("k1", [9u8; 32]);
    let storage2 = SledStorage::open(again, wrong_provider).expect("reopen");
    let err = storage2.scan(&world, &AtomFilter::default()).unwrap_err();
    assert!(
        format!("{err:?}").contains("Storage"),
        "expected storage error when decrypting with wrong key"
    );
}

#[test]
fn encryption_needs_a_key_id() {
    let tmp = TempDir::new().unwrap();
    let mut cfg = config_at(&tmp);
    cfg.encryption_enabled = true;
    let err = match SledStorage::open(cfg, DummyKeyProvider::default()) {
        Ok(_) => panic!("opened"),
        Err(e) => e,
    };
    assert_eq!(
        err,
        DwbaseError::InvalidInput("encryption enabled but key_id missing".into())
    );
}

#[test]
fn sealing_hides_and_opening_shows() {
    let provider = DummyKeyProvider::default().with_key("k", [3u8; 32]);
    let sealed = encrypt_bytes(&provider, &Some("k".to_string()), b"plain text").unwrap();
    assert!(sealed.starts_with(b"ENC1"));
    assert!(!sealed.windows(5).any(|w| w == b"plain"));
    assert_eq!(decrypt_bytes(&provider, &sealed[4..]).unwrap(), b"plain text");
    let twice = encrypt_bytes(&provider, &Some("k".to_string()), b"plain text").unwrap();
    assert_ne!(sealed, twice);
    assert_eq!(
        encrypt_bytes(&provider, &None, b"x"),
        Err(DwbaseError::InvalidInput("key_id missing".into()))
    );
    assert!(encrypt_bytes(&provider, &Some("other".to_string()), b"x").is_err());
}

#[test]
fn keys_come_from_variables() {
    assert_eq!(variable_name("k1"), "DWBASE_KEY_K1");
    let hex = "00".repeat(31) + "ff";
    let key = key_from_variable("k1", Some(&hex)).unwrap();
    assert_eq!(key.len(), 32);
    assert_eq!(key[31], 0xff);
    assert!(key_from_variable("k1", None).is_err());
    assert!(key_from_variable("k1", Some("zz")).is_err());
    let provider = EnvKeyProvider::new().with_variable("DWBASE_KEY_K1", &hex);
    assert_eq!(provider.key_bytes("k1").unwrap(), key);
    assert!(provider.key_bytes("k2").is_err());
}

#[test]
fn keys_of_the_log_are_in_order() {
    let keys: Vec<Vec<u8>> = [0u64, 1, 9, 10, 99, 1_000_000, u64::MAX]
        .iter()
        .map(|seq| log_key_of("w", *seq))
        .collect();
    for pair in keys.windows(2) {
        assert!(pair[0] < pair[1]);
    }
    assert_eq!(log_key_of("w", 7), b"world/w/log/00000000000000000007".to_vec());
    assert_eq!(atom_key_of("w", "a"), b"world/w/atoms/a".to_vec());
    assert_eq!(index_key_of("a"), b"idx/atom/a".to_vec());
    assert_eq!(seq_from_log_key(&log_key_of("w", 42)), Some(42));
    assert_eq!(seq_from_log_key(b"world/w/log/x"), None);
    assert_eq!(world_from_key(&log_key_of("w", 42)), Some(WorldKey::new("w")));
    assert_eq!(world_from_key(b"idx/atom/a"), None);
}

#[test]
fn appended_atoms_follow_the_log() {
    let (mut storage, tmp) = new_store();
    let world = WorldKey::new("w1");
    storage
        .append(sample_atom("a1", "w1", "2024-01-01T00:00:00Z", 0.4))
        .unwrap();
    drop(storage);
    let mut storage = SledStorage::open(config_at(&tmp), DummyKeyProvider::default()).unwrap();
    storage
        .append(sample_atom("a2", "w1", "2024-01-01T00:00:01Z", 0.4))
        .unwrap();
    assert_eq!(index_entry(&storage, "a1"), Some(("w1".to_string(), 0)));
    assert_eq!(index_entry(&storage, "a2"), Some(("w1".to_string(), 1)));
    let ids: Vec<String> = storage
        .scan(&world, &AtomFilter::default())
        .unwrap()
        .iter()
        .map(|a| a.id().text().to_string())
        .collect();
    assert_eq!(ids, ["a1", "a2"]);
    assert_eq!(storage.stats(&world).unwrap().atom_count, 2);
    assert_eq!(storage.worlds().unwrap(), vec![world]);
}

#[test]
fn window_bounds_are_inclusive() {
    let (mut storage, _tmp) = new_store();
    let world = WorldKey::new("w1");
    storage
        .append_atoms(
            &world,
            vec![
                sample_atom("a0", "w1", "1970-01-01T00:00:00.999Z", 0.4),
                sample_atom("a1", "w1", "1970-01-01T00:00:01Z", 0.4),
                sample_atom("a2", "w1", "1970-01-01T00:00:02Z", 0.4),
                sample_atom("a3", "w1", "1970-01-01T00:00:02.001Z", 0.4),
            ],
        )
        .unwrap();
    let ids: Vec<String> = storage
        .list_ids_in_window(&world, &TimeWindow::new(1000, 2000))
        .unwrap()
        .iter()
        .map(|id| id.text().to_string())
        .collect();
    assert_eq!(ids, ["a1", "a2"]);
}

#[test]
fn deleting_one_world_leaves_others() {
    let (mut storage, _tmp) = new_store();
    let (a, b) = (WorldKey::new("a"), WorldKey::new("b"));
    storage
        .append_atoms(&a, vec![sample_atom("x", "a", "2024-01-01T00:00:00Z", 0.4)])
        .unwrap();
    storage
        .append_atoms(&b, vec![sample_atom("y", "b", "2024-01-01T00:00:00Z", 0.4)])
        .unwrap();
    assert_eq!(storage.delete_atoms(&a, &[AtomId::new("y")]).unwrap(), 0);
    assert_eq!(storage.delete_atoms(&a, &[AtomId::new("x")]).unwrap(), 1);
    assert!(storage.scan(&a, &AtomFilter::default()).unwrap().is_empty());
    assert_eq!(storage.scan(&b, &AtomFilter::default()).unwrap().len(), 1);
}

#[test]
fn reopening_loses_nothing() {
    let tmp = TempDir::new().unwrap();
    let world = WorldKey::new("w1");
    let atoms = vec![
        sample_atom("a1", "w1", "2024-01-01T00:00:00Z", 0.4),
        sample_atom("a2", "w1", "2024-01-01T00:00:01Z", 0.6),
    ];
    {
        let mut storage = SledStorage::open(config_at(&tmp), DummyKeyProvider::default()).unwrap();
        storage.append_atoms(&world, atoms.clone()).unwrap();
    }
    for _ in 0..2 {
        let storage = SledStorage::open(config_at(&tmp), DummyKeyProvider::default()).unwrap();
        assert_eq!(storage.scan(&world, &AtomFilter::default()).unwrap(), atoms);
        assert_eq!(index_entry(&storage, "a2"), Some(("w1".to_string(), 1)));
    }
}

#[test]
fn scan_for_no_atoms_finds_none() {
    let (mut storage, _tmp) = new_store();
    let world = WorldKey::new("w1");
    let atoms = vec![
        sample_atom("a1", "w1", "2024-01-01T00:00:00Z", 0.4),
        sample_atom("a2", "w1", "2024-01-01T00:00:01Z", 0.6),
    ];
    storage.append_atoms(&world, atoms.clone()).unwrap();
    let limited = |limit: usize| AtomFilter {
        limit: Some(limit),
        ..AtomFilter::default()
    };
    assert!(storage.scan(&world, &limited(0)).unwrap().is_empty());
    assert_eq!(storage.scan(&world, &limited(1)).unwrap(), atoms[..1]);
    assert_eq!(storage.scan(&world, &limited(2)).unwrap(), atoms);
    let elsewhere = AtomFilter {
        world: Some(WorldKey::new("w2")),
        ..AtomFilter::default()
    };
    assert!(storage.scan(&world, &elsewhere).unwrap().is_empty());
    assert!(storage.get_by_ids(&[]).unwrap().is_empty());
}

#[test]
fn worlds_are_listed_under_their_whole_names() {
    let tmp = TempDir::new().unwrap();
    let world = WorldKey::new("tenant:demo/chat");
    {
        let mut storage = SledStorage::open(config_at(&tmp), DummyKeyProvider::default()).unwrap();
        for id in ["a1", "a/log/2"] {
            storage
                .append(sample_atom(id, "tenant:demo/chat", "2024-01-01T00:00:00Z", 0.4))
                .unwrap();
        }
        assert_eq!(storage.worlds().unwrap(), [world.clone()]);
        storage.corrupt_log_entry(&world, 1, b"broken");
    }
    let mut storage = SledStorage::open(config_at(&tmp), DummyKeyProvider::default()).unwrap();
    assert_eq!(storage.scan(&world, &AtomFilter::default()).unwrap().len(), 1);
    assert_eq!(
        index_entry(&storage, "a1"),
        Some(("tenant:demo/chat".to_string(), 0))
    );
    assert_eq!(storage.rebuild_index().unwrap(), 1);
    storage.clear_index().unwrap();
    assert_eq!(storage.get_by_ids(&[AtomId::new("a/log/2")]).unwrap().len(), 1);
}

#[test]
fn keys_name_the_whole_world() {
    let name = |key: &[u8]| world_from_key(key).map(|w| w.0);
    assert_eq!(name(&atom_key_of("a/b", "x/atoms/y")).as_deref(), Some("a/b"));
    assert_eq!(name(&log_key_of("a/b", 7)).as_deref(), Some("a/b"));
    assert_eq!(name(&log_key_of("a/log/b", 7)).as_deref(), Some("a/log/b"));
    assert_eq!(name(b"world/a/other/1"), None);
    assert_eq!(name(&index_key_of("a")), None);
}

#[test]
fn listings_are_read_without_the_database() {
    let entry = |key: Vec<u8>, value: &[u8]| (key, value.to_vec());
    let frame = |id: &str| rmp_serde::to_vec(&(id, 7u32, 3u64)).unwrap();
    let entries = vec![
        entry(log_key_of("a/b", 0), &frame("x")),
        entry(log_key_of("a/b", 1), b"broken"),
        entry(log_key_of("c", 2), &frame("y")),
        entry(b"idx/atom/x".to_vec(), b""),
    ];
    assert_eq!(worlds_in(&entries), [WorldKey::new("a/b"), WorldKey::new("c")]);
    assert_eq!(
        keys_at_or_after(&entries, 1),
        [log_key_of("a/b", 1), log_key_of("c", 2)]
    );
    assert_eq!(
        keys_naming(&entries, &[AtomId::new("y"), AtomId::new("z")]),
        [log_key_of("c", 2)]
    );
    assert!(is_sound_record(0xcbf4_3926, &Some(b"123456789".to_vec())));
    assert!(!is_sound_record(1, &Some(b"123456789".to_vec())));
    assert!(!is_sound_record(0xcbf4_3926, &None));
}

#[test]
fn atoms_are_taken_up_until_there_are_enough() {
    let filter = AtomFilter {
        limit: Some(1),
        labels: vec!["l1".into()],
        ..AtomFilter::default()
    };
    let mut out: Vec<Atom> = Vec::new();
    assert!(!take_up(&mut out, &filter, None));
    let plain = Atom::builder(
        AtomId::new("p"),
        WorldKey::new("w"),
        WorkerKey::new("worker"),
        AtomKind::Observation,
        Timestamp::new("2024-01-01T00:00:00Z"),
        Importance::new(Single::from_bits(0.5f32.to_bits())).unwrap(),
        "{}",
    )
    .build();
    assert!(!take_up(&mut out, &filter, Some(plain)));
    assert!(take_up(
        &mut out,
        &filter,
        Some(sample_atom("a", "w", "2024-01-01T00:00:00Z", 0.1))
    ));
    assert_eq!(out.len(), 1);
}

#[test]
fn a_batch_for_another_world_is_refused_at_its_first_atom() {
    let (mut storage, _tmp) = new_store();
    let world = WorldKey::new("w1");
    let other = sample_atom("a1", "w2", "2024-01-01T00:00:00Z", 0.4);
    let own = sample_atom("a2", "w1", "2024-01-01T00:00:00Z", 0.4);
    let refusal = "invalid input: atom world w2 does not match target world w1";
    let err = storage
        .append_atoms(&world, vec![other.clone(), own.clone()])
        .unwrap_err();
    assert_eq!(err.message(), refusal);
    assert!(storage.worlds().unwrap().is_empty());
    let err = storage.append_atoms(&world, vec![own, other]).unwrap_err();
    assert_eq!(err.message(), refusal);
    assert_eq!(storage.scan(&world, &AtomFilter::default()).unwrap().len(), 1);
    assert!(storage.append_atoms(&world, vec![]).unwrap().is_empty());
}
