use dwbase::atom::{
    Atom, AtomId, AtomKind, Importance, ImportanceError, Link, LinkKind, Timestamp, WorkerKey,
    WorldKey,
};
use dwbase::codec::{pack_atom, unpack_atom};
use dwbase::single::Single;

fn number(value: f32) -> Single {
    Single::from_bits(value.to_bits())
}

fn sample_atom() -> Atom {
    Atom::builder(
        AtomId::new("atom-1"),
        WorldKey::new("world-1"),
        WorkerKey::new("worker-1"),
        AtomKind::Observation,
        Timestamp::new("2024-01-01T00:00:00Z"),
        Importance::new(number(0.5)).expect("importance"),
        r#"{"foo":"bar"}"#,
    )
    .vector(Some(vec![number(1.0), number(2.0), number(3.0)]))
    .add_flag("immutable")
    .add_label("test")
    .add_link(AtomId::new("previous"))
    .build()
}

#[test]
fn importance_validation() {
    assert!(Importance::new(number(0.0)).is_ok());
    assert!(Importance::new(number(1.0)).is_ok());
    assert!(Importance::new(number(1.1)).is_err());
    assert!(Importance::new(number(f32::NAN)).is_err());
    assert_eq!(Importance::clamped(number(1.5)).get(), number(1.0));
    assert_eq!(Importance::clamped(number(-1.0)).get(), number(0.0));
    assert_eq!(Importance::clamped(number(f32::NAN)).get(), number(0.0));
}

#[test]
fn importance_errors_tell_why() {
    assert_eq!(
        Importance::new(number(1.1)),
        Err(ImportanceError::OutOfRange(number(1.1)))
    );
    assert_eq!(
        Importance::new(number(-0.5)),
        Err(ImportanceError::OutOfRange(number(-0.5)))
    );
    assert_eq!(
        Importance::new(number(f32::INFINITY)),
        Err(ImportanceError::OutOfRange(number(f32::INFINITY)))
    );
    assert_eq!(
        Importance::new(number(f32::NAN)),
        Err(ImportanceError::NotANumber)
    );
    assert!(Importance::new(number(-0.0)).is_ok());
}

#[test]
fn singles_compare_as_numbers() {
    let values = [
        f32::NEG_INFINITY,
        -2.5,
        -1.0,
        -0.0,
        0.0,
        0.1,
        0.7,
        1.0,
        f32::INFINITY,
        f32::NAN,
    ];
    for a in values {
        for b in values {
            assert_eq!(number(a).is_below(number(b)), a < b, "{a} < {b}");
            assert_eq!(number(a).is_at_most(number(b)), a <= b, "{a} <= {b}");
        }
        assert_eq!(number(a).is_nan(), a.is_nan());
    }
}

#[test]
fn atom_kind_serde_names_are_stable() {
    let kinds = [
        (AtomKind::Observation, "observation"),
        (AtomKind::Reflection, "reflection"),
        (AtomKind::Plan, "plan"),
        (AtomKind::Action, "action"),
        (AtomKind::Message, "message"),
    ];

    for (kind, expected) in kinds {
        let json = serde_json::to_string(kind.name()).unwrap();
        assert_eq!(json, format!("\"{expected}\""));
        assert_eq!(AtomKind::named(expected), Some(kind));
    }
    assert_eq!(AtomKind::named("Observation"), None);
}

#[test]
fn link_kind_names_are_stable() {
    let kinds = [
        (LinkKind::Supersedes, "supersedes"),
        (LinkKind::References, "references"),
        (LinkKind::Confirms, "confirms"),
        (LinkKind::Contradicts, "contradicts"),
    ];
    for (kind, expected) in kinds {
        assert_eq!(kind.name(), expected);
        assert_eq!(LinkKind::named(expected), Some(kind));
    }
    assert_eq!(LinkKind::named("linked"), None);
}

#[test]
fn atom_roundtrip_rmp() {
    let atom = sample_atom();
    let bytes = pack_atom(&atom).expect("serialize");
    let decoded = unpack_atom(&bytes).expect("deserialize");
    assert_eq!(atom, decoded);
}

#[test]
fn packed_atom_is_a_list_of_its_fields() {
    let long = "x".repeat(300);
    let numbers: Vec<f32> = (0..20).map(|i| i as f32 / 3.0).collect();
    let atom = Atom::builder(
        AtomId::new("atom-1"),
        WorldKey::new(&long),
        WorkerKey::new("w\u{e4}"),
        AtomKind::Observation,
        Timestamp::new("2024-01-01T00:00:00Z"),
        Importance::new(number(0.5)).unwrap(),
        "{}",
    )
    .vector(Some(numbers.iter().map(|n| number(*n)).collect()))
    .add_flag("f")
    .add_typed_link(AtomId::new("previous"), LinkKind::References)
    .build();
    let fields = (
        "atom-1",
        long.as_str(),
        "w\u{e4}",
        "observation",
        "2024-01-01T00:00:00Z",
        0.5f32,
        "{}",
        Some(numbers),
        vec!["f"],
        Vec::<String>::new(),
        vec![("previous", "references")],
    );
    let mut bytes = rmp_serde::to_vec(&fields).unwrap();
    assert_eq!(pack_atom(&atom).unwrap(), bytes);
    bytes.push(7);
    assert_eq!(unpack_atom(&bytes).unwrap(), atom);
    for cut in 0..bytes.len() - 1 {
        assert!(unpack_atom(&bytes[..cut]).is_err());
    }
}

#[test]
fn unpacking_rejects_unknown_kinds() {
    let record = (
        "id",
        "w",
        "k",
        "dream",
        "t",
        0.0f32,
        "{}",
        None::<Vec<f32>>,
        Vec::<String>::new(),
        Vec::<String>::new(),
        Vec::<(String, String)>::new(),
    );
    let bytes = rmp_serde::to_vec(&record).unwrap();
    let err = unpack_atom(&bytes).unwrap_err();
    assert!(err.contains("unknown variant `dream`"), "{err}");
    assert!(unpack_atom(b"badframe").is_err());
}

#[test]
fn builder_keeps_what_it_is_given() {
    let atom = sample_atom();
    assert_eq!(atom.id(), &AtomId::new("atom-1"));
    assert_eq!(atom.world(), &WorldKey::new("world-1"));
    assert_eq!(atom.worker(), &WorkerKey::new("worker-1"));
    assert_eq!(atom.kind(), &AtomKind::Observation);
    assert_eq!(atom.timestamp(), &Timestamp::new("2024-01-01T00:00:00Z"));
    assert_eq!(atom.importance().get(), number(0.5));
    assert_eq!(atom.payload_json(), r#"{"foo":"bar"}"#);
    assert_eq!(
        atom.vector(),
        Some([number(1.0), number(2.0), number(3.0)].as_slice())
    );
    assert_eq!(atom.flags(), ["immutable".to_string()].as_slice());
    assert_eq!(atom.labels(), ["test".to_string()].as_slice());
    assert_eq!(
        atom.links(),
        [Link::new(AtomId::new("previous"), LinkKind::References)].as_slice()
    );
}
