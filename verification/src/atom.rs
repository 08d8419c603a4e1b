//! Core immutable data model.
//!
//! Atoms are immutable records; updates are represented by creating new atoms that
//! link to predecessors rather than mutating in place.

use vstd::prelude::*;

use crate::lists;
use crate::lists::{duplicate_all, Duplicate};
use crate::single::{Single, ONE_BITS, ZERO_BITS};
use crate::text;

verus! {

/// Identifier for an atom.
#[derive(Debug, PartialEq, Eq, Hash)]
pub struct AtomId(pub String);

/// Identifier for the world/space an atom belongs to.
#[derive(Debug, PartialEq, Eq, Hash)]
pub struct WorldKey(pub String);

/// Identifier for the worker/agent that produced the atom.
#[derive(Debug, PartialEq, Eq, Hash)]
pub struct WorkerKey(pub String);

/// ISO-8601 UTC timestamp wrapper.
#[derive(Debug, PartialEq, Eq, Hash)]
pub struct Timestamp(pub String);

impl View for AtomId {
    type V = Seq<char>;

    open spec fn view(&self) -> Seq<char> {
        self.0@
    }
}

impl Clone for AtomId {
    fn clone(&self) -> (r: Self)
        ensures
            r@ == self@,
    {
        AtomId(self.0.clone())
    }
}

impl Duplicate for AtomId {
    fn duplicate(&self) -> (r: Self) {
        self.clone()
    }
}

impl AtomId {
    pub fn new(id: &str) -> (r: Self)
        ensures
            r@ == id@,
    {
        AtomId(id.to_owned())
    }

    /// The text itself.
    pub fn text(&self) -> (r: &str)
        ensures
            r@ == self@,
    {
        self.0.as_str()
    }
}

impl View for WorldKey {
    type V = Seq<char>;

    open spec fn view(&self) -> Seq<char> {
        self.0@
    }
}

impl Clone for WorldKey {
    fn clone(&self) -> (r: Self)
        ensures
            r@ == self@,
    {
        WorldKey(self.0.clone())
    }
}

impl Duplicate for WorldKey {
    fn duplicate(&self) -> (r: Self) {
        self.clone()
    }
}

impl WorldKey {
    pub fn new(key: &str) -> (r: Self)
        ensures
            r@ == key@,
    {
        WorldKey(key.to_owned())
    }

    /// The text itself.
    pub fn text(&self) -> (r: &str)
        ensures
            r@ == self@,
    {
        self.0.as_str()
    }
}

impl View for WorkerKey {
    type V = Seq<char>;

    open spec fn view(&self) -> Seq<char> {
        self.0@
    }
}

impl Clone for WorkerKey {
    fn clone(&self) -> (r: Self)
        ensures
            r@ == self@,
    {
        WorkerKey(self.0.clone())
    }
}

impl Duplicate for WorkerKey {
    fn duplicate(&self) -> (r: Self) {
        self.clone()
    }
}

impl WorkerKey {
    pub fn new(key: &str) -> (r: Self)
        ensures
            r@ == key@,
    {
        WorkerKey(key.to_owned())
    }

    /// The text itself.
    pub fn text(&self) -> (r: &str)
        ensures
            r@ == self@,
    {
        self.0.as_str()
    }
}

impl View for Timestamp {
    type V = Seq<char>;

    open spec fn view(&self) -> Seq<char> {
        self.0@
    }
}

impl Clone for Timestamp {
    fn clone(&self) -> (r: Self)
        ensures
            r@ == self@,
    {
        Timestamp(self.0.clone())
    }
}

impl Duplicate for Timestamp {
    fn duplicate(&self) -> (r: Self) {
        self.clone()
    }
}

impl Timestamp {
    pub fn new(ts: &str) -> (r: Self)
        ensures
            r@ == ts@,
    {
        Timestamp(ts.to_owned())
    }

    /// The text itself.
    pub fn text(&self) -> (r: &str)
        ensures
            r@ == self@,
    {
        self.0.as_str()
    }
}

/// Kind of atom.
#[derive(Clone, Copy, Debug, PartialEq, Eq, Structural, Hash)]
pub enum AtomKind {
    Observation,
    Reflection,
    Plan,
    Action,
    Message,
}

impl AtomKind {
    /// The name of the kind, as it is written.
    pub open spec fn spec_name(self) -> Seq<char> {
        match self {
            AtomKind::Observation => "observation"@,
            AtomKind::Reflection => "reflection"@,
            AtomKind::Plan => "plan"@,
            AtomKind::Action => "action"@,
            AtomKind::Message => "message"@,
        }
    }

    /// The name of the kind, as it is written.
    pub fn name(self) -> (r: &'static str)
        ensures
            r@ == self.spec_name(),
    {
        match self {
            AtomKind::Observation => "observation",
            AtomKind::Reflection => "reflection",
            AtomKind::Plan => "plan",
            AtomKind::Action => "action",
            AtomKind::Message => "message",
        }
    }

    /// The kind with the name, if there is one.
    pub fn named(name: &str) -> (r: Option<AtomKind>)
        ensures
            r matches Some(kind) ==> kind.spec_name() == name@,
            r is None ==> forall|kind: AtomKind| #[trigger] kind.spec_name() != name@,
    {
        if text::same(name, "observation") {
            Some(AtomKind::Observation)
        } else if text::same(name, "reflection") {
            Some(AtomKind::Reflection)
        } else if text::same(name, "plan") {
            Some(AtomKind::Plan)
        } else if text::same(name, "action") {
            Some(AtomKind::Action)
        } else if text::same(name, "message") {
            Some(AtomKind::Message)
        } else {
            None
        }
    }
}

/// Relationship between atoms.
#[derive(Clone, Copy, Debug, PartialEq, Eq, Structural, Hash)]
pub enum LinkKind {
    Supersedes,
    References,
    Confirms,
    Contradicts,
}

impl LinkKind {
    /// The name of the kind, as it is written.
    pub open spec fn spec_name(self) -> Seq<char> {
        match self {
            LinkKind::Supersedes => "supersedes"@,
            LinkKind::References => "references"@,
            LinkKind::Confirms => "confirms"@,
            LinkKind::Contradicts => "contradicts"@,
        }
    }

    /// The name of the kind, as it is written.
    pub fn name(self) -> (r: &'static str)
        ensures
            r@ == self.spec_name(),
    {
        match self {
            LinkKind::Supersedes => "supersedes",
            LinkKind::References => "references",
            LinkKind::Confirms => "confirms",
            LinkKind::Contradicts => "contradicts",
        }
    }

    /// The kind with the name, if there is one.
    pub fn named(name: &str) -> (r: Option<LinkKind>)
        ensures
            r matches Some(kind) ==> kind.spec_name() == name@,
            r is None ==> forall|kind: LinkKind| #[trigger] kind.spec_name() != name@,
    {
        if text::same(name, "supersedes") {
            Some(LinkKind::Supersedes)
        } else if text::same(name, "references") {
            Some(LinkKind::References)
        } else if text::same(name, "confirms") {
            Some(LinkKind::Confirms)
        } else if text::same(name, "contradicts") {
            Some(LinkKind::Contradicts)
        } else {
            None
        }
    }
}

/// A typed link to another atom.
#[derive(Debug, PartialEq, Eq, Hash)]
pub struct Link {
    pub target: AtomId,
    pub kind: LinkKind,
}

/// Model of a link.
#[verifier::ext_equal]
pub ghost struct LinkView {
    pub target: Seq<char>,
    pub kind: LinkKind,
}

impl View for Link {
    type V = LinkView;

    open spec fn view(&self) -> LinkView {
        LinkView { target: self.target@, kind: self.kind }
    }
}

impl Clone for Link {
    fn clone(&self) -> (r: Self)
        ensures
            r@ == self@,
    {
        Link { target: self.target.clone(), kind: self.kind }
    }
}

impl Duplicate for Link {
    fn duplicate(&self) -> (r: Self) {
        self.clone()
    }
}

impl Link {
    pub fn new(target: AtomId, kind: LinkKind) -> (r: Self)
        ensures
            r@ == (LinkView { target: target@, kind }),
    {
        Link { target, kind }
    }
}

/// Importance score in the closed range [0.0, 1.0].
#[derive(Clone, Copy, Debug, PartialEq, Eq, Structural, Hash)]
pub struct Importance(Single);

/// Why a number is no importance score.
#[derive(Clone, Copy, Debug, PartialEq, Eq, Structural)]
pub enum ImportanceError {
    OutOfRange(Single),
    NotANumber,
}

impl Importance {
    /// The score as a number.
    pub closed spec fn value(self) -> Single {
        self.0
    }

    /// Whether the score is a number within [0.0, 1.0].
    pub open spec fn in_range(self) -> bool {
        !self.value().nan() && 0 <= self.value().key() <= ONE_BITS
    }

    /// Validates the provided value is finite and within [0.0, 1.0].
    pub fn new(value: Single) -> (r: Result<Self, ImportanceError>)
        ensures
            value.nan() ==> r == Err::<Self, _>(ImportanceError::NotANumber),
            !value.nan() && !(0 <= value.key() <= ONE_BITS) ==> r == Err::<Self, _>(
                ImportanceError::OutOfRange(value),
            ),
            !value.nan() && 0 <= value.key() <= ONE_BITS ==> (r matches Ok(i) && i.value()
                == value && i.in_range()),
    {
        if value.is_nan() {
            return Err(ImportanceError::NotANumber);
        }
        if value.order_key() < 0 || value.order_key() > ONE_BITS as i64 {
            return Err(ImportanceError::OutOfRange(value));
        }
        Ok(Importance(value))
    }

    /// Clamps the provided value into the valid range; NaN becomes 0.0.
    pub fn clamped(value: Single) -> (r: Self)
        ensures
            r.in_range(),
            value.nan() || value.key() < 0 ==> r.value().spec_bits() == ZERO_BITS,
            !value.nan() && value.key() > ONE_BITS ==> r.value().spec_bits() == ONE_BITS,
            !value.nan() && 0 <= value.key() <= ONE_BITS ==> r.value() == value,
    {
        if value.is_nan() || value.order_key() < 0 {
            return Importance(Single::from_bits(ZERO_BITS));
        }
        if value.order_key() > ONE_BITS as i64 {
            return Importance(Single::from_bits(ONE_BITS));
        }
        Importance(value)
    }

    /// The score that a stored record holds, taken as it is.
    pub fn recorded(value: Single) -> (r: Self)
        ensures
            r.value() == value,
    {
        Importance(value)
    }

    pub fn get(self) -> (r: Single)
        ensures
            r == self.value(),
    {
        self.0
    }
}

/// Two scores with the same value are the same score.
pub broadcast proof fn value_determines(a: Importance, b: Importance)
    requires
        #[trigger] a.value() == #[trigger] b.value(),
    ensures
        a == b,
{
}

/// Every number is the value of a score.
pub proof fn value_is_had(v: Single)
    ensures
        exists|i: Importance| #[trigger] i.value() == v,
{
    assert(Importance(v).value() == v);
}

/// Immutable atom record.
///
/// Atoms are constructed once and never mutated; updates are represented by new atoms
/// referencing older atoms through `links`.
#[derive(Debug, PartialEq)]
pub struct Atom {
    id: AtomId,
    world: WorldKey,
    worker: WorkerKey,
    kind: AtomKind,
    timestamp: Timestamp,
    importance: Importance,
    payload_json: String,
    vector: Option<Vec<Single>>,
    flags: Vec<String>,
    labels: Vec<String>,
    links: Vec<Link>,
}

/// Model of an atom.
#[verifier::ext_equal]
pub ghost struct AtomView {
    pub id: Seq<char>,
    pub world: Seq<char>,
    pub worker: Seq<char>,
    pub kind: AtomKind,
    pub timestamp: Seq<char>,
    pub importance: Importance,
    pub payload_json: Seq<char>,
    pub vector: Option<Seq<Single>>,
    pub flags: Seq<Seq<char>>,
    pub labels: Seq<Seq<char>>,
    pub links: Seq<LinkView>,
}

impl View for Atom {
    type V = AtomView;

    closed spec fn view(&self) -> AtomView {
        AtomView {
            id: self.id@,
            world: self.world@,
            worker: self.worker@,
            kind: self.kind,
            timestamp: self.timestamp@,
            importance: self.importance,
            payload_json: self.payload_json@,
            vector: lists::opt_view(self.vector),
            flags: lists::views(self.flags@),
            labels: lists::views(self.labels@),
            links: lists::views(self.links@),
        }
    }
}

/// A copy of an optional embedding vector.
pub fn duplicate_vector(v: &Option<Vec<Single>>) -> (r: Option<Vec<Single>>)
    ensures
        lists::opt_view(r) == lists::opt_view(*v),
{
    match v {
        Some(xs) => {
            let mut out: Vec<Single> = Vec::new();
            for i in 0..xs.len()
                invariant
                    out@ == xs@.subrange(0, i as int),
            {
                out.push(xs[i]);
            }
            assert(out@ == xs@);
            Some(out)
        },
        None => None,
    }
}

impl Clone for Atom {
    fn clone(&self) -> (r: Self)
        ensures
            r@ == self@,
    {
        Atom {
            id: self.id.clone(),
            world: self.world.clone(),
            worker: self.worker.clone(),
            kind: self.kind,
            timestamp: self.timestamp.clone(),
            importance: self.importance,
            payload_json: self.payload_json.clone(),
            vector: duplicate_vector(&self.vector),
            flags: duplicate_all(self.flags.as_slice()),
            labels: duplicate_all(self.labels.as_slice()),
            links: duplicate_all(self.links.as_slice()),
        }
    }
}

impl Duplicate for Atom {
    fn duplicate(&self) -> (r: Self) {
        self.clone()
    }
}

impl Atom {
    pub fn new(
        id: AtomId,
        world: WorldKey,
        worker: WorkerKey,
        kind: AtomKind,
        timestamp: Timestamp,
        importance: Importance,
        payload_json: String,
        vector: Option<Vec<Single>>,
        flags: Vec<String>,
        labels: Vec<String>,
        links: Vec<Link>,
    ) -> (r: Self)
        ensures
            r@ == (AtomView {
                id: id@,
                world: world@,
                worker: worker@,
                kind,
                timestamp: timestamp@,
                importance,
                payload_json: payload_json@,
                vector: lists::opt_view(vector),
                flags: lists::views(flags@),
                labels: lists::views(labels@),
                links: lists::views(links@),
            }),
    {
        Atom {
            id,
            world,
            worker,
            kind,
            timestamp,
            importance,
            payload_json,
            vector,
            flags,
            labels,
            links,
        }
    }

    pub fn builder(
        id: AtomId,
        world: WorldKey,
        worker: WorkerKey,
        kind: AtomKind,
        timestamp: Timestamp,
        importance: Importance,
        payload_json: &str,
    ) -> (r: AtomBuilder)
        ensures
            r@ == (AtomView {
                id: id@,
                world: world@,
                worker: worker@,
                kind,
                timestamp: timestamp@,
                importance,
                payload_json: payload_json@,
                vector: None,
                flags: Seq::empty(),
                labels: Seq::empty(),
                links: Seq::empty(),
            }),
    {
        AtomBuilder {
            id,
            world,
            worker,
            kind,
            timestamp,
            importance,
            payload_json: payload_json.to_owned(),
            vector: None,
            flags: Vec::new(),
            labels: Vec::new(),
            links: Vec::new(),
        }
    }

    pub fn id(&self) -> (r: &AtomId)
        ensures
            r@ == self@.id,
    {
        &self.id
    }

    pub fn world(&self) -> (r: &WorldKey)
        ensures
            r@ == self@.world,
    {
        &self.world
    }

    pub fn worker(&self) -> (r: &WorkerKey)
        ensures
            r@ == self@.worker,
    {
        &self.worker
    }

    pub fn kind(&self) -> (r: &AtomKind)
        ensures
            *r == self@.kind,
    {
        &self.kind
    }

    pub fn timestamp(&self) -> (r: &Timestamp)
        ensures
            r@ == self@.timestamp,
    {
        &self.timestamp
    }

    pub fn importance(&self) -> (r: Importance)
        ensures
            r == self@.importance,
    {
        self.importance
    }

    pub fn payload_json(&self) -> (r: &str)
        ensures
            r@ == self@.payload_json,
    {
        self.payload_json.as_str()
    }

    pub fn vector(&self) -> (r: Option<&[Single]>)
        ensures
            r is Some <==> self@.vector is Some,
            r matches Some(v) ==> Some(v@) == self@.vector,
    {
        match &self.vector {
            Some(v) => Some(v.as_slice()),
            None => None,
        }
    }

    pub fn flags(&self) -> (r: &[String])
        ensures
            lists::views(r@) == self@.flags,
    {
        self.flags.as_slice()
    }

    pub fn labels(&self) -> (r: &[String])
        ensures
            lists::views(r@) == self@.labels,
    {
        self.labels.as_slice()
    }

    pub fn links(&self) -> (r: &[Link])
        ensures
            lists::views(r@) == self@.links,
    {
        self.links.as_slice()
    }
}

/// Builder for immutable atoms.
pub struct AtomBuilder {
    id: AtomId,
    world: WorldKey,
    worker: WorkerKey,
    kind: AtomKind,
    timestamp: Timestamp,
    importance: Importance,
    payload_json: String,
    vector: Option<Vec<Single>>,
    flags: Vec<String>,
    labels: Vec<String>,
    links: Vec<Link>,
}

/// The model of a builder is the atom it would build.
impl View for AtomBuilder {
    type V = AtomView;

    closed spec fn view(&self) -> AtomView {
        AtomView {
            id: self.id@,
            world: self.world@,
            worker: self.worker@,
            kind: self.kind,
            timestamp: self.timestamp@,
            importance: self.importance,
            payload_json: self.payload_json@,
            vector: lists::opt_view(self.vector),
            flags: lists::views(self.flags@),
            labels: lists::views(self.labels@),
            links: lists::views(self.links@),
        }
    }
}

impl AtomBuilder {
    pub fn vector(self, vector: Option<Vec<Single>>) -> (r: Self)
        ensures
            r@ == (AtomView { vector: lists::opt_view(vector), ..self@ }),
    {
        let mut next = self;
        next.vector = vector;
        next
    }

    pub fn add_flag(self, flag: &str) -> (r: Self)
        ensures
            r@ == (AtomView { flags: self@.flags.push(flag@), ..self@ }),
    {
        let mut next = self;
        next.flags.push(flag.to_owned());
        next
    }

    pub fn add_label(self, label: &str) -> (r: Self)
        ensures
            r@ == (AtomView { labels: self@.labels.push(label@), ..self@ }),
    {
        let mut next = self;
        next.labels.push(label.to_owned());
        next
    }

    pub fn add_link(self, link: AtomId) -> (r: Self)
        ensures
            r@ == (AtomView {
                links: self@.links.push(
                    LinkView { target: link@, kind: LinkKind::References },
                ),
                ..self@
            }),
    {
        self.add_typed_link(link, LinkKind::References)
    }

    pub fn add_typed_link(self, target: AtomId, kind: LinkKind) -> (r: Self)
        ensures
            r@ == (AtomView {
                links: self@.links.push(LinkView { target: target@, kind }),
                ..self@
            }),
    {
        let mut next = self;
        next.links.push(Link::new(target, kind));
        next
    }

    pub fn build(self) -> (r: Atom)
        ensures
            r@ == self@,
    {
        Atom {
            id: self.id,
            world: self.world,
            worker: self.worker,
            kind: self.kind,
            timestamp: self.timestamp,
            importance: self.importance,
            payload_json: self.payload_json,
            vector: self.vector,
            flags: self.flags,
            labels: self.labels,
            links: self.links,
        }
    }
}

/// No two atom kinds have the same name.
pub proof fn kinds_have_distinct_names(a: AtomKind, b: AtomKind)
    requires
        a.spec_name() == b.spec_name(),
    ensures
        a == b,
{
    reveal_strlit("observation");
    reveal_strlit("reflection");
    reveal_strlit("plan");
    reveal_strlit("action");
    reveal_strlit("message");
    assert("observation"@[0] == 'o');
    assert("reflection"@[0] == 'r');
    assert("plan"@[0] == 'p');
    assert("action"@[0] == 'a');
    assert("message"@[0] == 'm');
}

/// No two link kinds have the same name.
pub proof fn link_kinds_have_distinct_names(a: LinkKind, b: LinkKind)
    requires
        a.spec_name() == b.spec_name(),
    ensures
        a == b,
{
    reveal_strlit("supersedes");
    reveal_strlit("references");
    reveal_strlit("confirms");
    reveal_strlit("contradicts");
    assert("supersedes"@[0] == 's');
    assert("references"@[0] == 'r');
    assert("confirms"@[3] == 'f');
    assert("contradicts"@[3] == 't');
    assert("confirms"@[0] == 'c');
    assert("contradicts"@[0] == 'c');
}

/// Whether a world is listed.
pub fn has_world(worlds: &Vec<WorldKey>, world: &WorldKey) -> (r: bool)
    ensures
        r == lists::views(worlds@).contains(world@),
{
    for i in 0..worlds.len()
        invariant
            forall|j: int| 0 <= j < i ==> lists::views(worlds@)[j] != world@,
    {
        assert(lists::views(worlds@)[i as int] == worlds@[i as int]@);
        if text::same(worlds[i].text(), world.text()) {
            return true;
        }
    }
    false
}

}
