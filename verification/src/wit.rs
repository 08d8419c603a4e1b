//! Types of the component interface, and an adapter from it to an engine.

use vstd::prelude::*;
use vstd::string::*;

use crate::atom::{
    Atom, AtomId, AtomKind, AtomView, Importance, ImportanceError, Link, LinkKind, LinkView,
    Timestamp, WorkerKey, WorldKey,
};
use crate::lists;
use crate::lists::duplicate_all;
use crate::model;
use crate::model::{
    Answer, AnswerView, AtomFilter, ErrorView, FilterView, NewAtom, NewAtomView, Question,
    QuestionView, Result,
};
use crate::single::{Single, ONE_BITS};
use crate::text;

verus! {

broadcast use crate::lists::group_views;

/// Why a value of the interface cannot be taken over.
#[derive(Clone, Copy, Debug, PartialEq, Eq, Structural)]
pub enum WitHostError {
    Mapping(ImportanceError),
}

impl WitHostError {
    /// What the error says, with the number that is out of range as text.
    pub open spec fn says(self, number: Seq<char>) -> Seq<char> {
        match self {
            WitHostError::Mapping(ImportanceError::OutOfRange(_)) =>
            "mapping error: importance must be between 0.0 and 1.0 inclusive, got "@ + number,
            WitHostError::Mapping(ImportanceError::NotANumber) =>
            "mapping error: importance cannot be NaN"@,
        }
    }

    /// What the error says, with the number that is out of range as text.
    pub fn message(&self, number: &str) -> (r: String)
        ensures
            r@ == self.says(number@),
    {
        match self {
            WitHostError::Mapping(ImportanceError::OutOfRange(_)) => text::joined(
                "mapping error: importance must be between 0.0 and 1.0 inclusive, got ",
                number,
            ),
            WitHostError::Mapping(
                ImportanceError::NotANumber,
            ) => "mapping error: importance cannot be NaN".to_owned(),
        }
    }
}

/// A call on an engine behind the interface.
#[allow(inconsistent_fields)]
pub ghost enum HostCall {
    Remember { atom: NewAtomView, reply: std::result::Result<Seq<char>, ErrorView> },
    Ask { question: QuestionView, reply: std::result::Result<AnswerView, ErrorView> },
    Observe { atom: AtomView, reply: std::result::Result<(), ErrorView> },
    Replay {
        world: Seq<char>,
        filter: FilterView,
        reply: std::result::Result<Seq<AtomView>, ErrorView>,
    },
}

/// Trait to be implemented by host-side engine so WIT handlers can delegate calls.
pub trait EngineApi {
    /// The calls made so far; each implementation says where it keeps them.
    closed spec fn history(&self) -> Seq<HostCall> {
        arbitrary()
    }

    fn remember(&mut self, atom: NewAtom) -> (r: Result<AtomId>)
        ensures
            final(self).history() == old(self).history().push(
                HostCall::Remember { atom: atom@, reply: model::outcome(r) },
            ),
    ;

    fn ask(&mut self, question: Question) -> (r: Result<Answer>)
        ensures
            final(self).history() == old(self).history().push(
                HostCall::Ask { question: question@, reply: model::outcome(r) },
            ),
    ;

    fn observe(&mut self, atom: Atom) -> (r: Result<()>)
        ensures
            final(self).history() == old(self).history().push(
                HostCall::Observe { atom: atom@, reply: model::done(r) },
            ),
    ;

    fn replay(&mut self, world: WorldKey, filter: AtomFilter) -> (r: Result<Vec<Atom>>)
        ensures
            final(self).history() == old(self).history().push(
                HostCall::Replay {
                    world: world@,
                    filter: filter@,
                    reply: model::list_outcome(r),
                },
            ),
    ;
}

/// Adapter mapping between WIT-facing types and engine types.
pub struct WitHostAdapter<E> {
    pub engine: E,
}

impl<E: EngineApi> WitHostAdapter<E> {
    pub fn new(engine: E) -> (r: Self)
        ensures
            r.engine == engine,
    {
        WitHostAdapter { engine }
    }

    /// What the engine replies; it is called once.
    pub fn remember(&mut self, atom: NewAtom) -> (r: Result<AtomId>)
        ensures
            final(self).engine.history() == old(self).engine.history().push(
                HostCall::Remember { atom: atom@, reply: model::outcome(r) },
            ),
    {
        self.engine.remember(atom)
    }

    /// What the engine replies; it is called once.
    pub fn ask(&mut self, question: Question) -> (r: Result<Answer>)
        ensures
            final(self).engine.history() == old(self).engine.history().push(
                HostCall::Ask { question: question@, reply: model::outcome(r) },
            ),
    {
        self.engine.ask(question)
    }

    /// What the engine replies; it is called once.
    pub fn observe(&mut self, atom: Atom) -> (r: Result<()>)
        ensures
            final(self).engine.history() == old(self).engine.history().push(
                HostCall::Observe { atom: atom@, reply: model::done(r) },
            ),
    {
        self.engine.observe(atom)
    }

    /// What the engine replies; it is called once.
    pub fn replay(&mut self, world: WorldKey, filter: AtomFilter) -> (r: Result<Vec<Atom>>)
        ensures
            final(self).engine.history() == old(self).engine.history().push(
                HostCall::Replay {
                    world: world@,
                    filter: filter@,
                    reply: model::list_outcome(r),
                },
            ),
    {
        self.engine.replay(world, filter)
    }
}

/// A link of the interface.
#[derive(Debug)]
pub struct WitLink {
    pub target: AtomId,
    pub kind: LinkKind,
}

impl View for WitLink {
    type V = LinkView;

    open spec fn view(&self) -> LinkView {
        LinkView { target: self.target@, kind: self.kind }
    }
}

/// A submitted atom of the interface.
#[derive(Debug)]
pub struct WitNewAtom {
    pub world_key: WorldKey,
    pub worker: WorkerKey,
    pub kind: AtomKind,
    pub timestamp: Timestamp,
    pub importance: Single,
    pub payload_json: String,
    pub vector: Option<Vec<Single>>,
    pub flags_list: Vec<String>,
    pub labels: Vec<String>,
    pub links: Vec<WitLink>,
}

/// An atom of the interface.
#[derive(Debug)]
pub struct WitAtom {
    pub id: AtomId,
    pub world_key: WorldKey,
    pub worker: WorkerKey,
    pub kind: AtomKind,
    pub timestamp: Timestamp,
    pub importance: Single,
    pub payload_json: String,
    pub vector: Option<Vec<Single>>,
    pub flags_list: Vec<String>,
    pub labels: Vec<String>,
    pub links: Vec<WitLink>,
}

/// Model of an atom of the interface.
#[verifier::ext_equal]
pub ghost struct WitAtomView {
    pub id: Seq<char>,
    pub world_key: Seq<char>,
    pub worker: Seq<char>,
    pub kind: AtomKind,
    pub timestamp: Seq<char>,
    pub importance: Single,
    pub payload_json: Seq<char>,
    pub vector: Option<Seq<Single>>,
    pub flags_list: Seq<Seq<char>>,
    pub labels: Seq<Seq<char>>,
    pub links: Seq<LinkView>,
}

impl View for WitAtom {
    type V = WitAtomView;

    open spec fn view(&self) -> WitAtomView {
        WitAtomView {
            id: self.id@,
            world_key: self.world_key@,
            worker: self.worker@,
            kind: self.kind,
            timestamp: self.timestamp@,
            importance: self.importance,
            payload_json: self.payload_json@,
            vector: lists::opt_view(self.vector),
            flags_list: lists::views(self.flags_list@),
            labels: lists::views(self.labels@),
            links: lists::views(self.links@),
        }
    }
}

/// The error for a number that is no importance score, if it is none.
pub open spec fn importance_fault(value: Single) -> Option<WitHostError> {
    if value.nan() {
        Some(WitHostError::Mapping(ImportanceError::NotANumber))
    } else if 0 <= value.key() <= ONE_BITS {
        None
    } else {
        Some(WitHostError::Mapping(ImportanceError::OutOfRange(value)))
    }
}

/// An atom as one of the interface.
pub open spec fn wit_atom_of(a: AtomView) -> WitAtomView {
    WitAtomView {
        id: a.id,
        world_key: a.world,
        worker: a.worker,
        kind: a.kind,
        timestamp: a.timestamp,
        importance: a.importance.value(),
        payload_json: a.payload_json,
        vector: a.vector,
        flags_list: a.flags,
        labels: a.labels,
        links: a.links,
    }
}

/// The links as links of the interface.
fn wit_links(links: &[Link]) -> (r: Vec<WitLink>)
    ensures
        lists::views(r@) == lists::views(links@),
{
    let mut out: Vec<WitLink> = Vec::new();
    for i in 0..links.len()
        invariant
            lists::views(out@) == lists::views(links@).subrange(0, i as int),
    {
        out.push(WitLink { target: links[i].target.clone(), kind: links[i].kind });
        assert(lists::views(out@) =~= lists::views(links@).subrange(0, i + 1));
    }
    assert(lists::views(out@) =~= lists::views(links@));
    out
}

/// The links of the interface as links.
fn plain_links(links: &Vec<WitLink>) -> (r: Vec<Link>)
    ensures
        lists::views(r@) == lists::views(links@),
{
    let mut out: Vec<Link> = Vec::new();
    for i in 0..links.len()
        invariant
            lists::views(out@) == lists::views(links@).subrange(0, i as int),
    {
        out.push(Link { target: links[i].target.clone(), kind: links[i].kind });
        assert(lists::views(out@) =~= lists::views(links@).subrange(0, i + 1));
    }
    assert(lists::views(out@) =~= lists::views(links@));
    out
}

/// The importance score that a number stands for.
fn score(value: Single) -> (r: std::result::Result<Importance, WitHostError>)
    ensures
        r matches Ok(i) ==> i.value() == value && importance_fault(value) is None,
        r matches Err(e) ==> importance_fault(value) == Some(e),
{
    match Importance::new(value) {
        Ok(i) => Ok(i),
        Err(e) => Err(WitHostError::Mapping(e)),
    }
}

impl WitAtom {
    /// An atom as one of the interface.
    pub fn from_atom(value: &Atom) -> (r: WitAtom)
        ensures
            r@ == wit_atom_of(value@),
    {
        let vector = match value.vector() {
            Some(v) => {
                let mut out: Vec<Single> = Vec::new();
                for i in 0..v.len()
                    invariant
                        out@ == v@.subrange(0, i as int),
                {
                    out.push(v[i]);
                }
                assert(out@ =~= v@);
                Some(out)
            },
            None => None,
        };
        WitAtom {
            id: value.id().clone(),
            world_key: value.world().clone(),
            worker: value.worker().clone(),
            kind: *value.kind(),
            timestamp: value.timestamp().clone(),
            importance: value.importance().get(),
            payload_json: value.payload_json().to_owned(),
            vector,
            flags_list: duplicate_all(value.flags()),
            labels: duplicate_all(value.labels()),
            links: wit_links(value.links()),
        }
    }

    /// The atom that this one of the interface stands for; its importance must be a score.
    pub fn into_atom(self) -> (r: std::result::Result<Atom, WitHostError>)
        ensures
            r is Ok <==> importance_fault(self@.importance) is None,
            r matches Ok(a) ==> wit_atom_of(a@) == self@,
            r matches Err(e) ==> importance_fault(self@.importance) == Some(e),
    {
        let ghost model = self@;
        let importance = match score(self.importance) {
            Ok(i) => i,
            Err(e) => {
                return Err(e);
            },
        };
        let links = plain_links(&self.links);
        let a = Atom::new(
            self.id,
            self.world_key,
            self.worker,
            self.kind,
            self.timestamp,
            importance,
            self.payload_json,
            self.vector,
            self.flags_list,
            self.labels,
            links,
        );
        assert(wit_atom_of(a@) =~= model);
        Ok(a)
    }
}

impl WitNewAtom {
    /// The submission that this one of the interface stands for; its importance must be a
    /// score.
    pub fn into_new_atom(self) -> (r: std::result::Result<NewAtom, WitHostError>)
        ensures
            r is Ok <==> importance_fault(self.importance) is None,
            r matches Ok(a) ==> a@ == (NewAtomView {
                world: self.world_key@,
                worker: self.worker@,
                kind: self.kind,
                timestamp: self.timestamp@,
                importance: a@.importance,
                payload_json: self.payload_json@,
                vector: lists::opt_view(self.vector),
                flags: lists::views(self.flags_list@),
                labels: lists::views(self.labels@),
                links: lists::views(self.links@),
            }) && a@.importance.value() == self.importance,
            r matches Err(e) ==> importance_fault(self.importance) == Some(e),
    {
        let importance = match score(self.importance) {
            Ok(i) => i,
            Err(e) => {
                return Err(e);
            },
        };
        let links = plain_links(&self.links);
        Ok(
            NewAtom {
                world: self.world_key,
                worker: self.worker,
                kind: self.kind,
                timestamp: self.timestamp,
                importance,
                payload_json: self.payload_json,
                vector: self.vector,
                flags: self.flags_list,
                labels: self.labels,
                links,
            },
        )
    }
}

/// The interface keeps all of an atom: no two atoms are the same in it.
pub proof fn interface_keeps_atoms(a: AtomView, b: AtomView)
    requires
        wit_atom_of(a) == wit_atom_of(b),
    ensures
        a == b,
{
    let (x, y) = (wit_atom_of(a), wit_atom_of(b));
    assert(x.id == a.id && x.world_key == a.world && x.worker == a.worker);
    crate::atom::value_determines(a.importance, b.importance);
    assert(a =~= b);
}

/// How a guest is set up.
#[derive(Debug)]
pub struct ClientConfig {
    pub world: String,
}

impl Default for ClientConfig {
    fn default() -> (r: Self)
        ensures
            r.world@ == "default"@,
    {
        ClientConfig { world: "default".to_owned() }
    }
}

}
