//! Engine traits and orchestrator.
//!
//! The engine coordinates storage, vector search, streaming, gatekeeping, and embedding.
//! Atoms are immutable; updates are represented as new atoms linked to predecessors.
//!
//! The components are given by the user through traits, and nothing is said of what they
//! return. Each component has a history of the calls made on it, with arguments and replies.
//! A contract of the engine says which calls it makes, no more and no fewer, and what it does
//! with whatever came back: a ghost record lists the replies.

use vstd::prelude::*;
use vstd::string::*;

use crate::atom::{Atom, AtomId, AtomView, Timestamp, WorldKey};
use crate::calls::{Calls, EmbedCall, GateCall, StorageCall, StreamCall, VectorCall};
use crate::clock::Instant;
use crate::conflict;
use crate::conflict::{ConflictIndex, ConflictView};
use crate::index;
use crate::index::{IndexMetadata, IndexState, IndexView};
use crate::lists;
use crate::model;
use crate::model::{
    Answer, AtomFilter, DwbaseError, ErrorView, FilterView, NewAtom, NewAtomView, Question, Result,
    StorageStats, TimeWindow, WorldAction,
};
use crate::moment;
use crate::moment::Moment;
use crate::policy;
use crate::policy::{policy_world_of, read_policy, tenant_policy_world_of, GcPolicy};
use crate::quarantine;
use crate::quarantine::{is_suspect, quarantined, Suspicions};
use crate::recall;
use crate::recall::{
    compose_answer, deduplicate, exclude_quarantine, truncate_atoms, BOUNDED_SCAN, SEARCH_SIZE,
};
use crate::reflex::{ReflexFilter, ReflexFilterView, ReflexIndex, ReflexIndexConfig, ReflexView};
use crate::single::Single;
use crate::text;
use crate::world_status;
use crate::world_status::{
    is_archived_status, sort_worlds, status_filter_of, status_from, Transition, TransitionView,
};

verus! {

broadcast use {crate::lists::group_views, crate::calls::group_calls};

/// Storage engine interface.
pub trait StorageEngine {
    /// The calls made so far; each implementation says where it keeps them.
    closed spec fn history(&self) -> Seq<StorageCall> {
        arbitrary()
    }

    fn append(&mut self, atom: Atom) -> (r: Result<()>)
        ensures
            final(self).history() == old(self).history().push(
                StorageCall::Append { atom: atom@, reply: model::done(r) },
            ),
    ;

    fn get_by_ids(&mut self, ids: &[AtomId]) -> (r: Result<Vec<Atom>>)
        ensures
            final(self).history() == old(self).history().push(
                StorageCall::Get { ids: lists::views(ids@), reply: model::list_outcome(r) },
            ),
    ;

    fn scan(&mut self, world: &WorldKey, filter: &AtomFilter) -> (r: Result<Vec<Atom>>)
        ensures
            final(self).history() == old(self).history().push(
                StorageCall::Scan {
                    world: world@,
                    filter: filter@,
                    reply: model::list_outcome(r),
                },
            ),
    ;

    fn stats(&mut self, world: &WorldKey) -> (r: Result<StorageStats>)
        ensures
            final(self).history() == old(self).history().push(
                StorageCall::Stats { world: world@, reply: model::plain_outcome(r) },
            ),
    ;

    /// Return atom ids for a world constrained by time window (ms since epoch).
    fn list_ids_in_window(&mut self, world: &WorldKey, window: &TimeWindow) -> (r: Result<
        Vec<AtomId>,
    >)
        ensures
            final(self).history() == old(self).history().push(
                StorageCall::Window {
                    world: world@,
                    window: *window,
                    reply: model::list_outcome(r),
                },
            ),
    ;

    /// Delete atoms by id; returns count removed.
    fn delete_atoms(&mut self, world: &WorldKey, ids: &[AtomId]) -> (r: Result<usize>)
        ensures
            final(self).history() == old(self).history().push(
                StorageCall::Delete {
                    world: world@,
                    ids: lists::views(ids@),
                    reply: model::plain_outcome(r),
                },
            ),
    ;

    /// List worlds known to the storage implementation.
    fn worlds(&mut self) -> (r: Result<Vec<WorldKey>>)
        ensures
            final(self).history() == old(self).history().push(
                StorageCall::Worlds { reply: model::list_outcome(r) },
            ),
    ;
}

/// Vector index interface.
pub trait VectorEngine {
    /// The calls made so far; each implementation says where it keeps them.
    closed spec fn history(&self) -> Seq<VectorCall> {
        arbitrary()
    }

    fn upsert(&mut self, world: &WorldKey, atom_id: &AtomId, vector: &[Single]) -> (r: Result<()>)
        ensures
            final(self).history() == old(self).history().push(
                VectorCall::Upsert {
                    world: world@,
                    id: atom_id@,
                    vector: vector@,
                    reply: model::done(r),
                },
            ),
    ;

    fn search(
        &mut self,
        world: &WorldKey,
        query: &[Single],
        k: usize,
        filter: &AtomFilter,
    ) -> (r: Result<Vec<AtomId>>)
        ensures
            final(self).history() == old(self).history().push(
                VectorCall::Search {
                    world: world@,
                    query: query@,
                    k,
                    filter: filter@,
                    reply: model::list_outcome(r),
                },
            ),
    ;

    fn rebuild(&mut self, world: &WorldKey) -> (r: Result<()>)
        ensures
            final(self).history() == old(self).history().push(
                VectorCall::Rebuild { world: world@, reply: model::done(r) },
            ),
    ;
}

/// Stream processing interface.
pub trait StreamEngine {
    type Handle;

    /// The calls made so far; each implementation says where it keeps them.
    closed spec fn history(&self) -> Seq<StreamCall> {
        arbitrary()
    }

    fn publish(&mut self, atom: &Atom) -> (r: Result<()>)
        ensures
            final(self).history() == old(self).history().push(
                StreamCall::Publish { atom: atom@, reply: model::done(r) },
            ),
    ;

    fn subscribe(&mut self, world: &WorldKey, filter: AtomFilter) -> (r: Result<Self::Handle>)
        ensures
            final(self).history() == old(self).history().push(
                StreamCall::Subscribe {
                    world: world@,
                    filter: filter@,
                    reply: model::done(r),
                },
            ),
    ;

    fn poll(&mut self, handle: &Self::Handle) -> (r: Result<Option<Atom>>)
        ensures
            final(self).history() == old(self).history().push(
                StreamCall::Poll { reply: model::opt_outcome(r) },
            ),
    ;

    fn stop(&mut self, handle: Self::Handle) -> (r: Result<()>)
        ensures
            final(self).history() == old(self).history().push(
                StreamCall::Stop { reply: model::done(r) },
            ),
    ;
}

/// Embedder for converting payloads to vectors.
pub trait Embedder {
    /// The calls made so far; each implementation says where it keeps them.
    closed spec fn history(&self) -> Seq<EmbedCall> {
        arbitrary()
    }

    /// Produce an embedding vector for the payload JSON.
    fn embed(&mut self, payload_json: &str) -> (r: Result<Option<Vec<Single>>>)
        ensures
            final(self).history() == old(self).history().push(
                EmbedCall { payload: payload_json@, reply: embedding(r) },
            ),
    ;

    /// Return a stable identifier/version for the embedder model.
    fn model_version(&self) -> (r: &'static str)
        default_ensures
            r@ == "unknown"@,
    {
        "unknown"
    }
}

/// Gatekeeper for authorization/capability checks.
pub trait Gatekeeper {
    /// The calls made so far; each implementation says where it keeps them.
    closed spec fn history(&self) -> Seq<GateCall> {
        arbitrary()
    }

    fn check_remember(&mut self, new_atom: &NewAtom) -> (r: Result<()>)
        ensures
            final(self).history() == old(self).history().push(
                GateCall::Remember { atom: new_atom@, reply: model::done(r) },
            ),
    ;

    fn check_ask(&mut self, question: &Question) -> (r: Result<()>)
        ensures
            final(self).history() == old(self).history().push(
                GateCall::Ask { question: question@, reply: model::done(r) },
            ),
    ;

    fn check_world_action(&mut self, action: &WorldAction) -> (r: Result<()>)
        ensures
            final(self).history() == old(self).history().push(
                GateCall::World { action: action@, reply: model::done(r) },
            ),
    ;
}

/// `BuildHasher::hash_one` of a `DefaultHasher` gives the hash of a worker's name. Which
/// hash function that is, std leaves open, so nothing is said of the hash.
#[verifier::external_body]
fn worker_hash(worker: &str) -> u64 {
    std::hash::BuildHasher::hash_one(
        &std::hash::BuildHasherDefault::<std::collections::hash_map::DefaultHasher>::default(),
        worker,
    )
}

/// Whether a hash is one that the name of a worker may have.
pub closed spec fn is_hash_of(worker: Seq<char>, hash: u64) -> bool {
    exists|name: &str| name@ == worker && #[trigger] call_ensures(worker_hash, (name,), hash)
}

/// A reading of the clocks: the monotonic one, and the date and time in UTC.
#[derive(Debug)]
pub struct Now {
    pub instant: Instant,
    pub timestamp: Timestamp,
}

/// Orchestrator tying together engine components.
pub struct DWBaseEngine<S, V, T, G, E> {
    pub storage: S,
    pub vector: V,
    pub stream: T,
    pub gatekeeper: G,
    pub embedder: E,
    pub reflex_index: ReflexIndex,
    pub conflict_index: ConflictIndex,
    pub suspicions: Suspicions,
    pub index_state: IndexState,
    pub id_gen: u64,
}

/// Model of what the engine itself holds.
#[verifier::ext_equal]
pub ghost struct EngineState {
    pub reflex: ReflexView,
    pub conflicts: ConflictView,
    pub suspicions: Map<Seq<char>, Seq<Instant>>,
    pub index: Map<Seq<char>, IndexView>,
    pub next_id: u64,
}

/// The id that the engine gives to the atom with a number.
pub open spec fn numbered_id(n: u64) -> Seq<char> {
    "atom-"@ + text::decimal(n as nat)
}

/// The number after another, with zero after the largest.
pub open spec fn next_number(n: u64) -> u64 {
    if n == u64::MAX {
        0
    } else {
        (n + 1) as u64
    }
}

/// A submission with its timestamp filled in if it has none.
pub open spec fn stamped(atom: NewAtomView, now: Seq<char>) -> NewAtomView {
    if atom.timestamp.len() == 0 {
        NewAtomView { timestamp: now, ..atom }
    } else {
        atom
    }
}

/// A submission with an embedding, if it has none of its own.
pub open spec fn with_embedding(
    atom: NewAtomView,
    embedding: Option<Seq<Single>>,
) -> NewAtomView {
    if atom.vector is None {
        NewAtomView { vector: embedding, ..atom }
    } else {
        atom
    }
}

impl EngineState {
    /// The state of an engine that has done nothing yet.
    pub open spec fn initial(reflex: ReflexView) -> EngineState {
        EngineState {
            reflex,
            conflicts: ConflictView::empty(),
            suspicions: Map::empty(),
            index: Map::empty(),
            next_id: 1,
        }
    }

    /// How many atoms the worker submitted within the last second, this one among them.
    pub open spec fn lately(self, worker: Seq<char>, now: Instant) -> nat {
        quarantine::noted(self.suspicions, worker, now).len()
    }

    /// The submission as it is going to be kept: stamped, and set apart if it is suspect.
    pub open spec fn screened(
        self,
        atom: NewAtomView,
        now: Instant,
        timestamp: Seq<char>,
    ) -> NewAtomView {
        let filled = stamped(atom, timestamp);
        if quarantine::suspect(filled, self.lately(atom.worker, now)) {
            quarantine::set_apart(filled)
        } else {
            filled
        }
    }

    /// The state once a submission has been screened: an id is used up, the submission is
    /// noted against the worker, and the index of the world has an entry for the embedder.
    pub open spec fn after_screening(
        self,
        atom: NewAtomView,
        now: Instant,
        timestamp: Seq<char>,
        embedder_version: Seq<char>,
    ) -> EngineState {
        EngineState {
            suspicions: self.suspicions.insert(
                atom.worker,
                quarantine::noted(self.suspicions, atom.worker, now),
            ),
            index: index::refreshed(self.index, atom.world, embedder_version, timestamp),
            next_id: next_number(self.next_id),
            ..self
        }
    }

    /// The state once an atom with a valid timestamp has been taken in.
    pub open spec fn admitted(self, atom: AtomView) -> EngineState {
        EngineState {
            reflex: self.reflex.inserted(atom),
            conflicts: self.conflicts.registered(atom),
            ..self
        }
    }
}

/// Replies of the components while an atom is stored.
pub ghost struct StoreReplies {
    pub upsert: std::result::Result<(), ErrorView>,
    pub append: std::result::Result<(), ErrorView>,
    pub publish: std::result::Result<(), ErrorView>,
}

/// Replies of the components while an atom is remembered.
pub ghost struct RememberReplies {
    pub gate: std::result::Result<(), ErrorView>,
    pub version: Seq<char>,
    pub rebuild: std::result::Result<(), ErrorView>,
    pub embed: std::result::Result<Option<Seq<Single>>, ErrorView>,
    pub store: StoreReplies,
}

/// Replies of the components while a question is answered.
pub ghost struct AskReplies {
    pub gate: std::result::Result<(), ErrorView>,
    pub version: Seq<char>,
    pub rebuild: std::result::Result<(), ErrorView>,
    pub fallback: std::result::Result<Seq<AtomView>, ErrorView>,
    pub embed: std::result::Result<Option<Seq<Single>>, ErrorView>,
    pub ids: std::result::Result<Seq<Seq<char>>, ErrorView>,
    pub fetched: std::result::Result<Seq<AtomView>, ErrorView>,
    pub bounded: std::result::Result<Seq<AtomView>, ErrorView>,
}

/// Model of the outcome of an embedding.
pub open spec fn embedding(r: Result<Option<Vec<Single>>>) -> std::result::Result<
    Option<Seq<Single>>,
    ErrorView,
> {
    match r {
        Ok(v) => Ok(lists::opt_view(v)),
        Err(e) => Err(e@),
    }
}

/// The atom that a submission becomes, given the reply of the embedder.
pub open spec fn remembered_atom(
    state: EngineState,
    atom: NewAtomView,
    now: Instant,
    timestamp: Seq<char>,
    vector: Option<Seq<Single>>,
) -> AtomView {
    with_embedding(state.screened(atom, now, timestamp), vector).into_atom(
        numbered_id(state.next_id),
    )
}

/// What remembering a submission leads to, given the replies of the components: the new
/// state of the engine, and the id of the atom or the first failure.
pub open spec fn remembered(
    state: EngineState,
    atom: NewAtomView,
    now: Instant,
    timestamp: Seq<char>,
    t: RememberReplies,
) -> (EngineState, std::result::Result<Seq<char>, ErrorView>) {
    let screened = state.after_screening(atom, now, timestamp, t.version);
    if t.gate is Err {
        (state, Err(t.gate->Err_0))
    } else if t.embed is Err {
        (screened, Err(t.embed->Err_0))
    } else {
        let kept = remembered_atom(state, atom, now, timestamp, t.embed->Ok_0);
        let (after, outcome) = stored(
            screened,
            kept,
            t.store.upsert,
            t.store.append,
            t.store.publish,
        );
        match outcome {
            Ok(_) => (after, Ok(kept.id)),
            Err(e) => (after, Err(e)),
        }
    }
}

/// The warnings that go with an answer.
pub open spec fn warnings_for(index: IndexView) -> Seq<Seq<char>> {
    if index.ready {
        Seq::empty()
    } else if index.rebuilding {
        seq!["index not ready; used fallback search"@, "index rebuilding in background"@]
    } else {
        seq!["index not ready; used fallback search"@]
    }
}

/// Whether the vector index is searched: it is ready, and the question has an embedding.
pub open spec fn searches(index: IndexView, t: AskReplies) -> bool {
    index.ready && t.embed is Ok && t.embed->Ok_0 is Some
}

/// The atoms of the reflex index or, where it has none for the question, those of a scan of
/// the storage, without quarantined ones.
pub open spec fn recalled_first(
    state: EngineState,
    q: model::QuestionView,
    t: AskReplies,
) -> std::result::Result<Seq<AtomView>, ErrorView> {
    let reflex = state.reflex.selected(ReflexFilterView::of_question(q));
    if reflex.len() > 0 {
        Ok(recall::allowed(q.world, reflex))
    } else {
        match t.fallback {
            Ok(atoms) => Ok(recall::allowed(q.world, atoms)),
            Err(e) => Err(e),
        }
    }
}

/// The atoms found by a search of the vector index.
pub open spec fn recalled_by_search(index: IndexView, t: AskReplies) -> std::result::Result<
    Seq<AtomView>,
    ErrorView,
> {
    if !searches(index, t) {
        Ok(Seq::empty())
    } else {
        match t.ids {
            Ok(ids) => if ids.len() > 0 {
                t.fetched
            } else {
                Ok(Seq::empty())
            },
            Err(e) => Err(e),
        }
    }
}

/// What is recalled for a question, or the first failure: the first atoms and those found
/// by search and, where there are none, the first of a scan with the filter alone.
pub open spec fn recollection(
    state: EngineState,
    q: model::QuestionView,
    index: IndexView,
    t: AskReplies,
) -> std::result::Result<Seq<AtomView>, ErrorView> {
    match recalled_first(state, q, t) {
        Err(e) => Err(e),
        Ok(first) => match recalled_by_search(index, t) {
            Err(e) => Err(e),
            Ok(found) => if first.len() + found.len() > 0 {
                Ok(first + found)
            } else {
                match t.bounded {
                    Ok(atoms) => Ok(recall::at_most(atoms, BOUNDED_SCAN as int)),
                    Err(e) => Err(e),
                }
            },
        },
    }
}

/// What a candidate is scored by: its importance, whether it is superseded, and how often
/// it is contradicted and confirmed.
pub open spec fn scoring_arguments(conflicts: ConflictView, atom: AtomView) -> (
    Single,
    bool,
    usize,
    usize,
) {
    (
        atom.importance.value(),
        conflicts.supersedes.contains_key(atom.id),
        conflict::listed(conflicts.contradicts, atom.id).len() as usize,
        conflict::listed(conflicts.confirms, atom.id).len() as usize,
    )
}

/// What asking a question leads to, given the replies of the components: the new state of
/// the engine, and what is recalled, with the warnings, or the first failure.
pub open spec fn asked(
    state: EngineState,
    q: model::QuestionView,
    now: Seq<char>,
    t: AskReplies,
) -> (EngineState, std::result::Result<(Seq<AtomView>, Seq<Seq<char>>), ErrorView>) {
    let criteria = ReflexFilterView::of_question(q);
    if t.gate is Err {
        (state, Err(t.gate->Err_0))
    } else if !criteria.applicable() {
        (state, Err(moment::timestamp_error(criteria.since->0)))
    } else {
        let index = index::refreshed(state.index, q.world, t.version, now);
        (
            EngineState { index, ..state },
            match recollection(state, q, index[q.world], t) {
                Ok(atoms) => Ok((atoms, warnings_for(index[q.world]))),
                Err(e) => Err(e),
            },
        )
    }
}

/// What storing an atom leads to: the vector index (for an atom with a vector), the storage,
/// the reflex index, the conflict index and the streams take it in one after the other, and
/// the first failure ends it.
pub open spec fn stored(
    state: EngineState,
    atom: AtomView,
    upsert: std::result::Result<(), ErrorView>,
    append: std::result::Result<(), ErrorView>,
    publish: std::result::Result<(), ErrorView>,
) -> (EngineState, std::result::Result<(), ErrorView>) {
    if atom.vector is Some && upsert is Err {
        (state, upsert)
    } else if append is Err {
        (state, append)
    } else if moment::moment_of(atom.timestamp) is None {
        (state, Err(moment::timestamp_error(atom.timestamp)))
    } else {
        (state.admitted(atom), publish)
    }
}

/// Whether an atom is published once it was stored: nothing before that failed.
pub open spec fn is_published(atom: AtomView, t: StoreReplies) -> bool {
    (atom.vector is None || t.upsert is Ok) && t.append is Ok && moment::moment_of(
        atom.timestamp,
    ) is Some
}

/// The calls that storing an atom makes: the vector index is given its vector, if it has one;
/// then the storage is given the atom; then, if it was taken in, the streams are.
pub open spec fn store_calls(atom: AtomView, t: StoreReplies) -> Calls {
    Calls {
        vector: match atom.vector {
            Some(vector) => seq![
                VectorCall::Upsert {
                    world: atom.world,
                    id: atom.id,
                    vector,
                    reply: t.upsert,
                },
            ],
            None => Seq::empty(),
        },
        storage: if atom.vector is Some && t.upsert is Err {
            Seq::empty()
        } else {
            seq![StorageCall::Append { atom, reply: t.append }]
        },
        stream: if is_published(atom, t) {
            seq![StreamCall::Publish { atom, reply: t.publish }]
        } else {
            Seq::empty()
        },
        ..Calls::none()
    }
}

/// The calls that a version of the embedder leads to: the index of a world is rebuilt if it
/// was built for another.
pub open spec fn version_calls(
    index: Map<Seq<char>, IndexView>,
    world: Seq<char>,
    version: Seq<char>,
    rebuild: std::result::Result<(), ErrorView>,
) -> Calls {
    if index::is_stale(index, world, version) {
        Calls::on_vector(seq![VectorCall::Rebuild { world, reply: rebuild }])
    } else {
        Calls::none()
    }
}

/// The calls that remembering a submission makes. A refusal of the gatekeeper ends it before
/// any other component is called.
pub open spec fn remember_calls(
    state: EngineState,
    atom: NewAtomView,
    now: Instant,
    timestamp: Seq<char>,
    t: RememberReplies,
) -> Calls {
    let gate = Calls::on_gate(GateCall::Remember { atom, reply: t.gate });
    if t.gate is Err {
        gate
    } else {
        let screened = gate.plus(
            version_calls(state.index, atom.world, t.version, t.rebuild),
        ).plus(
            Calls::on_embedder(
                EmbedCall {
                    payload: state.screened(atom, now, timestamp).payload_json,
                    reply: t.embed,
                },
            ),
        );
        if t.embed is Err {
            screened
        } else {
            screened.plus(
                store_calls(
                    remembered_atom(state, atom, now, timestamp, t.embed->Ok_0),
                    t.store,
                ),
            )
        }
    }
}

/// A scan of the storage.
pub open spec fn scan_call(
    world: Seq<char>,
    filter: FilterView,
    reply: std::result::Result<Seq<AtomView>, ErrorView>,
) -> Calls {
    Calls::on_storage(seq![StorageCall::Scan { world, filter, reply }])
}

/// A request for the worlds of the storage.
pub open spec fn worlds_call(reply: std::result::Result<Seq<Seq<char>>, ErrorView>) -> Calls {
    Calls::on_storage(seq![StorageCall::Worlds { reply }])
}

/// A request of atoms by id.
pub open spec fn get_call(
    ids: Seq<Seq<char>>,
    reply: std::result::Result<Seq<AtomView>, ErrorView>,
) -> Calls {
    Calls::on_storage(seq![StorageCall::Get { ids, reply }])
}

/// The calls that recalling the first atoms for a question makes: the storage is scanned
/// where the reflex index has none.
pub open spec fn first_calls(
    state: EngineState,
    q: model::QuestionView,
    t: AskReplies,
) -> Calls {
    if state.reflex.selected(ReflexFilterView::of_question(q)).len() == 0 {
        scan_call(q.world, FilterView { world: Some(q.world), ..q.filter_or_all() }, t.fallback)
    } else {
        Calls::none()
    }
}

/// The calls that a search of the vector index makes: none if it is not ready; otherwise the
/// words of the question are embedded, the index is searched if there is an embedding, and
/// the atoms it names are requested if there are any.
pub open spec fn search_calls(q: model::QuestionView, index: IndexView, t: AskReplies) -> Calls {
    if !index.ready {
        Calls::none()
    } else {
        let embedded = Calls::on_embedder(EmbedCall { payload: q.text, reply: t.embed });
        if !searches(index, t) {
            embedded
        } else {
            let searched = embedded.plus(
                Calls::on_vector(
                    seq![
                        VectorCall::Search {
                            world: q.world,
                            query: t.embed->Ok_0->0,
                            k: SEARCH_SIZE,
                            filter: q.filter_or_all(),
                            reply: t.ids,
                        },
                    ],
                ),
            );
            if t.ids is Ok && t.ids->Ok_0.len() > 0 {
                searched.plus(get_call(t.ids->Ok_0, t.fetched))
            } else {
                searched
            }
        }
    }
}

/// The calls that answering a question makes, each only if the replies before it call for it.
pub open spec fn ask_calls(
    state: EngineState,
    q: model::QuestionView,
    now: Seq<char>,
    t: AskReplies,
) -> Calls {
    let gate = Calls::on_gate(GateCall::Ask { question: q, reply: t.gate });
    let index = index::refreshed(state.index, q.world, t.version, now)[q.world];
    let first = recalled_first(state, q, t);
    let found = recalled_by_search(index, t);
    if t.gate is Err || !ReflexFilterView::of_question(q).applicable() {
        gate
    } else {
        let begun = gate.plus(version_calls(state.index, q.world, t.version, t.rebuild)).plus(
            first_calls(state, q, t),
        );
        if first is Err {
            begun
        } else {
            let searched = begun.plus(search_calls(q, index, t));
            if found is Ok && first->Ok_0.len() + found->Ok_0.len() == 0 {
                searched.plus(scan_call(q.world, q.filter_or_all(), t.bounded))
            } else {
                searched
            }
        }
    }
}

impl<S, V, T, G, E> DWBaseEngine<S, V, T, G, E> {
    /// What the engine itself holds.
    pub open spec fn state(self) -> EngineState {
        EngineState {
            reflex: self.reflex_index@,
            conflicts: self.conflict_index@,
            suspicions: self.suspicions@,
            index: self.index_state@,
            next_id: self.id_gen,
        }
    }

    /// Whether two engines have the same components.
    pub open spec fn same_components(self, other: Self) -> bool {
        &&& self.storage == other.storage
        &&& self.vector == other.vector
        &&& self.stream == other.stream
        &&& self.gatekeeper == other.gatekeeper
        &&& self.embedder == other.embedder
    }

    pub fn new(storage: S, vector: V, stream: T, gatekeeper: G, embedder: E) -> (r: Self)
        ensures
            r.storage == storage,
            r.vector == vector,
            r.stream == stream,
            r.gatekeeper == gatekeeper,
            r.embedder == embedder,
            r.state() == EngineState::initial(
                (ReflexView {
                    config: ReflexIndexConfig { recency_seconds: 300, bucket_width_seconds: 1 },
                    worlds: Seq::empty(),
                    buckets: Map::empty(),
                }),
            ),
    {
        Self::with_reflex_index(
            storage,
            vector,
            stream,
            gatekeeper,
            embedder,
            ReflexIndex::new(ReflexIndexConfig::default()),
        )
    }

    pub fn with_reflex_index(
        storage: S,
        vector: V,
        stream: T,
        gatekeeper: G,
        embedder: E,
        reflex_index: ReflexIndex,
    ) -> (r: Self)
        ensures
            r.storage == storage,
            r.vector == vector,
            r.stream == stream,
            r.gatekeeper == gatekeeper,
            r.embedder == embedder,
            r.state() == EngineState::initial(reflex_index@),
    {
        DWBaseEngine {
            storage,
            vector,
            stream,
            gatekeeper,
            embedder,
            reflex_index,
            conflict_index: ConflictIndex::default(),
            suspicions: Suspicions::new(),
            index_state: IndexState::new(),
            id_gen: 1,
        }
    }

    /// Uses up an id.
    fn new_id(&mut self) -> (r: AtomId)
        ensures
            r@ == numbered_id(old(self).state().next_id),
            final(self).same_components(*old(self)),
            final(self).state() == (EngineState {
                next_id: next_number(old(self).state().next_id),
                ..old(self).state()
            }),
    {
        let n: u64 = self.id_gen;
        self.id_gen = if n == u64::MAX {
            0
        } else {
            n + 1
        };
        AtomId(text::joined("atom-", text::decimal_of(n).as_str()))
    }

    /// Screens a submission: gives it an id and a timestamp, makes sure that the index of
    /// its world has an entry for the embedder version, notes it against the worker, and
    /// sets it apart if it is suspect.
    pub fn screen(&mut self, new_atom: NewAtom, now: &Now, embedder_version: &str) -> (r: (
        AtomId,
        NewAtom,
    ))
        ensures
            r.0@ == numbered_id(old(self).state().next_id),
            r.1@ == old(self).state().screened(new_atom@, now.instant, now.timestamp@),
            final(self).same_components(*old(self)),
            final(self).state() == old(self).state().after_screening(
                new_atom@,
                now.instant,
                now.timestamp@,
                embedder_version@,
            ),
    {
        let ghost before = self.state();
        let id = self.new_id();
        let mut atom = new_atom;
        if atom.timestamp.0.as_str().unicode_len() == 0 {
            atom.timestamp = now.timestamp.clone();
        }
        assert(atom@ =~= stamped(new_atom@, now.timestamp@));
        self.index_state.refresh(&atom.world, embedder_version, &now.timestamp);
        let lately: usize = self.suspicions.record(&atom.worker, now.instant);
        if is_suspect(&atom, lately) {
            atom = quarantined(atom);
        }
        assert(self.state() =~= before.after_screening(
            new_atom@,
            now.instant,
            now.timestamp@,
            embedder_version@,
        ));
        (id, atom)
    }

    /// Takes an atom in: into the reflex index and, if that accepts it, the conflict index.
    pub fn take_in(&mut self, atom: &Atom) -> (r: Result<()>)
        ensures
            final(self).same_components(*old(self)),
            moment::moment_of(atom@.timestamp) is Some ==> r is Ok && final(self).state() == old(self).state().admitted(atom@),
            moment::moment_of(atom@.timestamp) is None ==> final(self).state() == old(self).state()
                && model::done(r) == Err::<(), ErrorView>(moment::timestamp_error(atom@.timestamp)),
    {
        match self.reflex_index.insert(atom.clone()) {
            Ok(_) => {},
            Err(e) => {
                return Err(e);
            },
        }
        self.conflict_index.register(atom);
        Ok(())
    }

    /// What is known of the index of each world.
    pub fn index_status(&self) -> (r: Vec<IndexMetadata>)
        ensures
            forall|w: Seq<char>| #[trigger]
                self.state().index.contains_key(w) ==> lists::views(r@).contains(
                    self.state().index[w],
                ),
            forall|i: int|
                0 <= i < r@.len() ==> self.state().index.contains_value(
                    #[trigger] lists::views(r@)[i],
                ),
            r@.len() == self.state().index.dom().len(),
    {
        self.index_state.list()
    }

    /// Maximum rebuild lag (ms) across worlds that are rebuilding or not ready.
    pub fn max_index_rebuild_lag_ms(&self, now: Moment) -> (r: Option<u64>)
        ensures
            index::is_longest_lag(self.state().index, now, r),
    {
        self.index_state.longest_lag(now)
    }

    /// Puts the metadata of an index in the place of what was known of it.
    pub fn set_index_metadata(&mut self, meta: IndexMetadata)
        ensures
            final(self).same_components(*old(self)),
            final(self).state() == (EngineState {
                index: old(self).state().index.insert(meta@.world, meta@),
                ..old(self).state()
            }),
    {
        self.index_state.set(meta);
    }
}

/// The atom with the given id and the submitted content.
pub fn atom_from_new(id: AtomId, new_atom: NewAtom) -> (r: Atom)
    ensures
        r@ == new_atom@.into_atom(id@),
{
    Atom::new(
        id,
        new_atom.world,
        new_atom.worker,
        new_atom.kind,
        new_atom.timestamp,
        new_atom.importance,
        new_atom.payload_json,
        new_atom.vector,
        new_atom.flags,
        new_atom.labels,
        new_atom.links,
    )
}

impl<S, V, T, G, E> DWBaseEngine<S, V, T, G, E> where
    S: StorageEngine,
    V: VectorEngine,
    T: StreamEngine,
    G: Gatekeeper,
    E: Embedder,
 {
    /// The calls made on the components so far.
    pub open spec fn calls(self) -> Calls {
        Calls {
            storage: self.storage.history(),
            vector: self.vector.history(),
            stream: self.stream.history(),
            gate: self.gatekeeper.history(),
            embed: self.embedder.history(),
        }
    }

    /// Since an earlier moment these calls were made on the components, and nothing else
    /// about the engine changed.
    pub open spec fn only_made(self, before: Self, calls: Calls) -> bool {
        &&& self.calls() == before.calls().plus(calls)
        &&& self.state() == before.state()
    }

    /// `version` is a possible version of the embedder.
    pub open spec fn may_be_version(self, version: Seq<char>) -> bool {
        exists|v: &'static str|
            v@ == version && #[trigger] call_ensures(E::model_version, (&self.embedder,), v)
    }

    /// Gives an atom with a vector to the vector index.
    fn upsert_vector(&mut self, atom: &Atom, vector: &[Single]) -> (r: Result<()>)
        ensures
            final(self).only_made(
                *old(self),
                Calls::on_vector(
                    seq![
                        VectorCall::Upsert {
                            world: atom@.world,
                            id: atom@.id,
                            vector: vector@,
                            reply: model::done(r),
                        },
                    ],
                ),
            ),
    {
        let ghost before = *self;
        let r = self.vector.upsert(atom.world(), atom.id(), vector);
        assert(self.calls() =~= before.calls().plus(
            Calls::on_vector(
                seq![
                    VectorCall::Upsert {
                        world: atom@.world,
                        id: atom@.id,
                        vector: vector@,
                        reply: model::done(r),
                    },
                ],
            ),
        ));
        r
    }

    /// Gives an atom to the storage.
    fn append_to_storage(&mut self, atom: Atom) -> (r: Result<()>)
        ensures
            final(self).only_made(
                *old(self),
                Calls::on_storage(seq![StorageCall::Append { atom: atom@, reply: model::done(r) }]),
            ),
    {
        let ghost before = *self;
        let r = self.storage.append(atom);
        assert(self.calls() =~= before.calls().plus(
            Calls::on_storage(seq![StorageCall::Append { atom: atom@, reply: model::done(r) }]),
        ));
        r
    }

    /// Gives an atom to the streams.
    fn publish(&mut self, atom: &Atom) -> (r: Result<()>)
        ensures
            final(self).only_made(
                *old(self),
                Calls::on_stream(seq![StreamCall::Publish { atom: atom@, reply: model::done(r) }]),
            ),
    {
        let ghost before = *self;
        let r = self.stream.publish(atom);
        assert(self.calls() =~= before.calls().plus(
            Calls::on_stream(seq![StreamCall::Publish { atom: atom@, reply: model::done(r) }]),
        ));
        r
    }

    /// Stores an atom: in the vector index if it has a vector, in the storage, in the
    /// reflex and conflict indexes, and on the streams.
    fn store(&mut self, atom: &Atom) -> (r: (Result<()>, Ghost<StoreReplies>))
        ensures
            final(self).calls() == old(self).calls().plus(store_calls(atom@, r.1@)),
            (final(self).state(), model::done(r.0)) == stored(
                old(self).state(),
                atom@,
                r.1@.upsert,
                r.1@.append,
                r.1@.publish,
            ),
    {
        let ghost mut t: StoreReplies = arbitrary();
        let ghost before = self.calls();
        if let Some(vector) = atom.vector() {
            let upsert = self.upsert_vector(atom, vector);
            proof {
                t = StoreReplies { upsert: model::done(upsert), ..t };
            }
            if let Err(e) = upsert {
                assert(self.calls() =~= before.plus(store_calls(atom@, t)));
                return (Err(e), Ghost(t));
            }
        }
        let append = self.append_to_storage(atom.clone());
        proof {
            t = StoreReplies { append: model::done(append), ..t };
        }
        if let Err(e) = append {
            assert(self.calls() =~= before.plus(store_calls(atom@, t)));
            return (Err(e), Ghost(t));
        }
        if let Err(e) = self.take_in(atom) {
            assert(self.calls() =~= before.plus(store_calls(atom@, t)));
            return (Err(e), Ghost(t));
        }
        let publish = self.publish(atom);
        proof {
            t = StoreReplies { publish: model::done(publish), ..t };
        }
        assert(self.calls() =~= before.plus(store_calls(atom@, t)));
        (publish, Ghost(t))
    }

    /// Asks the embedder for its version, and has the index of a world rebuilt if it was
    /// built for another.
    fn embedder_version(&mut self, world: &WorldKey) -> (r: (
        &'static str,
        Ghost<std::result::Result<(), ErrorView>>,
    ))
        ensures
            old(self).may_be_version(r.0@),
            final(self).only_made(
                *old(self),
                version_calls(old(self).state().index, world@, r.0@, r.1@),
            ),
    {
        let ghost before = *self;
        let version = self.embedder.model_version();
        assert(call_ensures(E::model_version, (&before.embedder,), version));
        if self.index_state.needs_rebuild(world, version) {
            let rebuilt = self.vector.rebuild(world);
            assert(self.calls() =~= before.calls().plus(
                Calls::on_vector(
                    seq![VectorCall::Rebuild { world: world@, reply: model::done(rebuilt) }],
                ),
            ));
            return (version, Ghost(model::done(rebuilt)));
        }
        (version, Ghost(arbitrary()))
    }

    /// Has a text embedded.
    fn embed_text(&mut self, payload: &str) -> (r: Result<Option<Vec<Single>>>)
        ensures
            final(self).only_made(
                *old(self),
                Calls::on_embedder(EmbedCall { payload: payload@, reply: embedding(r) }),
            ),
    {
        let ghost before = *self;
        let r = self.embedder.embed(payload);
        assert(self.calls() =~= before.calls().plus(
            Calls::on_embedder(EmbedCall { payload: payload@, reply: embedding(r) }),
        ));
        r
    }

    /// Remember (persist) a new atom submitted by a worker.
    pub fn remember(&mut self, new_atom: NewAtom, now: &Now) -> (r: Result<AtomId>)
        ensures
            exists|t: RememberReplies|
                {
                    &&& final(self).calls() == old(self).calls().plus(
                        #[trigger] remember_calls(
                            old(self).state(),
                            new_atom@,
                            now.instant,
                            now.timestamp@,
                            t,
                        ),
                    )
                    &&& (final(self).state(), model::outcome(r)) == remembered(
                        old(self).state(),
                        new_atom@,
                        now.instant,
                        now.timestamp@,
                        t,
                    )
                    &&& t.gate is Ok ==> old(self).may_be_version(t.version)
                },
    {
        let ghost before = *self;
        let ghost submitted = new_atom@;
        let ghost mut t: RememberReplies = arbitrary();
        let gate = self.gatekeeper.check_remember(&new_atom);
        proof {
            t = RememberReplies { gate: model::done(gate), ..t };
            assert(self.calls() =~= before.calls().plus(
                Calls::on_gate(GateCall::Remember { atom: submitted, reply: t.gate }),
            ));
            assert(self.state() == before.state());
        }
        if let Err(e) = gate {
            assert(self.calls() == before.calls().plus(
                remember_calls(before.state(), submitted, now.instant, now.timestamp@, t),
            ));
            return Err(e);
        }
        let (version, Ghost(rebuild)) = self.embedder_version(&new_atom.world);
        proof {
            t = RememberReplies { version: version@, rebuild, ..t };
        }
        let ghost asked_version = self.calls();
        let (id, mut atom) = self.screen(new_atom, now, version);
        assert(self.calls() == asked_version);
        let embed = self.embed_text(atom.payload_json.as_str());
        proof {
            t = RememberReplies { embed: embedding(embed), ..t };
        }
        match embed {
            Err(e) => {
                assert(self.calls() == before.calls().plus(
                    remember_calls(before.state(), submitted, now.instant, now.timestamp@, t),
                ));
                Err(e)
            },
            Ok(vector) => {
                if atom.vector.is_none() {
                    atom.vector = vector;
                }
                let kept = atom_from_new(id.clone(), atom);
                let (outcome, Ghost(store)) = self.store(&kept);
                proof {
                    t = RememberReplies { store, ..t };
                    assert(kept@ == remembered_atom(
                        before.state(),
                        submitted,
                        now.instant,
                        now.timestamp@,
                        t.embed->Ok_0,
                    ));
                    assert(self.calls() == before.calls().plus(
                        remember_calls(before.state(), submitted, now.instant, now.timestamp@, t),
                    ));
                }
                match outcome {
                    Ok(_) => Ok(id),
                    Err(e) => Err(e),
                }
            },
        }
    }

    /// Scans the storage.
    fn scan_storage(&mut self, world: &WorldKey, filter: &AtomFilter) -> (r: Result<Vec<Atom>>)
        ensures
            final(self).only_made(
                *old(self),
                scan_call(world@, filter@, model::list_outcome(r)),
            ),
    {
        let ghost before = *self;
        let r = self.storage.scan(world, filter);
        assert(self.calls() =~= before.calls().plus(
            scan_call(world@, filter@, model::list_outcome(r)),
        ));
        r
    }

    /// Requests atoms by id.
    pub fn get_atoms(&mut self, ids: &[AtomId]) -> (r: Result<Vec<Atom>>)
        ensures
            final(self).only_made(
                *old(self),
                get_call(lists::views(ids@), model::list_outcome(r)),
            ),
    {
        let ghost before = *self;
        let r = self.storage.get_by_ids(ids);
        assert(self.calls() =~= before.calls().plus(
            get_call(lists::views(ids@), model::list_outcome(r)),
        ));
        r
    }

    /// Searches the vector index.
    fn search_index(&mut self, world: &WorldKey, query: &Vec<Single>, filter: &AtomFilter) -> (r:
        Result<Vec<AtomId>>)
        ensures
            final(self).only_made(
                *old(self),
                Calls::on_vector(
                    seq![
                        VectorCall::Search {
                            world: world@,
                            query: query@,
                            k: SEARCH_SIZE,
                            filter: filter@,
                            reply: model::list_outcome(r),
                        },
                    ],
                ),
            ),
    {
        let ghost before = *self;
        let r = self.vector.search(world, query.as_slice(), SEARCH_SIZE, filter);
        assert(self.calls() =~= before.calls().plus(
            Calls::on_vector(
                seq![
                    VectorCall::Search {
                        world: world@,
                        query: query@,
                        k: SEARCH_SIZE,
                        filter: filter@,
                        reply: model::list_outcome(r),
                    },
                ],
            ),
        ));
        r
    }

    /// The atoms found by a search of the vector index, if it is ready.
    fn recall_by_search(&mut self, question: &Question, index: &IndexMetadata) -> (r: (
        Result<Vec<Atom>>,
        Ghost<AskReplies>,
    ))
        ensures
            final(self).only_made(*old(self), search_calls(question@, index@, r.1@)),
            model::list_outcome(r.0) == recalled_by_search(index@, r.1@),
    {
        let ghost mut t: AskReplies = arbitrary();
        if !index.ready {
            return (Ok(Vec::new()), Ghost(t));
        }
        let embed = self.embed_text(question.text.as_str());
        proof {
            t = AskReplies { embed: embedding(embed), ..t };
        }
        if let Ok(Some(query)) = embed {
            let filter = question.filter_or_default();
            let ids = self.search_index(&question.world, &query, &filter);
            proof {
                t = AskReplies { ids: model::list_outcome(ids), ..t };
            }
            match ids {
                Ok(ids) => {
                    if ids.len() > 0 {
                        let fetched = self.get_atoms(ids.as_slice());
                        proof {
                            t = AskReplies { fetched: model::list_outcome(fetched), ..t };
                        }
                        return (fetched, Ghost(t));
                    }
                },
                Err(e) => {
                    return (Err(e), Ghost(t));
                },
            }
        }
        (Ok(Vec::new()), Ghost(t))
    }

    /// What is recalled for a question, and the warnings.
    fn recollect(&mut self, question: &Question, now: &Timestamp) -> (r: (
        Result<(Vec<Atom>, Vec<String>)>,
        Ghost<AskReplies>,
    ))
        ensures
            final(self).calls() == old(self).calls().plus(
                ask_calls(old(self).state(), question@, now@, r.1@),
            ),
            final(self).state() == asked(old(self).state(), question@, now@, r.1@).0,
            match asked(old(self).state(), question@, now@, r.1@).1 {
                Ok(recalled) => r.0 is Ok && lists::views(r.0->Ok_0.0@) == recalled.0
                    && lists::views(r.0->Ok_0.1@) == recalled.1,
                Err(e) => r.0 is Err && r.0->Err_0@ == e,
            },
            r.1@.gate is Ok && ReflexFilterView::of_question(question@).applicable() ==> old(
                self,
            ).may_be_version(r.1@.version),
    {
        let ghost before = *self;
        let ghost mut t: AskReplies = arbitrary();
        let criteria = ReflexFilter::from_question(question);
        let gate = self.gatekeeper.check_ask(question);
        proof {
            t = AskReplies { gate: model::done(gate), ..t };
            assert(self.calls() =~= before.calls().plus(
                Calls::on_gate(GateCall::Ask { question: question@, reply: t.gate }),
            ));
        }
        if let Err(e) = gate {
            return (Err(e), Ghost(t));
        }
        let reflex = match self.reflex_index.filter(&criteria) {
            Ok(atoms) => atoms,
            Err(e) => {
                return (Err(e), Ghost(t));
            },
        };
        let (version, Ghost(rebuild)) = self.embedder_version(&question.world);
        proof {
            t = AskReplies { version: version@, rebuild, ..t };
        }
        let ghost asked_version = self.calls();
        self.index_state.refresh(&question.world, version, now);
        assert(self.calls() == asked_version);
        let index = match self.index_state.get(&question.world) {
            Some(index) => index,
            None => IndexMetadata::fresh(&question.world, version, now),
        };
        let ghost model = index::refreshed(
            before.state().index,
            question@.world,
            version@,
            now@,
        )[question@.world];
        assert(index@ == model);
        let ghost refreshed = self.state();
        // Fall back to a scan of the storage if the reflex index has nothing.
        let first = if reflex.len() == 0 {
            let mut filter = question.filter_or_default();
            filter.world = Some(question.world.clone());
            let fallback = self.scan_storage(&question.world, &filter);
            proof {
                t = AskReplies { fallback: model::list_outcome(fallback), ..t };
            }
            match fallback {
                Ok(atoms) => atoms,
                Err(e) => {
                    return (Err(e), Ghost(t));
                },
            }
        } else {
            reflex
        };
        let mut candidates = exclude_quarantine(&question.world, first);
        let ghost first_models = lists::views(candidates@);
        let ghost begun = self.calls();
        assert(recalled_first(before.state(), question@, t) == Ok::<Seq<AtomView>, ErrorView>(
            first_models,
        ));
        let mut warnings: Vec<String> = Vec::new();
        if !index.ready {
            warnings.push("index not ready; used fallback search".to_owned());
            if index.rebuilding {
                warnings.push("index rebuilding in background".to_owned());
            }
        }
        assert(lists::views(warnings@) =~= warnings_for(model));
        let (search, Ghost(s)) = self.recall_by_search(question, &index);
        proof {
            t = AskReplies { embed: s.embed, ids: s.ids, fetched: s.fetched, ..t };
            assert(recalled_by_search(model, t) == recalled_by_search(model, s));
            assert(search_calls(question@, model, t) == search_calls(question@, model, s));
            assert(recalled_first(before.state(), question@, t) == Ok::<Seq<AtomView>, ErrorView>(
                first_models,
            ));
        }
        let mut found = match search {
            Ok(found) => found,
            Err(e) => {
                return (Err(e), Ghost(t));
            },
        };
        let ghost found_models = lists::views(found@);
        candidates.append(&mut found);
        // If there is still nothing, a bounded scan of the storage.
        if candidates.len() == 0 {
            let filter = question.filter_or_default();
            let bounded = self.scan_storage(&question.world, &filter);
            proof {
                t = AskReplies { bounded: model::list_outcome(bounded), ..t };
                assert(recalled_first(before.state(), question@, t) == Ok::<
                    Seq<AtomView>,
                    ErrorView,
                >(first_models));
                assert(recalled_by_search(model, t) == recalled_by_search(model, s));
                assert(search_calls(question@, model, t) == search_calls(question@, model, s));
            }
            match bounded {
                Ok(atoms) => {
                    candidates = truncate_atoms(atoms, BOUNDED_SCAN);
                },
                Err(e) => {
                    return (Err(e), Ghost(t));
                },
            }
        }
        (Ok((candidates, warnings)), Ghost(t))
    }

    /// Answer a question based on stored atoms; `score` scores the candidates.
    pub fn ask<F: Fn(Single, bool, usize, usize) -> Single>(
        &mut self,
        question: Question,
        now: &Timestamp,
        score: &F,
    ) -> (r: Result<Answer>)
        requires
            forall|importance: Single, superseded: bool, contradicted: usize, confirmed: usize|
                call_requires(*score, (importance, superseded, contradicted, confirmed)),
        ensures
            exists|t: AskReplies|
                {
                    &&& final(self).calls() == old(self).calls().plus(
                        #[trigger] ask_calls(old(self).state(), question@, now@, t),
                    )
                    &&& final(self).state() == asked(old(self).state(), question@, now@, t).0
                    &&& is_answered(
                        *score,
                        old(self).state().conflicts,
                        question@.world,
                        asked(old(self).state(), question@, now@, t).1,
                        r,
                    )
                    &&& t.gate is Ok && ReflexFilterView::of_question(question@).applicable()
                        ==> old(self).may_be_version(t.version)
                },
    {
        let ghost conflicts = self.state().conflicts;
        let (recalled, Ghost(t)) = self.recollect(&question, now);
        let (atoms, warnings) = match recalled {
            Ok(recalled) => recalled,
            Err(e) => {
                return Err(e);
            },
        };
        let ghost all = lists::views(atoms@);
        let candidates = deduplicate(atoms);
        let ghost models = lists::views(candidates@);
        let mut scores: Vec<Single> = Vec::new();
        let mut hashes: Vec<u64> = Vec::new();
        for i in 0..candidates.len()
            invariant
                forall|
                    importance: Single,
                    superseded: bool,
                    contradicted: usize,
                    confirmed: usize,
                |
                    call_requires(*score, (importance, superseded, contradicted, confirmed)),
                models == lists::views(candidates@),
                conflicts == self.state().conflicts,
                scores@.len() == i,
                hashes@.len() == i,
                forall|j: int|
                    0 <= j < i ==> call_ensures(
                        *score,
                        scoring_arguments(conflicts, models[j]),
                        #[trigger] scores@[j],
                    ),
                forall|j: int| 0 <= j < i ==> is_hash_of(models[j].worker, #[trigger] hashes@[j]),
        {
            let atom = &candidates[i];
            let superseded: bool = self.conflict_index.superseded_by(atom.id()).is_some();
            let contradicted: usize = self.conflict_index.contradiction_count(atom.id());
            let confirmed: usize = self.conflict_index.confirmation_count(atom.id());
            let importance = atom.importance().get();
            let s = score(importance, superseded, contradicted, confirmed);
            assert((importance, superseded, contradicted, confirmed) == scoring_arguments(
                conflicts,
                models[i as int],
            ));
            scores.push(s);
            let name = atom.worker().text();
            let hash: u64 = worker_hash(name);
            assert(call_ensures(worker_hash, (name,), hash));
            hashes.push(hash);
        }
        assert(may_score(*score, conflicts, recall::deduplicated(all), scores@, hashes@));
        Ok(compose_answer(question.world, &candidates, warnings, &scores, &hashes))
    }

    /// Return atom ids for a world within a time window.
    pub fn list_ids_in_window(&mut self, world: &WorldKey, window: &TimeWindow) -> (r: Result<
        Vec<AtomId>,
    >)
        ensures
            final(self).only_made(
                *old(self),
                Calls::on_storage(
                    seq![
                        StorageCall::Window {
                            world: world@,
                            window: *window,
                            reply: model::list_outcome(r),
                        },
                    ],
                ),
            ),
    {
        let ghost before = *self;
        let r = self.storage.list_ids_in_window(world, window);
        assert(self.calls() =~= before.calls().plus(
            Calls::on_storage(
                seq![
                    StorageCall::Window {
                        world: world@,
                        window: *window,
                        reply: model::list_outcome(r),
                    },
                ],
            ),
        ));
        r
    }

    /// Asks the storage for its worlds.
    fn list_storage(&mut self) -> (r: Result<Vec<WorldKey>>)
        ensures
            final(self).only_made(
                *old(self),
                worlds_call(model::list_outcome(r)),
            ),
    {
        let ghost before = *self;
        let r = self.storage.worlds();
        assert(self.calls() =~= before.calls().plus(
            worlds_call(model::list_outcome(r)),
        ));
        r
    }

    /// Shallow readiness probe: returns true if storage is reachable.
    pub fn storage_ready(&mut self) -> (r: bool)
        ensures
            exists|reply: std::result::Result<Seq<Seq<char>>, ErrorView>|
                final(self).only_made(*old(self), #[trigger] worlds_call(reply)) && r == (
                reply is Ok),
    {
        let worlds = self.list_storage();
        worlds.is_ok()
    }

    /// Observe (ingest) an atom and publish it to streams.
    pub fn observe(&mut self, atom: Atom) -> (r: Result<()>)
        ensures
            final(self).only_made(
                *old(self),
                Calls::on_stream(seq![StreamCall::Publish { atom: atom@, reply: model::done(r) }]),
            ),
    {
        self.publish(&atom)
    }

    /// Replay atoms for a world using a filter.
    pub fn replay(&mut self, world: WorldKey, filter: AtomFilter) -> (r: Result<Vec<Atom>>)
        ensures
            final(self).only_made(
                *old(self),
                scan_call(world@, filter@, model::list_outcome(r)),
            ),
    {
        self.scan_storage(&world, &filter)
    }

    /// Ingest atoms received from peers; idempotent (skips existing ids).
    pub fn ingest_remote_atoms(&mut self, atoms: Vec<Atom>) -> (r: Result<Vec<AtomId>>)
        ensures
            exists|ts: Seq<IngestReply>|
                {
                    &&& final(self).calls() == old(self).calls().plus(
                        #[trigger] ingest_calls(lists::views(atoms@), ts),
                    )
                    &&& (final(self).state(), model::list_outcome(r)) == ingested(
                        old(self).state(),
                        lists::views(atoms@),
                        ts,
                    )
                    &&& ts.len() <= atoms@.len()
                    &&& r is Ok ==> ts.len() == atoms@.len()
                },
    {
        let ghost before = *self;
        let ghost models = lists::views(atoms@);
        let ghost mut ts: Seq<IngestReply> = Seq::empty();
        let mut out: Vec<AtomId> = Vec::new();
        for i in 0..atoms.len()
            invariant
                models == lists::views(atoms@),
                before == *old(self),
                ts.len() == i,
                self.calls() == before.calls().plus(ingest_calls(models, ts)),
                (self.state(), Ok::<Seq<Seq<char>>, ErrorView>(lists::views(out@))) == ingested(
                    before.state(),
                    models,
                    ts,
                ),
        {
            let atom = &atoms[i];
            let ghost so_far = ts;
            let mut ids: Vec<AtomId> = Vec::new();
            ids.push(atom.id().clone());
            assert(lists::views(ids@) =~= seq![models[i as int].id]);
            let known = self.get_atoms(ids.as_slice());
            proof {
                ts = so_far.push(
                    IngestReply { known: model::list_outcome(known), store: arbitrary() },
                );
                assert(ts.drop_last() =~= so_far);
            }
            match known {
                Err(e) => {
                    assert(self.calls() == before.calls().plus(ingest_calls(models, ts)));
                    return Err(e);
                },
                Ok(known) => {
                    if known.len() == 0 {
                        let (outcome, Ghost(store)) = self.store(atom);
                        proof {
                            ts = so_far.push(IngestReply { known: Ok(Seq::empty()), store });
                            assert(lists::views(known@) =~= Seq::empty());
                            assert(ts.drop_last() =~= so_far);
                            assert(self.calls() == before.calls().plus(ingest_calls(models, ts)));
                        }
                        match outcome {
                            Ok(_) => {
                                out.push(atom.id().clone());
                            },
                            Err(e) => {
                                return Err(e);
                            },
                        }
                    }
                },
            }
        }
        Ok(out)
    }

    /// The status of a world, if it has one: the one that the atoms give it which the storage
    /// returns for the status filter, none if it fails.
    fn read_status(&mut self, world: &WorldKey) -> (r: (
        Option<String>,
        Ghost<std::result::Result<Seq<AtomView>, ErrorView>>,
    ))
        ensures
            final(self).only_made(
                *old(self),
                scan_call(world@, world_status::status_filter(world@), r.1@),
            ),
            lists::opt_view(r.0) == world_status::status_of(ok_or_none(r.1@)),
    {
        let filter = status_filter_of(world);
        let reply = self.scan_storage(world, &filter);
        let ghost given = model::list_outcome(reply);
        match reply {
            Ok(atoms) => (status_from(&atoms), Ghost(given)),
            Err(_) => {
                let none: Vec<Atom> = Vec::new();
                assert(lists::views(none@) =~= Seq::empty());
                (status_from(&none), Ghost(given))
            },
        }
    }

    /// The status of a world, if it has one.
    pub fn world_status(&mut self, world: &WorldKey) -> (r: Result<Option<String>>)
        ensures
            exists|reply: std::result::Result<Seq<AtomView>, ErrorView>|
                final(self).only_made(
                    *old(self),
                    #[trigger] scan_call(world@, world_status::status_filter(world@), reply),
                ) && model::opt_outcome(r) == Ok::<Option<Seq<char>>, ErrorView>(
                    world_status::status_of(ok_or_none(reply)),
                ),
    {
        let (status, Ghost(reply)) = self.read_status(world);
        Ok(status)
    }

    /// Whether a world is archived.
    pub fn world_archived(&mut self, world: &WorldKey) -> (r: Result<bool>)
        ensures
            exists|reply: std::result::Result<Seq<AtomView>, ErrorView>|
                final(self).only_made(
                    *old(self),
                    #[trigger] scan_call(world@, world_status::status_filter(world@), reply),
                ) && r == Ok::<bool, DwbaseError>(
                    world_status::is_archived(world_status::status_of(ok_or_none(reply))),
                ),
    {
        let (status, Ghost(reply)) = self.read_status(world);
        Ok(is_archived_status(&status))
    }

    /// List known worlds, excluding archived ones by default.
    pub fn worlds(&mut self) -> (r: Result<Vec<WorldKey>>)
        ensures
            exists|t: ListReplies| #[trigger]
                lists_rightly(false, t) && final(self).only_made(*old(self), list_calls(false, t))
                    && model::list_outcome(r) == listed(false, t),
    {
        self.worlds_filtered(false)
    }

    /// List known worlds with optional archived inclusion.
    pub fn worlds_filtered(&mut self, include_archived: bool) -> (r: Result<Vec<WorldKey>>)
        ensures
            exists|t: ListReplies| #[trigger]
                lists_rightly(include_archived, t) && final(self).only_made(
                    *old(self),
                    list_calls(include_archived, t),
                ) && model::list_outcome(r) == listed(include_archived, t),
    {
        let ghost before = *self;
        let ghost mut t: ListReplies = arbitrary();
        let reply = self.list_storage();
        proof {
            t = ListReplies { worlds: model::list_outcome(reply), ..t };
        }
        let names = match reply {
            Ok(names) => names,
            Err(e) => {
                assert(lists_rightly(include_archived, t));
                return Err(e);
            },
        };
        let sorted = sort_worlds(&names);
        let ghost all = lists::views(sorted@);
        proof {
            t = ListReplies { sorted: all, scans: Seq::empty(), ..t };
        }
        if include_archived {
            assert(lists_rightly(include_archived, t));
            return Ok(sorted);
        }
        let ghost named = self.calls();
        let ghost mut scans: Seq<std::result::Result<Seq<AtomView>, ErrorView>> = Seq::empty();
        let mut out: Vec<WorldKey> = Vec::new();
        for i in 0..sorted.len()
            invariant
                all == lists::views(sorted@),
                scans.len() == i,
                self.state() == before.state(),
                self.calls() == named.plus(status_calls(all, scans)),
                lists::views(out@) == active_among(
                    all.subrange(0, i as int),
                    statuses_in(scans),
                ),
        {
            let world = &sorted[i];
            let (status, Ghost(reply)) = self.read_status(world);
            proof {
                let so_far = scans;
                scans = so_far.push(reply);
                assert(scans.drop_last() =~= so_far);
                assert(statuses_in(scans).drop_last() =~= statuses_in(so_far));
                let upto = all.subrange(0, i + 1);
                assert(upto.drop_last() == all.subrange(0, i as int));
            }
            if !is_archived_status(&status) {
                out.push(world.clone());
            }
        }
        proof {
            assert(all.subrange(0, all.len() as int) == all);
            t = ListReplies { scans, ..t };
            assert(lists_rightly(include_archived, t));
        }
        Ok(out)
    }

    /// Perform a world-level action (create/archive/resume).
    pub fn manage_world(&mut self, action: WorldAction, now: &Timestamp) -> (r: Result<()>)
        ensures
            exists|t: ManageReplies|
                {
                    &&& final(self).calls() == old(self).calls().plus(
                        #[trigger] manage_calls(old(self).state(), action@, now@, t),
                    )
                    &&& (final(self).state(), model::done(r)) == managed(
                        old(self).state(),
                        TransitionView::of_action(action@),
                        now@,
                        t,
                    )
                },
    {
        let ghost before = *self;
        let ghost mut t: ManageReplies = arbitrary();
        let gate = self.gatekeeper.check_world_action(&action);
        proof {
            t = ManageReplies { gate: model::done(gate), ..t };
            assert(self.calls() =~= before.calls().plus(
                Calls::on_gate(GateCall::World { action: action@, reply: t.gate }),
            ));
            assert(self.state() == before.state());
        }
        if let Err(e) = gate {
            assert(self.calls() == before.calls().plus(
                manage_calls(before.state(), action@, now@, t),
            ));
            return Err(e);
        }
        let transition = Transition::from_action(&action);
        let (status, Ghost(scan)) = self.read_status(&transition.world);
        proof {
            t = ManageReplies { scan, ..t };
        }
        if transition.is_redundant(&status) {
            assert(self.calls() == before.calls().plus(
                manage_calls(before.state(), action@, now@, t),
            ));
            return Ok(());
        }
        let ghost scanned = self.calls();
        let id = self.new_id();
        assert(self.calls() == scanned);
        let record = transition.record(id, now.clone());
        let (outcome, Ghost(store)) = self.store(&record);
        proof {
            t = ManageReplies { store, ..t };
            assert(self.calls() == before.calls().plus(
                manage_calls(before.state(), action@, now@, t),
            ));
        }
        outcome
    }

    /// The policy of a world, from the labels of its own atoms, of the policy world and, for
    /// a world of a tenant, of the policy world of the tenant; `read` reads single-precision
    /// numbers.
    pub fn parse_policy<F: Fn(&str) -> Option<Single>>(
        &mut self,
        atoms: &Vec<Atom>,
        world: &WorldKey,
        read: &F,
    ) -> (r: GcPolicy)
        requires
            policy::is_reader(*read),
        ensures
            exists|t: PolicyReplies| #[trigger]
                names_tenant(world@, t) && final(self).only_made(
                    *old(self),
                    policy_calls(world@, t),
                ) && r@ == policy::policy_of(
                    policy_atoms(world@, lists::views(atoms@), t),
                    *read,
                ),
    {
        let ghost models = lists::views(atoms@);
        let ghost p = |a: AtomView| a.world == world@;
        let ghost mut t: PolicyReplies = arbitrary();
        let mut sources: Vec<Atom> = Vec::new();
        for i in 0..atoms.len()
            invariant
                models == lists::views(atoms@),
                p == |a: AtomView| a.world == world@,
                lists::views(sources@) == models.subrange(0, i as int).filter(p),
        {
            proof {
                let atom = atoms@[i as int]@;
                assert(models.subrange(0, i + 1) == models.subrange(0, i as int).push(atom));
                models.subrange(0, i as int).lemma_filter_push(atom, p);
            }
            if text::same(atoms[i].world().text(), world.text()) {
                sources.push(atoms[i].clone());
            }
        }
        assert(models.subrange(0, models.len() as int) == models);
        let all = AtomFilter::default();
        let reply = self.scan_storage(&policy_world_of(world), &all);
        proof {
            t = PolicyReplies { policy_scan: model::list_outcome(reply), ..t };
        }
        if let Ok(extra) = reply {
            let mut extra = extra;
            sources.append(&mut extra);
        }
        let ghost own = lists::views(sources@);
        assert(own =~= models.filter(p) + ok_or_none(t.policy_scan));
        if let Some(tenant) = tenant_policy_world_of(world) {
            let reply = self.scan_storage(&tenant, &all);
            proof {
                t = PolicyReplies {
                    tenant: tenant@,
                    tenant_scan: model::list_outcome(reply),
                    ..t
                };
                assert(policy::is_tenant_policy_world(world@, tenant@));
            }
            if let Ok(extra) = reply {
                let mut extra = extra;
                sources.append(&mut extra);
            }
        }
        assert(names_tenant(world@, t));
        assert(lists::views(sources@) =~= policy_atoms(world@, models, t));
        read_policy(&sources, read)
    }

    /// Collects the garbage of one world: the ids that its policy evicts are deleted.
    fn gc_world<F: Fn(&str) -> Option<Single>>(&mut self, world: &WorldKey, read: &F) -> (r: (
        Result<usize>,
        Ghost<GcReply>,
    ))
        requires
            policy::is_reader(*read),
        ensures
            final(self).only_made(*old(self), gc_world_calls(world@, r.1@)),
            evicts_rightly(world@, *read, r.1@),
            model::plain_outcome(r.0) == collected_from(r.1@),
    {
        let ghost before = *self;
        let ghost mut t: GcReply = arbitrary();
        let all = AtomFilter::default();
        let scan = self.scan_storage(world, &all);
        proof {
            t = GcReply { scan: model::list_outcome(scan), ..t };
        }
        let atoms = match scan {
            Ok(atoms) => atoms,
            Err(e) => {
                return (Err(e), Ghost(t));
            },
        };
        let ghost scanned = *self;
        let policy = self.parse_policy(&atoms, world, read);
        let ids = policy.evictable(&atoms);
        proof {
            let p = choose|p: PolicyReplies| #[trigger]
                names_tenant(world@, p) && self.only_made(scanned, policy_calls(world@, p))
                    && policy@ == policy::policy_of(
                    policy_atoms(world@, lists::views(atoms@), p),
                    *read,
                );
            t = GcReply { policy: p, ids: lists::views(ids@), ..t };
        }
        if ids.len() == 0 {
            return (Ok(0), Ghost(t));
        }
        let ghost parsed = *self;
        let deleted = self.storage.delete_atoms(world, ids.as_slice());
        proof {
            t = GcReply { deleted: model::plain_outcome(deleted), ..t };
            assert(self.calls() =~= parsed.calls().plus(
                Calls::on_storage(
                    seq![
                        StorageCall::Delete { world: world@, ids: t.ids, reply: t.deleted },
                    ],
                ),
            ));
            assert(self.state() == before.state());
        }
        (deleted, Ghost(t))
    }

    /// Run garbage collection once for all worlds. Returns number of atoms evicted. `read`
    /// reads single-precision numbers.
    pub fn gc_once<F: Fn(&str) -> Option<Single>>(
        &mut self,
        max_disk_mb: Option<u64>,
        read: &F,
    ) -> (r: Result<usize>)
        requires
            policy::is_reader(*read),
        ensures
            exists|reply: std::result::Result<Seq<Seq<char>>, ErrorView>, ts: Seq<GcReply>|
                #[trigger]
                gc_rightly(reply, *read, ts) && final(self).only_made(
                    *old(self),
                    gc_once_calls(reply, ts),
                ) && model::plain_outcome(r) == gc_outcome(reply, ts) && (r is Ok ==> ts.len()
                    == reply->Ok_0.len()),
    {
        let ghost before = *self;
        let reply = self.list_storage();
        let ghost given = model::list_outcome(reply);
        let ghost mut ts: Seq<GcReply> = Seq::empty();
        let worlds = match reply {
            Ok(worlds) => worlds,
            Err(e) => {
                assert(gc_rightly(given, *read, ts));
                return Err(e);
            },
        };
        let ghost names = lists::views(worlds@);
        let ghost named = self.calls();
        let mut evicted: usize = 0;
        for i in 0..worlds.len()
            invariant
                policy::is_reader(*read),
                names == lists::views(worlds@),
                given == Ok::<Seq<Seq<char>>, ErrorView>(names),
                before == *old(self),
                named == before.calls().plus(
                    worlds_call(given),
                ),
                ts.len() == i,
                self.state() == before.state(),
                self.calls() == named.plus(gc_calls(names, ts)),
                Ok::<usize, ErrorView>(evicted) == collected(ts),
                forall|j: int| 0 <= j < i ==> evicts_rightly(names[j], *read, #[trigger] ts[j]),
        {
            let (removed, Ghost(t)) = self.gc_world(&worlds[i], read);
            proof {
                let so_far = ts;
                ts = so_far.push(t);
                assert(ts.drop_last() =~= so_far);
                assert(evicts_rightly(names[i as int], *read, t));
            }
            match removed {
                Ok(n) => {
                    evicted = if n > usize::MAX - evicted {
                        usize::MAX
                    } else {
                        evicted + n
                    };
                },
                Err(e) => {
                    assert(collected(ts) == Err::<usize, ErrorView>(e@));
                    assert(gc_rightly(given, *read, ts));
                    return Err(e);
                },
            }
        }
        assert(gc_rightly(given, *read, ts));
        Ok(evicted)
    }
}

/// The ids evicted from each of the worlds that the storage names are those that its policy
/// evicts.
pub open spec fn gc_rightly<F: Fn(&str) -> Option<Single>>(
    reply: std::result::Result<Seq<Seq<char>>, ErrorView>,
    read: F,
    ts: Seq<GcReply>,
) -> bool {
    reply matches Ok(worlds) ==> ts.len() <= worlds.len() && forall|i: int|
        0 <= i < ts.len() ==> evicts_rightly(worlds[i], read, #[trigger] ts[i])
}

/// The calls that collecting garbage makes: the storage is asked for its worlds, and the
/// garbage of each is collected.
pub open spec fn gc_once_calls(
    reply: std::result::Result<Seq<Seq<char>>, ErrorView>,
    ts: Seq<GcReply>,
) -> Calls {
    let named = worlds_call(reply);
    match reply {
        Err(_) => named,
        Ok(worlds) => named.plus(gc_calls(worlds, ts)),
    }
}

/// How many atoms were removed altogether, or the first failure.
pub open spec fn gc_outcome(
    reply: std::result::Result<Seq<Seq<char>>, ErrorView>,
    ts: Seq<GcReply>,
) -> std::result::Result<usize, ErrorView> {
    match reply {
        Err(e) => Err(e),
        Ok(_) => collected(ts),
    }
}

/// Replies of the storage while the policy of a world is read.
pub ghost struct PolicyReplies {
    pub policy_scan: std::result::Result<Seq<AtomView>, ErrorView>,
    /// The policy world of the tenant.
    pub tenant: Seq<char>,
    pub tenant_scan: std::result::Result<Seq<AtomView>, ErrorView>,
}

/// The calls that reading the policy of a world makes: scans of its policy world and, if it
/// belongs to a tenant, of that of the tenant.
pub open spec fn policy_calls(world: Seq<char>, t: PolicyReplies) -> Calls {
    let own = scan_call(policy::policy_world(world), FilterView::all(), t.policy_scan);
    if policy::tenant_scoped(world) {
        own.plus(scan_call(t.tenant, FilterView::all(), t.tenant_scan))
    } else {
        own
    }
}

/// The policy world of the tenant is the one of the world.
pub open spec fn names_tenant(world: Seq<char>, t: PolicyReplies) -> bool {
    policy::tenant_scoped(world) ==> policy::is_tenant_policy_world(world, t.tenant)
}

/// The calls that collecting the garbage of a world makes: a scan, those that reading the
/// policy makes and, if there are ids to evict, one deletion of exactly those.
pub open spec fn gc_world_calls(world: Seq<char>, t: GcReply) -> Calls {
    let scan = scan_call(world, FilterView::all(), t.scan);
    if t.scan is Err {
        scan
    } else {
        let read = scan.plus(policy_calls(world, t.policy));
        if t.ids.len() == 0 {
            read
        } else {
            read.plus(
                Calls::on_storage(
                    seq![StorageCall::Delete { world, ids: t.ids, reply: t.deleted }],
                ),
            )
        }
    }
}

/// The evicted ids are those that the policy of the world evicts.
pub open spec fn evicts_rightly<F: Fn(&str) -> Option<Single>>(
    world: Seq<char>,
    read: F,
    t: GcReply,
) -> bool {
    t.scan is Ok ==> names_tenant(world, t.policy) && policy::is_eviction(
        policy::policy_of(policy_atoms(world, t.scan->Ok_0, t.policy), read),
        t.scan->Ok_0,
        t.ids,
    )
}

/// The calls that collecting the garbage of the first of some worlds makes, as many as there
/// are replies.
pub open spec fn gc_calls(worlds: Seq<Seq<char>>, ts: Seq<GcReply>) -> Calls
    decreases ts.len(),
{
    if ts.len() == 0 {
        Calls::none()
    } else {
        gc_calls(worlds, ts.drop_last()).plus(
            gc_world_calls(worlds[ts.len() - 1], ts.last()),
        )
    }
}

/// Reply of the storage while the garbage of a world is collected, and the evicted ids.
pub ghost struct GcReply {
    pub scan: std::result::Result<Seq<AtomView>, ErrorView>,
    pub policy: PolicyReplies,
    pub ids: Seq<Seq<char>>,
    pub deleted: std::result::Result<usize, ErrorView>,
}

/// The atoms of a reply, none if it is a failure.
pub open spec fn ok_or_none(
    reply: std::result::Result<Seq<AtomView>, ErrorView>,
) -> Seq<AtomView> {
    match reply {
        Ok(atoms) => atoms,
        Err(_) => Seq::empty(),
    }
}

/// The atoms whose labels make up the policy of a world: its own, those of its policy
/// world and, if it belongs to a tenant, those of the policy world of the tenant.
pub open spec fn policy_atoms(
    world: Seq<char>,
    atoms: Seq<AtomView>,
    t: PolicyReplies,
) -> Seq<AtomView> {
    let own = atoms.filter(|a: AtomView| a.world == world) + ok_or_none(t.policy_scan);
    if policy::tenant_scoped(world) {
        own + ok_or_none(t.tenant_scan)
    } else {
        own
    }
}

/// How many atoms were removed from a world, or the failure.
pub open spec fn collected_from(t: GcReply) -> std::result::Result<usize, ErrorView> {
    match t.scan {
        Err(e) => Err(e),
        Ok(_) => if t.ids.len() == 0 {
            Ok(0)
        } else {
            t.deleted
        },
    }
}

/// How many atoms were removed altogether, or the first failure.
pub open spec fn collected(ts: Seq<GcReply>) -> std::result::Result<usize, ErrorView>
    decreases ts.len(),
{
    if ts.len() == 0 {
        Ok(0)
    } else {
        match collected(ts.drop_last()) {
            Err(e) => Err(e),
            Ok(before) => match collected_from(ts.last()) {
                Err(e) => Err(e),
                Ok(n) => if before + n > usize::MAX {
                    Ok(usize::MAX)
                } else {
                    Ok((before + n) as usize)
                },
            },
        }
    }
}

/// Taking in remote atoms whose ids the storage knows already changes nothing and takes
/// none of them in: the storage is asked for each, and nothing is stored or published.
pub proof fn ingesting_known_atoms_changes_nothing(
    state: EngineState,
    atoms: Seq<AtomView>,
    ts: Seq<IngestReply>,
)
    requires
        forall|i: int|
            0 <= i < ts.len() ==> (#[trigger] ts[i]).known is Ok && ts[i].known->Ok_0.len() > 0,
    ensures
        ingested(state, atoms, ts) == (
            state,
            Ok::<Seq<Seq<char>>, ErrorView>(Seq::empty()),
        ),
        ({
            let calls = ingest_calls(atoms, ts);
            &&& calls == Calls::on_storage(calls.storage)
            &&& calls.storage.len() == ts.len()
            &&& forall|i: int| 0 <= i < ts.len() ==> (#[trigger] calls.storage[i]) is Get
        }),
    decreases ts.len(),
{
    if ts.len() > 0 {
        let rest = ts.drop_last();
        assert forall|i: int| 0 <= i < rest.len() implies (#[trigger] rest[i]).known is Ok
            && rest[i].known->Ok_0.len() > 0 by {
            assert(ts[i].known is Ok);
        }
        ingesting_known_atoms_changes_nothing(state, atoms, rest);
        assert(ts[ts.len() - 1].known is Ok);
    }
    let calls = ingest_calls(atoms, ts);
    assert(calls =~= Calls::on_storage(calls.storage));
}

/// A submission that the gatekeeper refuses leaves the engine as it is and is answered with
/// the refusal; no component but the gatekeeper is called.
pub proof fn refused_submission_changes_nothing(
    state: EngineState,
    atom: NewAtomView,
    now: Instant,
    timestamp: Seq<char>,
    t: RememberReplies,
)
    requires
        t.gate is Err,
    ensures
        remembered(state, atom, now, timestamp, t) == (
            state,
            Err::<Seq<char>, ErrorView>(t.gate->Err_0),
        ),
        remember_calls(state, atom, now, timestamp, t) == Calls::on_gate(
            GateCall::Remember { atom, reply: t.gate },
        ),
{
}

/// Where every component accepts a submission with a valid timestamp, the id it is answered
/// with is the next one, the atom is in the reflex index, and the next submission gets
/// another id; the atom is appended once and published once.
pub proof fn accepted_submission_is_kept(
    state: EngineState,
    atom: NewAtomView,
    now: Instant,
    timestamp: Seq<char>,
    t: RememberReplies,
)
    requires
        t.gate is Ok,
        t.embed is Ok,
        t.store.upsert is Ok,
        t.store.append is Ok,
        t.store.publish is Ok,
        moment::moment_of(stamped(atom, timestamp).timestamp) is Some,
    ensures
        ({
            let (after, outcome) = remembered(state, atom, now, timestamp, t);
            let kept = remembered_atom(state, atom, now, timestamp, t.embed->Ok_0);
            let calls = remember_calls(state, atom, now, timestamp, t);
            &&& outcome == Ok::<Seq<char>, ErrorView>(numbered_id(state.next_id))
            &&& after.reflex == state.reflex.inserted(kept)
            &&& after.conflicts == state.conflicts.registered(kept)
            &&& after.next_id != state.next_id
            &&& calls.gate.len() == 1
            &&& calls.embed.len() == 1
            &&& calls.storage == seq![
                StorageCall::Append { atom: kept, reply: t.store.append },
            ]
            &&& calls.stream == seq![
                StreamCall::Publish { atom: kept, reply: t.store.publish },
            ]
        }),
{
    let kept = remembered_atom(state, atom, now, timestamp, t.embed->Ok_0);
    let calls = remember_calls(state, atom, now, timestamp, t);
    assert(calls.storage =~= seq![StorageCall::Append { atom: kept, reply: t.store.append }]);
    assert(calls.stream =~= seq![StreamCall::Publish { atom: kept, reply: t.store.publish }]);
}

/// An atom that was taken in is recalled for a question about its world whose filter it meets,
/// whatever the storage replies, as long as the window of the reflex index reaches back and the
/// search of the vector index does not fail; the answer has an atom with its id.
pub proof fn taken_in_atom_is_recalled(
    before: EngineState,
    atom: AtomView,
    q: model::QuestionView,
    now: Seq<char>,
    t: AskReplies,
)
    requires
        before.reflex.config.window() >= 0,
        q.world == atom.world,
        ReflexFilterView::of_question(q).applicable(),
        ReflexFilterView::of_question(q).admits(atom),
        t.gate is Ok,
        recalled_by_search(
            index::refreshed(before.index, q.world, t.version, now)[q.world],
            t,
        ) is Ok,
    ensures
        ({
            let recalled = asked(before.admitted(atom), q, now, t).1;
            &&& recalled is Ok
            &&& recalled->Ok_0.0.contains(atom)
            &&& recall::has_id(recall::deduplicated(recalled->Ok_0.0), atom.id)
        }),
{
    let state = before.admitted(atom);
    let criteria = ReflexFilterView::of_question(q);
    crate::reflex::inserted_atom_is_selected(before.reflex, atom, criteria);
    let selected = state.reflex.selected(criteria);
    let n = choose|n: int| 0 <= n < selected.len() && selected[n] == atom;
    let first = recall::allowed(q.world, selected);
    assert(first.contains(atom)) by {
        if !quarantine::is_quarantine(q.world) {
            selected.lemma_filter_contains(
                |a: AtomView| !quarantine::is_quarantine(a.world),
                n,
            );
        }
    }
    let k = choose|k: int| 0 <= k < first.len() && first[k] == atom;
    let index = index::refreshed(state.index, q.world, t.version, now)[q.world];
    let found = recalled_by_search(index, t)->Ok_0;
    assert((first + found)[k] == atom);
    assert(recollection(state, q, index, t) == Ok::<Seq<AtomView>, ErrorView>(first + found));
    recall::deduplicated_keeps_ids(first + found, atom.id);
}

/// A submission with a timestamp that cannot be read is appended, but neither taken into the
/// reflex index nor published, and the answer is the error.
pub proof fn undated_submission_is_not_published(
    state: EngineState,
    atom: NewAtomView,
    now: Instant,
    timestamp: Seq<char>,
    t: RememberReplies,
)
    requires
        t.gate is Ok,
        t.embed is Ok,
        t.store.upsert is Ok,
        t.store.append is Ok,
        moment::moment_of(stamped(atom, timestamp).timestamp) is None,
    ensures
        ({
            let (after, outcome) = remembered(state, atom, now, timestamp, t);
            let calls = remember_calls(state, atom, now, timestamp, t);
            &&& outcome == Err::<Seq<char>, ErrorView>(
                moment::timestamp_error(stamped(atom, timestamp).timestamp),
            )
            &&& after.reflex == state.reflex
            &&& calls.storage.len() == 1 && calls.storage[0] is Append
            &&& calls.stream.len() == 0
        }),
{
}

/// An action that gives a world the status it has already is no error and changes nothing:
/// the gatekeeper is asked and the status is read, and nothing is stored or published.
pub proof fn repeated_action_changes_nothing(
    state: EngineState,
    action: model::WorldActionView,
    now: Seq<char>,
    t: ManageReplies,
)
    requires
        t.gate is Ok,
        TransitionView::of_action(action).is_redundant(t.status()),
    ensures
        managed(state, TransitionView::of_action(action), now, t) == (
            state,
            Ok::<(), ErrorView>(()),
        ),
        ({
            let calls = manage_calls(state, action, now, t);
            &&& calls.storage.len() == 1 && calls.storage[0] is Scan
            &&& calls.vector.len() == 0
            &&& calls.stream.len() == 0
            &&& calls.embed.len() == 0
        }),
{
}

/// Collecting garbage deletes nothing but the evicted ids, from their own worlds, and calls
/// no component but the storage.
pub proof fn only_evicted_ids_are_deleted(worlds: Seq<Seq<char>>, ts: Seq<GcReply>)
    ensures
        ({
            let calls = gc_calls(worlds, ts);
            &&& calls == Calls::on_storage(calls.storage)
            &&& forall|k: int|
                0 <= k < calls.storage.len() ==> is_owed((#[trigger] calls.storage[k]), worlds, ts)
        }),
    decreases ts.len(),
{
    if ts.len() > 0 {
        let rest = ts.drop_last();
        let before = gc_calls(worlds, rest);
        let world = worlds[ts.len() - 1];
        let own = gc_world_calls(world, ts.last());
        only_evicted_ids_are_deleted(worlds, rest);
        let calls = gc_calls(worlds, ts);
        assert(calls =~= Calls::on_storage(before.storage + own.storage));
        assert forall|k: int| 0 <= k < calls.storage.len() implies is_owed(
            (#[trigger] calls.storage[k]),
            worlds,
            ts,
        ) by {
            if k < before.storage.len() {
                assert(calls.storage[k] == before.storage[k]);
                if calls.storage[k] is Delete {
                    let i = choose|i: int|
                        0 <= i < rest.len() && evicts(calls.storage[k], worlds[i], #[trigger] rest[i]);
                    assert(rest[i] == ts[i]);
                }
            } else {
                let own_k = k - before.storage.len();
                assert(calls.storage[k] == own.storage[own_k]);
                assert(ts[ts.len() - 1] == ts.last());
                if calls.storage[k] is Delete {
                    assert(evicts(calls.storage[k], world, ts.last()));
                }
            }
        }
    } else {
        assert(gc_calls(worlds, ts) =~= Calls::on_storage(Seq::empty()));
    }
}

/// Whether a call deletes from a world the ids that were evicted.
pub open spec fn evicts(call: StorageCall, world: Seq<char>, t: GcReply) -> bool {
    call == (StorageCall::Delete { world, ids: t.ids, reply: t.deleted })
}

/// Whether a call is no deletion, or one of the ids evicted from one of the worlds.
pub open spec fn is_owed(call: StorageCall, worlds: Seq<Seq<char>>, ts: Seq<GcReply>) -> bool {
    call is Delete ==> exists|i: int|
        0 <= i < ts.len() && evicts(call, worlds[i], #[trigger] ts[i])
}

/// The list of worlds without the archived ones is the full list less those.
pub proof fn short_list_is_full_list_less_archived(
    worlds: Seq<Seq<char>>,
    statuses: Seq<Option<Seq<char>>>,
    status: spec_fn(Seq<char>) -> Option<Seq<char>>,
)
    requires
        worlds.len() == statuses.len(),
        forall|i: int| 0 <= i < worlds.len() ==> #[trigger] statuses[i] == status(worlds[i]),
    ensures
        unarchived(worlds, statuses, false) == unarchived(worlds, statuses, true).filter(
            |w: Seq<char>| !world_status::is_archived(status(w)),
        ),
    decreases worlds.len(),
{
    let p = |w: Seq<char>| !world_status::is_archived(status(w));
    if worlds.len() > 0 {
        let ws = worlds.drop_last();
        let ss = statuses.drop_last();
        assert forall|i: int| 0 <= i < ws.len() implies #[trigger] ss[i] == status(ws[i]) by {
            assert(statuses[i] == status(worlds[i]));
        }
        short_list_is_full_list_less_archived(ws, ss, status);
        ws.lemma_filter_push(worlds.last(), p);
        assert(ws.push(worlds.last()) =~= worlds);
        assert(statuses[worlds.len() - 1] == statuses.last());
    } else {
        reveal(Seq::filter);
        assert(worlds.filter(p) =~= Seq::empty());
    }
}

/// Every world that is listed without the archived ones has a status other than archived,
/// and every world left out is archived.
pub proof fn archived_worlds_are_hidden(
    worlds: Seq<Seq<char>>,
    statuses: Seq<Option<Seq<char>>>,
    world: Seq<char>,
)
    requires
        worlds.len() == statuses.len(),
    ensures
        unarchived(worlds, statuses, false).contains(world) <==> exists|i: int|
            0 <= i < worlds.len() && worlds[i] == world && !world_status::is_archived(
                #[trigger] statuses[i],
            ),
    decreases worlds.len(),
{
    if worlds.len() > 0 {
        let ws = worlds.drop_last();
        let ss = statuses.drop_last();
        archived_worlds_are_hidden(ws, ss, world);
        let before = active_among(ws, ss);
        let after = active_among(worlds, statuses);
        if before.contains(world) {
            let i = choose|i: int|
                0 <= i < ws.len() && ws[i] == world && !world_status::is_archived(
                    #[trigger] ss[i],
                );
            assert(statuses[i] == ss[i]);
            let k = choose|k: int| 0 <= k < before.len() && before[k] == world;
            assert(after[k] == world);
        }
        if !world_status::is_archived(statuses.last()) {
            assert(after.last() == worlds.last());
            assert(statuses[worlds.len() - 1] == statuses.last());
            if after.contains(world) && worlds.last() != world {
                let k = choose|k: int| 0 <= k < after.len() && after[k] == world;
                assert(before[k] == world);
            }
        }
        if exists|i: int|
            0 <= i < worlds.len() && worlds[i] == world && !world_status::is_archived(
                #[trigger] statuses[i],
            ) {
            let i = choose|i: int|
                0 <= i < worlds.len() && worlds[i] == world && !world_status::is_archived(
                    #[trigger] statuses[i],
                );
            if i < ws.len() {
                assert(ss[i] == statuses[i]);
            }
        }
    }
}

/// Reply of the components while a remote atom is taken in.
pub ghost struct IngestReply {
    pub known: std::result::Result<Seq<AtomView>, ErrorView>,
    pub store: StoreReplies,
}

/// What taking in the first of some remote atoms leads to, as many as there are replies:
/// the new state, and the ids of those taken in or the first failure. An atom whose id the
/// storage knows is passed over.
pub open spec fn ingested(
    state: EngineState,
    atoms: Seq<AtomView>,
    ts: Seq<IngestReply>,
) -> (EngineState, std::result::Result<Seq<Seq<char>>, ErrorView>)
    decreases ts.len(),
{
    if ts.len() == 0 {
        (state, Ok(Seq::empty()))
    } else {
        let (before, outcome) = ingested(state, atoms, ts.drop_last());
        let atom = atoms[ts.len() - 1];
        let t = ts.last();
        match outcome {
            Err(e) => (before, Err(e)),
            Ok(ids) => match t.known {
                Err(e) => (before, Err(e)),
                Ok(known) => if known.len() > 0 {
                    (before, Ok(ids))
                } else {
                    let (after, kept) = stored(
                        before,
                        atom,
                        t.store.upsert,
                        t.store.append,
                        t.store.publish,
                    );
                    match kept {
                        Ok(_) => (after, Ok(ids.push(atom.id))),
                        Err(e) => (after, Err(e)),
                    }
                },
            },
        }
    }
}

/// The calls that taking in the first of some remote atoms makes, as many as there are
/// replies: each is looked for by its id, and stored if the storage knows none with it.
pub open spec fn ingest_calls(atoms: Seq<AtomView>, ts: Seq<IngestReply>) -> Calls
    decreases ts.len(),
{
    if ts.len() == 0 {
        Calls::none()
    } else {
        let atom = atoms[ts.len() - 1];
        let t = ts.last();
        let asked = ingest_calls(atoms, ts.drop_last()).plus(get_call(seq![atom.id], t.known));
        if t.known is Ok && t.known->Ok_0.len() == 0 {
            asked.plus(store_calls(atom, t.store))
        } else {
            asked
        }
    }
}

/// The scans for the statuses of worlds.
pub open spec fn status_calls(
    worlds: Seq<Seq<char>>,
    replies: Seq<std::result::Result<Seq<AtomView>, ErrorView>>,
) -> Calls
    decreases replies.len(),
{
    if replies.len() == 0 {
        Calls::none()
    } else {
        let world = worlds[replies.len() - 1];
        status_calls(worlds, replies.drop_last()).plus(
            scan_call(world, world_status::status_filter(world), replies.last()),
        )
    }
}

/// The statuses that the replies of the storage give to worlds.
pub open spec fn statuses_in(
    replies: Seq<std::result::Result<Seq<AtomView>, ErrorView>>,
) -> Seq<Option<Seq<char>>> {
    Seq::new(replies.len(), |i: int| world_status::status_of(ok_or_none(replies[i])))
}

/// Replies of the storage while worlds are listed, and the worlds in dictionary order.
pub ghost struct ListReplies {
    pub worlds: std::result::Result<Seq<Seq<char>>, ErrorView>,
    pub sorted: Seq<Seq<char>>,
    pub scans: Seq<std::result::Result<Seq<AtomView>, ErrorView>>,
}

/// The calls that listing worlds makes: the storage is asked for them and, unless archived
/// ones are asked for too, scanned for the status of each.
pub open spec fn list_calls(include_archived: bool, t: ListReplies) -> Calls {
    let named = worlds_call(t.worlds);
    if t.worlds is Err || include_archived {
        named
    } else {
        named.plus(status_calls(t.sorted, t.scans))
    }
}

/// The worlds in dictionary order, with a status for each if archived ones are left out.
pub open spec fn lists_rightly(include_archived: bool, t: ListReplies) -> bool {
    t.worlds matches Ok(names) ==> {
        &&& lists::is_sorted(t.sorted)
        &&& t.sorted.to_multiset() == names.to_multiset()
        &&& !include_archived ==> t.scans.len() == t.sorted.len()
    }
}

/// The list of the worlds that the storage names, in dictionary order, without the archived
/// ones unless they are asked for; or the failure.
pub open spec fn listed(include_archived: bool, t: ListReplies) -> std::result::Result<
    Seq<Seq<char>>,
    ErrorView,
> {
    match t.worlds {
        Err(e) => Err(e),
        Ok(_) => Ok(unarchived(t.sorted, statuses_in(t.scans), include_archived)),
    }
}

/// The worlds whose status is not that of an archived one.
pub open spec fn active_among(
    worlds: Seq<Seq<char>>,
    statuses: Seq<Option<Seq<char>>>,
) -> Seq<Seq<char>>
    decreases worlds.len(),
{
    if worlds.len() == 0 {
        Seq::empty()
    } else {
        let before = active_among(worlds.drop_last(), statuses.drop_last());
        if world_status::is_archived(statuses.last()) {
            before
        } else {
            before.push(worlds.last())
        }
    }
}

/// The worlds, without the archived ones unless they are asked for.
pub open spec fn unarchived(
    worlds: Seq<Seq<char>>,
    statuses: Seq<Option<Seq<char>>>,
    include_archived: bool,
) -> Seq<Seq<char>> {
    if include_archived {
        worlds
    } else {
        active_among(worlds, statuses)
    }
}

/// Replies of the components while a world action is performed.
pub ghost struct ManageReplies {
    pub gate: std::result::Result<(), ErrorView>,
    pub scan: std::result::Result<Seq<AtomView>, ErrorView>,
    pub store: StoreReplies,
}

impl ManageReplies {
    /// The status that the world has.
    pub open spec fn status(self) -> Option<Seq<char>> {
        world_status::status_of(ok_or_none(self.scan))
    }
}

/// The calls that a world action makes: the gatekeeper is asked; the storage is scanned for
/// the status of the world; and a transition that says something new is stored.
pub open spec fn manage_calls(
    state: EngineState,
    action: model::WorldActionView,
    now: Seq<char>,
    t: ManageReplies,
) -> Calls {
    let transition = TransitionView::of_action(action);
    let gate = Calls::on_gate(GateCall::World { action, reply: t.gate });
    if t.gate is Err {
        gate
    } else {
        let scanned = gate.plus(
            scan_call(
                transition.world,
                world_status::status_filter(transition.world),
                t.scan,
            ),
        );
        if transition.is_redundant(t.status()) {
            scanned
        } else {
            scanned.plus(
                store_calls(transition.record(numbered_id(state.next_id), now), t.store),
            )
        }
    }
}

/// What a world action leads to, given the replies of the components: a transition that
/// says nothing new leaves the engine as it is; any other is recorded in an atom.
pub open spec fn managed(
    state: EngineState,
    transition: TransitionView,
    now: Seq<char>,
    t: ManageReplies,
) -> (EngineState, std::result::Result<(), ErrorView>) {
    if t.gate is Err {
        (state, Err(t.gate->Err_0))
    } else if transition.is_redundant(t.status()) {
        (state, Ok(()))
    } else {
        stored(
            EngineState { next_id: next_number(state.next_id), ..state },
            transition.record(numbered_id(state.next_id), now),
            t.store.upsert,
            t.store.append,
            t.store.publish,
        )
    }
}

/// `r` answers a question about a world with what was recalled, each id once, ranked by
/// possible scores; or it is the failure.
pub open spec fn is_answered<F: Fn(Single, bool, usize, usize) -> Single>(
    score: F,
    conflicts: ConflictView,
    world: Seq<char>,
    recalled: std::result::Result<(Seq<AtomView>, Seq<Seq<char>>), ErrorView>,
    r: Result<Answer>,
) -> bool {
    match recalled {
        Err(e) => r is Err && r->Err_0@ == e,
        Ok((atoms, warnings)) => {
            let candidates = recall::deduplicated(atoms);
            &&& r is Ok
            &&& r->Ok_0@.world == world
            &&& r->Ok_0@.text == recall::pending_text()
            &&& r->Ok_0@.warnings == warnings
            &&& exists|scores: Seq<Single>, hashes: Seq<u64>| #[trigger]
                may_score(score, conflicts, candidates, scores, hashes) && recall::is_ranking(
                    candidates,
                    scores,
                    hashes,
                    r->Ok_0@.supporting_atoms,
                )
        },
    }
}

/// `scores` are possible scores of the candidates, and `hashes` are hashes of their workers.
pub open spec fn may_score<F: Fn(Single, bool, usize, usize) -> Single>(
    score: F,
    conflicts: ConflictView,
    candidates: Seq<AtomView>,
    scores: Seq<Single>,
    hashes: Seq<u64>,
) -> bool {
    &&& scores.len() == candidates.len()
    &&& hashes.len() == candidates.len()
    &&& forall|i: int|
        0 <= i < candidates.len() ==> call_ensures(
            score,
            scoring_arguments(conflicts, candidates[i]),
            #[trigger] scores[i],
        )
    &&& forall|i: int|
        0 <= i < candidates.len() ==> is_hash_of(candidates[i].worker, #[trigger] hashes[i])
}

}
