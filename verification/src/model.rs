//! Requests, answers and errors exchanged with the engine.

use vstd::prelude::*;
use vstd::string::*;

use crate::atom::{
    duplicate_vector, Atom, AtomKind, AtomView, Importance, Link, LinkView, Timestamp, WorkerKey,
    WorldKey,
};
use crate::lists;
use crate::lists::{duplicate_all, duplicate_opt, Duplicate};
use crate::single::Single;
use crate::text;

verus! {

/// Result of an engine operation.
pub type Result<T> = std::result::Result<T, DwbaseError>;

/// Errors surfaced by the engine layer.
#[derive(Debug, PartialEq, Eq)]
pub enum DwbaseError {
    CapabilityDenied(String),
    InvalidInput(String),
    Storage(String),
    Vector(String),
    Stream(String),
    Internal(String),
}

/// Model of an error.
pub ghost enum ErrorView {
    CapabilityDenied(Seq<char>),
    InvalidInput(Seq<char>),
    Storage(Seq<char>),
    Vector(Seq<char>),
    Stream(Seq<char>),
    Internal(Seq<char>),
}

impl View for DwbaseError {
    type V = ErrorView;

    open spec fn view(&self) -> ErrorView {
        match self {
            DwbaseError::CapabilityDenied(s) => ErrorView::CapabilityDenied(s@),
            DwbaseError::InvalidInput(s) => ErrorView::InvalidInput(s@),
            DwbaseError::Storage(s) => ErrorView::Storage(s@),
            DwbaseError::Vector(s) => ErrorView::Vector(s@),
            DwbaseError::Stream(s) => ErrorView::Stream(s@),
            DwbaseError::Internal(s) => ErrorView::Internal(s@),
        }
    }
}

impl Clone for DwbaseError {
    fn clone(&self) -> (r: Self)
        ensures
            r@ == self@,
    {
        match self {
            DwbaseError::CapabilityDenied(s) => DwbaseError::CapabilityDenied(s.clone()),
            DwbaseError::InvalidInput(s) => DwbaseError::InvalidInput(s.clone()),
            DwbaseError::Storage(s) => DwbaseError::Storage(s.clone()),
            DwbaseError::Vector(s) => DwbaseError::Vector(s.clone()),
            DwbaseError::Stream(s) => DwbaseError::Stream(s.clone()),
            DwbaseError::Internal(s) => DwbaseError::Internal(s.clone()),
        }
    }
}

impl ErrorView {
    /// What the error says.
    pub open spec fn message(self) -> Seq<char> {
        match self {
            ErrorView::CapabilityDenied(s) => "capability denied: "@ + s,
            ErrorView::InvalidInput(s) => "invalid input: "@ + s,
            ErrorView::Storage(s) => "storage error: "@ + s,
            ErrorView::Vector(s) => "vector error: "@ + s,
            ErrorView::Stream(s) => "stream error: "@ + s,
            ErrorView::Internal(s) => "internal error: "@ + s,
        }
    }
}

impl DwbaseError {
    /// What the error says.
    pub fn message(&self) -> (r: String)
        ensures
            r@ == self@.message(),
    {
        match self {
            DwbaseError::CapabilityDenied(s) => text::joined("capability denied: ", s.as_str()),
            DwbaseError::InvalidInput(s) => text::joined("invalid input: ", s.as_str()),
            DwbaseError::Storage(s) => text::joined("storage error: ", s.as_str()),
            DwbaseError::Vector(s) => text::joined("vector error: ", s.as_str()),
            DwbaseError::Stream(s) => text::joined("stream error: ", s.as_str()),
            DwbaseError::Internal(s) => text::joined("internal error: ", s.as_str()),
        }
    }
}

/// Model of the outcome of an operation.
pub open spec fn outcome<T: View>(r: Result<T>) -> std::result::Result<T::V, ErrorView> {
    match r {
        Ok(x) => Ok(x.view()),
        Err(e) => Err(e@),
    }
}

/// Model of the outcome of an operation that gives a plain value.
pub open spec fn plain_outcome<T>(r: Result<T>) -> std::result::Result<T, ErrorView> {
    match r {
        Ok(x) => Ok(x),
        Err(e) => Err(e@),
    }
}

/// Whether an operation succeeded, or its error.
pub open spec fn done<T>(r: Result<T>) -> std::result::Result<(), ErrorView> {
    match r {
        Ok(_) => Ok(()),
        Err(e) => Err(e@),
    }
}

/// Model of the outcome of an operation that may give a value.
pub open spec fn opt_outcome<T: View>(r: Result<Option<T>>) -> std::result::Result<
    Option<T::V>,
    ErrorView,
> {
    match r {
        Ok(x) => Ok(lists::opt_view(x)),
        Err(e) => Err(e@),
    }
}

/// Model of the outcome of an operation that gives a list.
pub open spec fn list_outcome<T: View>(r: Result<Vec<T>>) -> std::result::Result<
    Seq<T::V>,
    ErrorView,
> {
    match r {
        Ok(x) => Ok(lists::views(x@)),
        Err(e) => Err(e@),
    }
}

/// Payload for a worker-submitted atom.
#[derive(Debug, PartialEq)]
pub struct NewAtom {
    pub world: WorldKey,
    pub worker: WorkerKey,
    pub kind: AtomKind,
    pub timestamp: Timestamp,
    pub importance: Importance,
    pub payload_json: String,
    pub vector: Option<Vec<Single>>,
    pub flags: Vec<String>,
    pub labels: Vec<String>,
    pub links: Vec<Link>,
}

/// Model of a submitted atom.
#[verifier::ext_equal]
pub ghost struct NewAtomView {
    pub world: Seq<char>,
    pub worker: Seq<char>,
    pub kind: AtomKind,
    pub timestamp: Seq<char>,
    pub importance: Importance,
    pub payload_json: Seq<char>,
    pub vector: Option<Seq<Single>>,
    pub flags: Seq<Seq<char>>,
    pub labels: Seq<Seq<char>>,
    pub links: Seq<LinkView>,
}

impl View for NewAtom {
    type V = NewAtomView;

    open spec fn view(&self) -> NewAtomView {
        NewAtomView {
            world: self.world@,
            worker: self.worker@,
            kind: self.kind,
            timestamp: self.timestamp@,
            importance: self.importance,
            payload_json: self.payload_json@,
            vector: lists::opt_view(self.vector),
            flags: lists::views(self.flags@),
            labels: lists::views(self.labels@),
            links: lists::views(self.links@),
        }
    }
}

impl NewAtomView {
    /// The atom with the given id and the submitted content.
    pub open spec fn into_atom(self, id: Seq<char>) -> AtomView {
        AtomView {
            id,
            world: self.world,
            worker: self.worker,
            kind: self.kind,
            timestamp: self.timestamp,
            importance: self.importance,
            payload_json: self.payload_json,
            vector: self.vector,
            flags: self.flags,
            labels: self.labels,
            links: self.links,
        }
    }
}

impl Clone for NewAtom {
    fn clone(&self) -> (r: Self)
        ensures
            r@ == self@,
    {
        NewAtom {
            world: self.world.clone(),
            worker: self.worker.clone(),
            kind: self.kind,
            timestamp: self.timestamp.clone(),
            importance: self.importance,
            payload_json: self.payload_json.clone(),
            vector: duplicate_vector(&self.vector),
            flags: duplicate_all(self.flags.as_slice()),
            labels: duplicate_all(self.labels.as_slice()),
            links: duplicate_all(self.links.as_slice()),
        }
    }
}

/// Filters used for selecting atoms.
#[derive(Debug, PartialEq)]
pub struct AtomFilter {
    pub world: Option<WorldKey>,
    pub kinds: Vec<AtomKind>,
    pub labels: Vec<String>,
    pub flags: Vec<String>,
    pub since: Option<Timestamp>,
    pub until: Option<Timestamp>,
    pub limit: Option<usize>,
}

/// Model of a filter.
#[verifier::ext_equal]
pub ghost struct FilterView {
    pub world: Option<Seq<char>>,
    pub kinds: Seq<AtomKind>,
    pub labels: Seq<Seq<char>>,
    pub flags: Seq<Seq<char>>,
    pub since: Option<Seq<char>>,
    pub until: Option<Seq<char>>,
    pub limit: Option<usize>,
}

impl View for AtomFilter {
    type V = FilterView;

    open spec fn view(&self) -> FilterView {
        FilterView {
            world: lists::opt_view(self.world),
            kinds: self.kinds@,
            labels: lists::views(self.labels@),
            flags: lists::views(self.flags@),
            since: lists::opt_view(self.since),
            until: lists::opt_view(self.until),
            limit: self.limit,
        }
    }
}

impl FilterView {
    /// The filter that lets every atom through.
    pub open spec fn all() -> FilterView {
        FilterView {
            world: None,
            kinds: Seq::empty(),
            labels: Seq::empty(),
            flags: Seq::empty(),
            since: None,
            until: None,
            limit: None,
        }
    }

    /// Whether the filter lets an atom through: its kind is one of the kinds asked for
    /// (if any are), it has all the labels and all the flags, and its timestamp, as
    /// text, is not before `since` nor after `until`.
    pub open spec fn admits(self, atom: AtomView) -> bool {
        &&& self.kinds.len() > 0 ==> self.kinds.contains(atom.kind)
        &&& lists::contains_all(atom.labels, self.labels)
        &&& lists::contains_all(atom.flags, self.flags)
        &&& self.since matches Some(since) ==> !text::before(atom.timestamp, since)
        &&& self.until matches Some(until) ==> !text::before(until, atom.timestamp)
    }
}

/// A copy of a list of kinds.
pub fn duplicate_kinds(kinds: &[AtomKind]) -> (r: Vec<AtomKind>)
    ensures
        r@ == kinds@,
{
    let mut out: Vec<AtomKind> = Vec::new();
    for i in 0..kinds.len()
        invariant
            out@ == kinds@.subrange(0, i as int),
    {
        out.push(kinds[i]);
    }
    assert(out@ == kinds@);
    out
}

/// Whether a kind is listed.
pub fn has_kind(kinds: &[AtomKind], kind: AtomKind) -> (r: bool)
    ensures
        r == kinds@.contains(kind),
{
    for i in 0..kinds.len()
        invariant
            forall|j: int| 0 <= j < i ==> kinds@[j] != kind,
    {
        if kinds[i] == kind {
            return true;
        }
    }
    false
}

impl Clone for AtomFilter {
    fn clone(&self) -> (r: Self)
        ensures
            r@ == self@,
    {
        AtomFilter {
            world: duplicate_opt(&self.world),
            kinds: duplicate_kinds(self.kinds.as_slice()),
            labels: duplicate_all(self.labels.as_slice()),
            flags: duplicate_all(self.flags.as_slice()),
            since: duplicate_opt(&self.since),
            until: duplicate_opt(&self.until),
            limit: self.limit,
        }
    }
}

impl Default for AtomFilter {
    fn default() -> (r: Self)
        ensures
            r@ == FilterView::all(),
    {
        AtomFilter {
            world: None,
            kinds: Vec::new(),
            labels: Vec::new(),
            flags: Vec::new(),
            since: None,
            until: None,
            limit: None,
        }
    }
}

impl AtomFilter {
    /// Whether the filter lets an atom through.
    pub fn matches(&self, atom: &Atom) -> (r: bool)
        ensures
            r == self@.admits(atom@),
    {
        if self.kinds.len() > 0 && !has_kind(self.kinds.as_slice(), *atom.kind()) {
            return false;
        }
        if !lists::has_all_texts(atom.labels(), self.labels.as_slice()) {
            return false;
        }
        if !lists::has_all_texts(atom.flags(), self.flags.as_slice()) {
            return false;
        }
        if let Some(since) = &self.since {
            if text::is_before(atom.timestamp().text(), since.text()) {
                return false;
            }
        }
        if let Some(until) = &self.until {
            if text::is_before(until.text(), atom.timestamp().text()) {
                return false;
            }
        }
        true
    }
}

/// Question posed to the system.
#[derive(Debug, PartialEq)]
pub struct Question {
    pub world: WorldKey,
    pub text: String,
    pub filter: Option<AtomFilter>,
}

/// Model of a question.
#[verifier::ext_equal]
pub ghost struct QuestionView {
    pub world: Seq<char>,
    pub text: Seq<char>,
    pub filter: Option<FilterView>,
}

impl View for Question {
    type V = QuestionView;

    open spec fn view(&self) -> QuestionView {
        QuestionView {
            world: self.world@,
            text: self.text@,
            filter: lists::opt_view(self.filter),
        }
    }
}

impl Duplicate for AtomFilter {
    fn duplicate(&self) -> (r: Self) {
        self.clone()
    }
}

impl Clone for Question {
    fn clone(&self) -> (r: Self)
        ensures
            r@ == self@,
    {
        Question {
            world: self.world.clone(),
            text: self.text.clone(),
            filter: duplicate_opt(&self.filter),
        }
    }
}

impl QuestionView {
    /// The filter of the question, or the one that lets everything through.
    pub open spec fn filter_or_all(self) -> FilterView {
        match self.filter {
            Some(filter) => filter,
            None => FilterView::all(),
        }
    }
}

impl Question {
    /// The filter of the question, or the one that lets everything through.
    pub fn filter_or_default(&self) -> (r: AtomFilter)
        ensures
            r@ == self@.filter_or_all(),
    {
        match &self.filter {
            Some(filter) => filter.clone(),
            None => AtomFilter::default(),
        }
    }
}

/// Answer returned for a question.
#[derive(Debug, PartialEq)]
pub struct Answer {
    pub world: WorldKey,
    pub text: String,
    pub supporting_atoms: Vec<Atom>,
    pub warnings: Vec<String>,
}

/// Model of an answer.
#[verifier::ext_equal]
pub ghost struct AnswerView {
    pub world: Seq<char>,
    pub text: Seq<char>,
    pub supporting_atoms: Seq<AtomView>,
    pub warnings: Seq<Seq<char>>,
}

impl View for Answer {
    type V = AnswerView;

    open spec fn view(&self) -> AnswerView {
        AnswerView {
            world: self.world@,
            text: self.text@,
            supporting_atoms: lists::views(self.supporting_atoms@),
            warnings: lists::views(self.warnings@),
        }
    }
}

/// Metadata describing a world.
#[derive(Debug, PartialEq)]
pub struct WorldMeta {
    pub world: WorldKey,
    pub description: Option<String>,
    pub labels: Vec<String>,
}

/// Model of world metadata.
#[verifier::ext_equal]
pub ghost struct WorldMetaView {
    pub world: Seq<char>,
    pub description: Option<Seq<char>>,
    pub labels: Seq<Seq<char>>,
}

impl View for WorldMeta {
    type V = WorldMetaView;

    open spec fn view(&self) -> WorldMetaView {
        WorldMetaView {
            world: self.world@,
            description: lists::opt_view(self.description),
            labels: lists::views(self.labels@),
        }
    }
}

impl Clone for WorldMeta {
    fn clone(&self) -> (r: Self)
        ensures
            r@ == self@,
    {
        WorldMeta {
            world: self.world.clone(),
            description: duplicate_opt(&self.description),
            labels: duplicate_all(self.labels.as_slice()),
        }
    }
}

/// Actions that may be taken on worlds.
#[derive(Debug, PartialEq)]
pub enum WorldAction {
    Create(WorldMeta),
    Archive(WorldKey),
    Resume(WorldKey),
}

/// Model of a world action.
pub ghost enum WorldActionView {
    Create(WorldMetaView),
    Archive(Seq<char>),
    Resume(Seq<char>),
}

impl View for WorldAction {
    type V = WorldActionView;

    open spec fn view(&self) -> WorldActionView {
        match self {
            WorldAction::Create(meta) => WorldActionView::Create(meta@),
            WorldAction::Archive(world) => WorldActionView::Archive(world@),
            WorldAction::Resume(world) => WorldActionView::Resume(world@),
        }
    }
}

impl Clone for WorldAction {
    fn clone(&self) -> (r: Self)
        ensures
            r@ == self@,
    {
        match self {
            WorldAction::Create(meta) => WorldAction::Create(meta.clone()),
            WorldAction::Archive(world) => WorldAction::Archive(world.clone()),
            WorldAction::Resume(world) => WorldAction::Resume(world.clone()),
        }
    }
}

/// Storage statistics.
#[derive(Clone, Copy, Debug, PartialEq, Eq, Structural)]
pub struct StorageStats {
    pub atom_count: usize,
    pub vector_count: usize,
}

impl Default for StorageStats {
    fn default() -> (r: Self)
        ensures
            r.atom_count == 0,
            r.vector_count == 0,
    {
        StorageStats { atom_count: 0, vector_count: 0 }
    }
}

/// Slice of time represented as milliseconds since unix epoch.
#[derive(Clone, Copy, Debug, PartialEq, Eq, Structural)]
pub struct TimeWindow {
    pub start_ms: i64,
    pub end_ms: i64,
}

impl TimeWindow {
    pub fn new(start_ms: i64, end_ms: i64) -> (r: Self)
        ensures
            r == (TimeWindow { start_ms, end_ms }),
    {
        TimeWindow { start_ms, end_ms }
    }

    /// Whether a point in time lies within the window, bounds included.
    pub open spec fn covers(self, ms: int) -> bool {
        self.start_ms <= ms <= self.end_ms
    }
}

/// Window of time (inclusive bounds, milliseconds since epoch) covered by a summary.
#[derive(Clone, Copy, Debug, PartialEq, Eq, Structural)]
pub struct SummaryWindow {
    pub start_ms: i64,
    pub end_ms: i64,
}

impl SummaryWindow {
    pub fn new(start_ms: i64, end_ms: i64) -> (r: Self)
        ensures
            r == (SummaryWindow { start_ms, end_ms }),
    {
        SummaryWindow { start_ms, end_ms }
    }
}

}
