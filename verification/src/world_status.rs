//! Whether a world is active or archived.
//!
//! The status of a world is written in its own atoms: those labelled `world_meta` carry a
//! label `world_status:<status>`, and the latest of them counts.

use vstd::prelude::*;
use vstd::string::*;

use crate::atom::{
    Atom, AtomId, AtomKind, AtomView, Importance, Timestamp, WorkerKey, WorldKey,
};
use crate::json;
use crate::json::{Json, JsonMap, JsonValue};
use crate::lists;
use crate::lists::sort_texts;
use crate::lists::duplicate_opt;
use crate::model::{AtomFilter, FilterView, WorldAction, WorldActionView};
use crate::moment;
use crate::moment::{parse_or_epoch, Moment};
use crate::single;
use crate::single::{Single, TENTH_BITS};
use crate::text;

verus! {

broadcast use {
    crate::lists::group_views,
    crate::single::with_bits_has_bits,
    crate::single::bits_determine,
};

/// What follows `world_status:` in the first of the labels that starts with it.
pub open spec fn labelled_status(labels: Seq<Seq<char>>) -> Option<Seq<char>>
    decreases labels.len(),
{
    if labels.len() == 0 {
        None
    } else if text::has_prefix(labels[0], "world_status:"@) {
        Some(text::after_prefix(labels[0], "world_status:"@))
    } else {
        labelled_status(labels.drop_first())
    }
}

/// The latest status among the atoms, with its moment; of several with the same moment the
/// first counts.
pub open spec fn latest_status(atoms: Seq<AtomView>) -> Option<(Moment, Seq<char>)>
    decreases atoms.len(),
{
    if atoms.len() == 0 {
        None
    } else {
        let earlier = latest_status(atoms.drop_last());
        let at = moment::moment_or_epoch(atoms.last().timestamp);
        match labelled_status(atoms.last().labels) {
            Some(status) => match earlier {
                Some((before, _)) => if before.total() < at.total() {
                    Some((at, status))
                } else {
                    earlier
                },
                None => Some((at, status)),
            },
            None => earlier,
        }
    }
}

/// The status that the atoms of a world give it.
pub open spec fn status_of(atoms: Seq<AtomView>) -> Option<Seq<char>> {
    match latest_status(atoms) {
        Some((_, status)) => Some(status),
        None => None,
    }
}

/// Whether a status is that of an archived world.
pub open spec fn is_archived(status: Option<Seq<char>>) -> bool {
    status == Some("archived"@)
}

/// The filter for the atoms that carry the status of a world.
pub open spec fn status_filter(world: Seq<char>) -> FilterView {
    FilterView { world: Some(world), labels: seq!["world_meta"@], ..FilterView::all() }
}

/// The filter for the atoms that carry the status of a world.
pub fn status_filter_of(world: &WorldKey) -> (r: AtomFilter)
    ensures
        r@ == status_filter(world@),
{
    let mut labels: Vec<String> = Vec::new();
    labels.push("world_meta".to_owned());
    let mut filter = AtomFilter::default();
    filter.world = Some(world.clone());
    filter.labels = labels;
    assert(filter@ =~= status_filter(world@)) by {
        assert(lists::views(labels@) =~= seq!["world_meta"@]);
    }
    filter
}

/// What follows `world_status:` in the first of the labels that starts with it.
fn find_status(labels: &[String]) -> (r: Option<String>)
    ensures
        lists::opt_view(r) == labelled_status(lists::views(labels@)),
{
    let ghost texts = lists::views(labels@);
    assert(texts.subrange(0, texts.len() as int) == texts);
    for i in 0..labels.len()
        invariant
            texts == lists::views(labels@),
            labelled_status(texts) == labelled_status(
                texts.subrange(i as int, texts.len() as int),
            ),
    {
        proof {
            let rest = texts.subrange(i as int, texts.len() as int);
            assert(rest[0] == labels@[i as int]@);
            assert(rest.drop_first() == texts.subrange(i + 1, texts.len() as int));
        }
        if let Some(status) = text::strip_prefix(labels[i].as_str(), "world_status:") {
            return Some(status.to_owned());
        }
    }
    None
}

/// The status that the atoms of a world give it.
pub fn status_from(atoms: &Vec<Atom>) -> (r: Option<String>)
    ensures
        lists::opt_view(r) == status_of(lists::views(atoms@)),
{
    let ghost models = lists::views(atoms@);
    let mut at: Moment = Moment::epoch();
    let mut found: Option<String> = None;
    for i in 0..atoms.len()
        invariant
            models == lists::views(atoms@),
            found is Some <==> latest_status(models.subrange(0, i as int)) is Some,
            found matches Some(s) ==> latest_status(models.subrange(0, i as int)) == Some((at, s@)),
    {
        proof {
            let upto = models.subrange(0, i + 1);
            assert(upto.drop_last() == models.subrange(0, i as int));
        }
        if let Some(status) = find_status(atoms[i].labels()) {
            let here = parse_or_epoch(atoms[i].timestamp());
            if found.is_none() || at.nanos_since_epoch() < here.nanos_since_epoch() {
                at = here;
                found = Some(status);
            }
        }
    }
    assert(models.subrange(0, models.len() as int) == models);
    found
}

/// Whether a status is that of an archived world.
pub fn is_archived_status(status: &Option<String>) -> (r: bool)
    ensures
        r == is_archived(lists::opt_view(*status)),
{
    match status {
        Some(s) => text::same(s.as_str(), "archived"),
        None => false,
    }
}

/// A status record that is about to be written: the world, its next status, and what else
/// the action says of it.
#[derive(Debug)]
pub struct Transition {
    pub world: WorldKey,
    pub next_status: &'static str,
    pub description: Option<String>,
    pub extra_labels: Vec<String>,
}

/// Model of a transition.
#[verifier::ext_equal]
pub ghost struct TransitionView {
    pub world: Seq<char>,
    pub next_status: Seq<char>,
    pub description: Option<Seq<char>>,
    pub extra_labels: Seq<Seq<char>>,
}

impl View for Transition {
    type V = TransitionView;

    open spec fn view(&self) -> TransitionView {
        TransitionView {
            world: self.world@,
            next_status: self.next_status@,
            description: lists::opt_view(self.description),
            extra_labels: lists::views(self.extra_labels@),
        }
    }
}

impl TransitionView {
    /// The transition that an action asks for.
    pub open spec fn of_action(action: WorldActionView) -> TransitionView {
        match action {
            WorldActionView::Create(meta) => TransitionView {
                world: meta.world,
                next_status: "active"@,
                description: meta.description,
                extra_labels: meta.labels,
            },
            WorldActionView::Archive(world) => TransitionView {
                world,
                next_status: "archived"@,
                description: None,
                extra_labels: Seq::empty(),
            },
            WorldActionView::Resume(world) => TransitionView {
                world,
                next_status: "active"@,
                description: None,
                extra_labels: Seq::empty(),
            },
        }
    }

    /// Whether the transition says nothing that the current status does not say already.
    pub open spec fn is_redundant(self, current: Option<Seq<char>>) -> bool {
        current == Some(self.next_status) && self.description is None && self.extra_labels.len()
            == 0
    }

    /// The labels of the atom that records the transition.
    pub open spec fn labels(self) -> Seq<Seq<char>> {
        seq!["world_meta"@, "world_status:"@ + self.next_status] + self.extra_labels
    }

    /// What the payload of the atom that records the transition says.
    pub open spec fn said(self, now: Seq<char>) -> Map<Seq<char>, Json> {
        let plain = map![
            "action"@ => Json::Text(self.next_status),
            "world"@ => Json::Text(self.world),
            "at"@ => Json::Text(now),
        ];
        let described = match self.description {
            Some(d) => plain.insert("description"@, Json::Text(d)),
            None => plain,
        };
        if self.extra_labels.len() > 0 {
            described.insert("labels"@, json::texts_of(self.extra_labels))
        } else {
            described
        }
    }

    /// The payload of the atom that records the transition, as JSON text.
    pub open spec fn payload(self, now: Seq<char>) -> Seq<char> {
        json::json_printed(Json::Object(self.said(now)))
    }

    /// The atom that records the transition.
    pub open spec fn record(self, id: Seq<char>, now: Seq<char>) -> AtomView {
        AtomView {
            id,
            world: self.world,
            worker: "system"@,
            kind: AtomKind::Reflection,
            timestamp: now,
            importance: system_importance(),
            payload_json: self.payload(now),
            vector: None,
            flags: Seq::empty(),
            labels: self.labels(),
            links: Seq::empty(),
        }
    }
}

/// The importance of the records that the system writes.
pub open spec fn system_importance() -> Importance {
    choose|i: Importance| i.value() == single::with_bits(TENTH_BITS)
}

impl Transition {
    /// The transition that an action asks for.
    pub fn from_action(action: &WorldAction) -> (r: Self)
        ensures
            r@ == TransitionView::of_action(action@),
    {
        match action {
            WorldAction::Create(meta) => Transition {
                world: meta.world.clone(),
                next_status: "active",
                description: duplicate_opt(&meta.description),
                extra_labels: lists::duplicate_all(meta.labels.as_slice()),
            },
            WorldAction::Archive(world) => Transition {
                world: world.clone(),
                next_status: "archived",
                description: None,
                extra_labels: Vec::new(),
            },
            WorldAction::Resume(world) => Transition {
                world: world.clone(),
                next_status: "active",
                description: None,
                extra_labels: Vec::new(),
            },
        }
    }

    /// Whether the transition says nothing that the current status does not say already.
    pub fn is_redundant(&self, current: &Option<String>) -> (r: bool)
        ensures
            r == self@.is_redundant(lists::opt_view(*current)),
    {
        match current {
            Some(status) => text::same(status.as_str(), self.next_status)
                && self.description.is_none() && self.extra_labels.len() == 0,
            None => false,
        }
    }

    /// The labels of the atom that records the transition.
    pub fn labels(&self) -> (r: Vec<String>)
        ensures
            lists::views(r@) == self@.labels(),
    {
        let mut out: Vec<String> = Vec::new();
        out.push("world_meta".to_owned());
        out.push(text::joined("world_status:", self.next_status));
        let mut extra = lists::duplicate_all(self.extra_labels.as_slice());
        let ghost head = out@;
        let ghost tail = extra@;
        out.append(&mut extra);
        proof {
            assert(out@ == head + tail);
            assert(lists::views(head) =~= seq!["world_meta"@, "world_status:"@ + self@.next_status]);
        }
        out
    }

    /// The payload of the atom that records the transition.
    fn payload(&self, now: &Timestamp) -> (r: String)
        ensures
            r@ == self@.payload(now@),
    {
        let mut m = JsonMap::new();
        m.insert("action", JsonValue::text(self.next_status));
        m.insert("world", JsonValue::text(self.world.text()));
        m.insert("at", JsonValue::text(now.text()));
        if let Some(d) = &self.description {
            m.insert("description", JsonValue::text(d.as_str()));
        }
        if self.extra_labels.len() > 0 {
            m.insert("labels", JsonValue::texts(self.extra_labels.as_slice()));
        }
        assert(m@ =~= self@.said(now@));
        JsonValue::object(m).to_json()
    }

    /// The atom that records the transition.
    pub fn record(&self, id: AtomId, now: Timestamp) -> (r: Atom)
        ensures
            r@ == self@.record(id@, now@),
    {
        let tenth = Single::from_bits(TENTH_BITS);
        assert(tenth == single::with_bits(TENTH_BITS));
        let importance = Importance::clamped(tenth);
        proof {
            assert(tenth.magnitude() == TENTH_BITS);
            assert(importance.value() == tenth);
            crate::atom::value_determines(importance, system_importance());
        }
        let payload = self.payload(&now);
        let labels = self.labels();
        let r = Atom::new(
            id,
            self.world.clone(),
            WorkerKey::new("system"),
            AtomKind::Reflection,
            now,
            importance,
            payload,
            None,
            Vec::new(),
            labels,
            Vec::new(),
        );
        assert(r@ =~= self@.record(id@, now@));
        r
    }
}

/// An atom that records a transition gives its world the status of the transition, if it is
/// later than every earlier record.
pub proof fn recorded_transition_counts(
    atoms: Seq<AtomView>,
    record: AtomView,
    transition: TransitionView,
)
    requires
        record.labels == transition.labels(),
        latest_status(atoms) matches Some((before, _)) ==> before.total()
            < moment::moment_or_epoch(record.timestamp).total(),
    ensures
        status_of(atoms.push(record)) == Some(transition.next_status),
{
    let all = atoms.push(record);
    assert(all.drop_last() =~= atoms);
    let p = "world_status:"@;
    let labels = record.labels;
    assert(labels[0] == "world_meta"@);
    assert(labels[1] == p + transition.next_status);
    reveal_strlit("world_meta");
    reveal_strlit("world_status:");
    assert("world_meta"@.len() < p.len());
    let rest = labels.drop_first();
    assert(rest[0] == p + transition.next_status);
    assert(rest[0].subrange(0, p.len() as int) =~= p);
    assert(text::after_prefix(rest[0], p) =~= transition.next_status);
    assert(labelled_status(labels) == labelled_status(rest));
}

/// Archiving a world hides it and resuming it brings it back, whatever its atoms say: an
/// atom that records the action, later than every earlier record, settles the status.
pub proof fn archive_and_resume_settle_status(
    atoms: Seq<AtomView>,
    world: Seq<char>,
    archive: AtomView,
    resume: AtomView,
)
    requires
        archive.labels == TransitionView::of_action(WorldActionView::Archive(world)).labels(),
        resume.labels == TransitionView::of_action(WorldActionView::Resume(world)).labels(),
        latest_status(atoms) matches Some((before, _)) ==> before.total()
            < moment::moment_or_epoch(archive.timestamp).total(),
        moment::moment_or_epoch(archive.timestamp).total() < moment::moment_or_epoch(
            resume.timestamp,
        ).total(),
    ensures
        is_archived(status_of(atoms.push(archive))),
        !is_archived(status_of(atoms.push(archive).push(resume))),
        status_of(atoms.push(archive).push(resume)) == Some("active"@),
{
    let archived = TransitionView::of_action(WorldActionView::Archive(world));
    let resumed = TransitionView::of_action(WorldActionView::Resume(world));
    recorded_transition_counts(atoms, archive, archived);
    let all = atoms.push(archive);
    assert(all.drop_last() =~= atoms);
    recorded_transition_counts(all, resume, resumed);
    reveal_strlit("active");
    reveal_strlit("archived");
    assert("active"@.len() != "archived"@.len());
}

/// Repeating an action that says nothing more is redundant once its status is current.
pub proof fn repeated_action_is_redundant(world: Seq<char>)
    ensures
        TransitionView::of_action(WorldActionView::Archive(world)).is_redundant(
            Some("archived"@),
        ),
        TransitionView::of_action(WorldActionView::Resume(world)).is_redundant(Some("active"@)),
{
}

/// Puts worlds in dictionary order.
pub fn sort_worlds(worlds: &Vec<WorldKey>) -> (r: Vec<WorldKey>)
    ensures
        lists::is_sorted(lists::views(r@)),
        lists::views(r@).to_multiset() == lists::views(worlds@).to_multiset(),
{
    let mut names: Vec<String> = Vec::new();
    for i in 0..worlds.len()
        invariant
            lists::views(names@) == lists::views(worlds@).subrange(0, i as int),
    {
        names.push(worlds[i].text().to_owned());
        assert(lists::views(names@) =~= lists::views(worlds@).subrange(0, i + 1));
    }
    assert(lists::views(names@) =~= lists::views(worlds@));
    let sorted = sort_texts(&names);
    let mut out: Vec<WorldKey> = Vec::new();
    for i in 0..sorted.len()
        invariant
            lists::views(out@) == lists::views(sorted@).subrange(0, i as int),
    {
        out.push(WorldKey::new(sorted[i].as_str()));
        assert(lists::views(out@) =~= lists::views(sorted@).subrange(0, i + 1));
    }
    assert(lists::views(out@) =~= lists::views(sorted@));
    out
}

}
