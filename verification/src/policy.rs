//! Retention policy of a world and the choice of atoms to evict.

use vstd::prelude::*;
use vstd::string::*;

use crate::atom::{Atom, AtomId, AtomView, LinkView, WorldKey};
use crate::lists;
use crate::lists::stable_order;
use crate::moment;
use crate::moment::{parse_or_epoch, parse_ts, Moment, NANOS_PER_DAY};
use crate::single::Single;
use crate::text;

verus! {

broadcast use crate::lists::group_views;

/// Days for which atoms are kept where no policy says otherwise.
pub const DEFAULT_RETENTION_DAYS: u64 = 365;

/// What the policy labels of a world ask for.
#[derive(Debug)]
pub struct GcPolicy {
    pub retention_days: Option<u64>,
    pub min_importance: Option<Single>,
    pub replication_allow: Vec<String>,
    pub replication_deny: Vec<String>,
}

/// Model of a policy.
#[verifier::ext_equal]
pub ghost struct PolicyView {
    pub retention_days: Option<u64>,
    pub min_importance: Option<Single>,
    pub replication_allow: Seq<Seq<char>>,
    pub replication_deny: Seq<Seq<char>>,
}

impl View for GcPolicy {
    type V = PolicyView;

    open spec fn view(&self) -> PolicyView {
        PolicyView {
            retention_days: self.retention_days,
            min_importance: self.min_importance,
            replication_allow: lists::views(self.replication_allow@),
            replication_deny: lists::views(self.replication_deny@),
        }
    }
}

/// `f` can read any text, and reads the same text in the same way each time.
pub open spec fn is_reader<F: Fn(&str) -> Option<Single>>(f: F) -> bool {
    &&& forall|s: &str| call_requires(f, (s,))
    &&& forall|s: &str, t: &str, a: Option<Single>, b: Option<Single>|
        s@ == t@ && #[trigger] call_ensures(f, (s,), a) && #[trigger] call_ensures(f, (t,), b)
            ==> a == b
}

/// `f` may read the text `s` as `v`.
pub open spec fn may_read<F: Fn(&str) -> Option<Single>>(
    f: F,
    s: Seq<char>,
    v: Option<Single>,
) -> bool {
    exists|t: &str| t@ == s && #[trigger] call_ensures(f, (t,), v)
}

/// What a reader makes of a text.
pub open spec fn reading<F: Fn(&str) -> Option<Single>>(f: F, s: Seq<char>) -> Option<Single> {
    choose|v: Option<Single>| #[trigger] may_read(f, s, v)
}

/// The value of a label of the form `name=value`.
pub open spec fn setting(label: Seq<char>, name: Seq<char>) -> Option<Seq<char>> {
    if text::has_prefix(label, name) {
        Some(text::after_prefix(label, name))
    } else {
        None
    }
}

/// A policy that is being put together: the policy so far, and the least retention asked for.
#[verifier::ext_equal]
pub ghost struct PolicyDraft {
    pub policy: PolicyView,
    pub least_days: Option<u64>,
}

/// The number of days that a label sets, or the one that holds already.
pub open spec fn days_set(label: Seq<char>, name: Seq<char>, current: Option<u64>) -> Option<u64> {
    match setting(label, name) {
        Some(value) => match text::parsed_u64(value) {
            Some(days) => Some(days),
            None => current,
        },
        None => current,
    }
}

/// The list with the value of a label added, if the label sets one that is not empty.
pub open spec fn listed_setting(
    label: Seq<char>,
    name: Seq<char>,
    current: Seq<Seq<char>>,
) -> Seq<Seq<char>> {
    match setting(label, name) {
        Some(value) => if value.len() > 0 {
            current.push(value)
        } else {
            current
        },
        None => current,
    }
}

impl PolicyDraft {
    /// The defaults: atoms are kept for a year, whatever their importance.
    pub open spec fn initial() -> PolicyDraft {
        PolicyDraft {
            policy: PolicyView {
                retention_days: Some(DEFAULT_RETENTION_DAYS),
                min_importance: None,
                replication_allow: Seq::empty(),
                replication_deny: Seq::empty(),
            },
            least_days: None,
        }
    }

    /// The draft after one label; `read` reads single-precision numbers.
    pub open spec fn labelled<F: Fn(&str) -> Option<Single>>(
        self,
        label: Seq<char>,
        read: F,
    ) -> PolicyDraft {
        PolicyDraft {
            policy: PolicyView {
                retention_days: days_set(
                    label,
                    "policy:retention_days="@,
                    self.policy.retention_days,
                ),
                min_importance: match setting(label, "policy:min_importance="@) {
                    Some(value) => match reading(read, value) {
                        Some(least) => Some(least),
                        None => self.policy.min_importance,
                    },
                    None => self.policy.min_importance,
                },
                replication_allow: listed_setting(
                    label,
                    "policy:replication_allow="@,
                    self.policy.replication_allow,
                ),
                replication_deny: listed_setting(
                    label,
                    "policy:replication_deny="@,
                    self.policy.replication_deny,
                ),
            },
            least_days: days_set(label, "policy:retention_min_days="@, self.least_days),
        }
    }

    /// The draft after some labels, one after the other.
    pub open spec fn labelled_all<F: Fn(&str) -> Option<Single>>(
        self,
        labels: Seq<Seq<char>>,
        read: F,
    ) -> PolicyDraft
        decreases labels.len(),
    {
        if labels.len() == 0 {
            self
        } else {
            self.labelled_all(labels.drop_last(), read).labelled(labels.last(), read)
        }
    }

    /// The draft after the labels of some atoms, one after the other.
    pub open spec fn with_atoms<F: Fn(&str) -> Option<Single>>(
        self,
        atoms: Seq<AtomView>,
        read: F,
    ) -> PolicyDraft
        decreases atoms.len(),
    {
        if atoms.len() == 0 {
            self
        } else {
            self.with_atoms(atoms.drop_last(), read).labelled_all(atoms.last().labels, read)
        }
    }

    /// The policy: the retention is no less than the least asked for.
    pub open spec fn settled(self) -> PolicyView {
        match self.least_days {
            Some(least) => PolicyView {
                retention_days: match self.policy.retention_days {
                    Some(days) => if days < least {
                        Some(least)
                    } else {
                        Some(days)
                    },
                    None => Some(least),
                },
                ..self.policy
            },
            None => self.policy,
        }
    }
}

/// The policy that the labels of some atoms ask for, later labels over earlier ones.
pub open spec fn policy_of<F: Fn(&str) -> Option<Single>>(
    atoms: Seq<AtomView>,
    read: F,
) -> PolicyView {
    PolicyDraft::initial().with_atoms(atoms, read).settled()
}

/// A policy that is being put together.
struct Draft {
    policy: GcPolicy,
    least_days: Option<u64>,
}

impl View for Draft {
    type V = PolicyDraft;

    closed spec fn view(&self) -> PolicyDraft {
        PolicyDraft { policy: self.policy@, least_days: self.least_days }
    }
}

impl Draft {
    /// Takes in one label.
    fn apply<F: Fn(&str) -> Option<Single>>(&mut self, label: &str, read: &F)
        requires
            is_reader(*read),
        ensures
            final(self)@ == old(self)@.labelled(label@, *read),
    {
        let ghost before = self@;
        if let Some(value) = text::strip_prefix(label, "policy:retention_days=") {
            if let Some(days) = text::parse_u64(value) {
                self.policy.retention_days = Some(days);
            }
        }
        if let Some(value) = text::strip_prefix(label, "policy:retention_min_days=") {
            if let Some(days) = text::parse_u64(value) {
                self.least_days = Some(days);
            }
        }
        if let Some(value) = text::strip_prefix(label, "policy:min_importance=") {
            let least = read(value);
            proof {
                assert(call_ensures(*read, (value,), least));
                assert(may_read(*read, value@, least));
                assert(may_read(*read, value@, reading(*read, value@)));
                assert(reading(*read, value@) == least);
            }
            if least.is_some() {
                self.policy.min_importance = least;
            }
        }
        if let Some(value) = text::strip_prefix(label, "policy:replication_allow=") {
            if value.unicode_len() > 0 {
                self.policy.replication_allow.push(value.to_owned());
            }
        }
        if let Some(value) = text::strip_prefix(label, "policy:replication_deny=") {
            if value.unicode_len() > 0 {
                self.policy.replication_deny.push(value.to_owned());
            }
        }
        assert(self@ =~= before.labelled(label@, *read));
    }
}

/// The policy that the labels of some atoms ask for; `read` reads single-precision numbers.
pub fn read_policy<F: Fn(&str) -> Option<Single>>(atoms: &Vec<Atom>, read: &F) -> (r: GcPolicy)
    requires
        is_reader(*read),
    ensures
        r@ == policy_of(lists::views(atoms@), *read),
{
    let mut draft = Draft {
        policy: GcPolicy {
            retention_days: Some(DEFAULT_RETENTION_DAYS),
            min_importance: None,
            replication_allow: Vec::new(),
            replication_deny: Vec::new(),
        },
        least_days: None,
    };
    let ghost models = lists::views(atoms@);
    let ghost start = PolicyDraft::initial();
    assert(draft@ =~= start);
    for i in 0..atoms.len()
        invariant
            is_reader(*read),
            models == lists::views(atoms@),
            draft@ == start.with_atoms(models.subrange(0, i as int), *read),
    {
        let labels = atoms[i].labels();
        let ghost base = draft@;
        let ghost texts = lists::views(labels@);
        for j in 0..labels.len()
            invariant
                is_reader(*read),
                texts == lists::views(labels@),
                draft@ == base.labelled_all(texts.subrange(0, j as int), *read),
        {
            draft.apply(labels[j].as_str(), read);
            proof {
                let upto = texts.subrange(0, j + 1);
                assert(upto.drop_last() == texts.subrange(0, j as int));
            }
        }
        proof {
            assert(texts.subrange(0, texts.len() as int) == texts);
            let upto = models.subrange(0, i + 1);
            assert(upto.drop_last() == models.subrange(0, i as int));
            assert(upto.last().labels == texts);
        }
    }
    assert(models.subrange(0, models.len() as int) == models);
    let mut policy = draft.policy;
    if let Some(least) = draft.least_days {
        match policy.retention_days {
            Some(days) => {
                if days < least {
                    policy.retention_days = Some(least);
                }
            },
            None => {
                policy.retention_days = Some(least);
            },
        }
    }
    policy
}

/// The world whose atoms hold the policy of a world.
pub open spec fn policy_world(world: Seq<char>) -> Seq<char> {
    "policy:"@ + world
}

/// Whether a world belongs to a tenant: `tenant:<id>/<rest>`.
pub open spec fn tenant_scoped(world: Seq<char>) -> bool {
    text::has_prefix(world, "tenant:"@) && text::after_prefix(world, "tenant:"@).contains('/')
}

/// `world` is `tenant:<tenant>/<rest>`, split at the first slash.
pub open spec fn is_world_of_tenant(
    world: Seq<char>,
    tenant: Seq<char>,
    rest: Seq<char>,
) -> bool {
    world == "tenant:"@ + tenant.push('/') + rest && !tenant.contains('/')
}

/// `policy` is the world that holds the policy of the tenant of `world`: the part of
/// `world` up to the first slash behind `tenant:`, and `/policy`.
pub open spec fn is_tenant_policy_world(world: Seq<char>, policy: Seq<char>) -> bool {
    exists|tenant: Seq<char>, rest: Seq<char>|
        #[trigger] is_world_of_tenant(world, tenant, rest) && policy == "tenant:"@ + tenant
            + "/policy"@
}

/// The world whose atoms hold the policy of a world.
pub fn policy_world_of(world: &WorldKey) -> (r: WorldKey)
    ensures
        r@ == policy_world(world@),
{
    WorldKey(text::joined("policy:", world.text()))
}

/// The world that holds the policy of the tenant of a world, if it belongs to one.
pub fn tenant_policy_world_of(world: &WorldKey) -> (r: Option<WorldKey>)
    ensures
        r is Some <==> tenant_scoped(world@),
        r matches Some(policy) ==> is_tenant_policy_world(world@, policy@),
{
    match text::strip_prefix(world.text(), "tenant:") {
        Some(rest) => match text::split_once(rest, '/') {
            Some((tenant, tail)) => {
                proof {
                    let p = "tenant:"@;
                    assert(world@ =~= p + rest@);
                    assert(world@ =~= p + tenant@.push('/') + tail@);
                    assert(is_world_of_tenant(world@, tenant@, tail@));
                }
                Some(WorldKey(text::joined3("tenant:", tenant, "/policy")))
            },
            None => None,
        },
        None => None,
    }
}

/// No world has two tenant policy worlds.
pub proof fn tenant_policy_world_is_unique(world: Seq<char>, a: Seq<char>, b: Seq<char>)
    requires
        is_tenant_policy_world(world, a),
        is_tenant_policy_world(world, b),
    ensures
        a == b,
{
    let p = "tenant:"@;
    let (s, x) = choose|tenant: Seq<char>, rest: Seq<char>|
        #[trigger] is_world_of_tenant(world, tenant, rest) && a == p + tenant + "/policy"@;
    let (t, y) = choose|tenant: Seq<char>, rest: Seq<char>|
        #[trigger] is_world_of_tenant(world, tenant, rest) && b == p + tenant + "/policy"@;
    let n = p.len() as int;
    if s.len() < t.len() {
        assert((p + s.push('/') + x)[n + s.len()] == '/');
        assert((p + t.push('/') + y)[n + s.len()] == t[s.len() as int]);
        assert(t.contains('/'));
    } else if t.len() < s.len() {
        assert((p + t.push('/') + y)[n + t.len()] == '/');
        assert((p + s.push('/') + x)[n + t.len()] == s[t.len() as int]);
        assert(s.contains('/'));
    } else {
        assert forall|i: int| 0 <= i < s.len() implies s[i] == t[i] by {
            assert((p + s.push('/') + x)[n + i] == s[i]);
            assert((p + t.push('/') + y)[n + i] == t[i]);
        }
        assert(s =~= t);
    }
}

/// Whether a label holds policy or world metadata.
pub open spec fn is_policy_label(label: Seq<char>) -> bool {
    text::has_prefix(label, "policy:"@) || label == "world_meta"@
}

/// Whether an atom holds policy or world metadata.
pub open spec fn holds_policy(atom: AtomView) -> bool {
    exists|i: int| 0 <= i < atom.labels.len() && is_policy_label(#[trigger] atom.labels[i])
}

/// Whether an atom has a label that starts with `world_meta`.
pub open spec fn holds_world_meta(atom: AtomView) -> bool {
    exists|i: int|
        0 <= i < atom.labels.len() && text::has_prefix(#[trigger] atom.labels[i], "world_meta"@)
}

/// Whether an atom holds policy or world metadata.
pub fn is_policy_atom(atom: &Atom) -> (r: bool)
    ensures
        r == holds_policy(atom@),
{
    let labels = atom.labels();
    for i in 0..labels.len()
        invariant
            lists::views(labels@) == atom@.labels,
            forall|j: int| 0 <= j < i ==> !is_policy_label(#[trigger] atom@.labels[j]),
    {
        let label = labels[i].as_str();
        assert(label@ == atom@.labels[i as int]);
        if text::starts_with(label, "policy:") || text::same(label, "world_meta") {
            return true;
        }
    }
    false
}

/// Whether an atom has a label that starts with `world_meta`.
fn is_world_meta_atom(atom: &Atom) -> (r: bool)
    ensures
        r == holds_world_meta(atom@),
{
    let labels = atom.labels();
    for i in 0..labels.len()
        invariant
            lists::views(labels@) == atom@.labels,
            forall|j: int|
                0 <= j < i ==> !text::has_prefix(#[trigger] atom@.labels[j], "world_meta"@),
    {
        let label = labels[i].as_str();
        assert(label@ == atom@.labels[i as int]);
        if text::starts_with(label, "world_meta") {
            return true;
        }
    }
    false
}

/// Whether one of the links goes to `id`.
pub open spec fn links_to(links: Seq<LinkView>, id: Seq<char>) -> bool {
    exists|i: int| 0 <= i < links.len() && (#[trigger] links[i]).target == id
}

/// Whether one of the atoms has a link to `id`.
pub open spec fn is_referenced(atoms: Seq<AtomView>, id: Seq<char>) -> bool {
    exists|i: int| 0 <= i < atoms.len() && links_to((#[trigger] atoms[i]).links, id)
}

/// Whether one of the atoms has a link to `id`.
fn has_reference(atoms: &Vec<Atom>, id: &AtomId) -> (r: bool)
    ensures
        r == is_referenced(lists::views(atoms@), id@),
{
    let ghost models = lists::views(atoms@);
    for i in 0..atoms.len()
        invariant
            models == lists::views(atoms@),
            forall|j: int| 0 <= j < i ==> !links_to((#[trigger] models[j]).links, id@),
    {
        let links = atoms[i].links();
        let ghost these = models[i as int].links;
        for j in 0..links.len()
            invariant
                i < atoms@.len(),
                models == lists::views(atoms@),
                these == models[i as int].links,
                these == lists::views(links@),
                forall|k: int| 0 <= k < j ==> (#[trigger] these[k]).target != id@,
        {
            assert(these[j as int] == links@[j as int]@);
            if text::same(links[j].target.text(), id.text()) {
                assert(links_to(models[i as int].links, id@));
                return true;
            }
        }
        assert(!links_to(models[i as int].links, id@));
    }
    false
}

/// The latest moment that a timestamp of the atoms names, if any names one.
pub open spec fn latest_moment(atoms: Seq<AtomView>) -> Option<Moment>
    decreases atoms.len(),
{
    if atoms.len() == 0 {
        None
    } else {
        let earlier = latest_moment(atoms.drop_last());
        match (earlier, moment::moment_of(atoms.last().timestamp)) {
            (Some(a), Some(b)) => if a.total() <= b.total() {
                Some(b)
            } else {
                Some(a)
            },
            (Some(a), None) => Some(a),
            (None, b) => b,
        }
    }
}

/// The latest moment that a timestamp of the atoms names, if any names one.
fn latest(atoms: &Vec<Atom>) -> (r: Option<Moment>)
    ensures
        r == latest_moment(lists::views(atoms@)),
{
    let ghost models = lists::views(atoms@);
    let mut found: Option<Moment> = None;
    for i in 0..atoms.len()
        invariant
            models == lists::views(atoms@),
            found == latest_moment(models.subrange(0, i as int)),
    {
        proof {
            let upto = models.subrange(0, i + 1);
            assert(upto.drop_last() == models.subrange(0, i as int));
        }
        if let Ok(at) = parse_ts(atoms[i].timestamp()) {
            match found {
                Some(before) => {
                    if before.nanos_since_epoch() <= at.nanos_since_epoch() {
                        found = Some(at);
                    }
                },
                None => {
                    found = Some(at);
                },
            }
        }
    }
    assert(models.subrange(0, models.len() as int) == models);
    found
}

impl PolicyView {
    /// Whether an atom is past its retention at `now`: a retention of zero days keeps
    /// everything, and so does a timestamp that is not valid.
    pub open spec fn expired(self, now: Option<Moment>, atom: AtomView) -> bool {
        match (self.retention_days, moment::moment_of(atom.timestamp), now) {
            (Some(days), Some(at), Some(now)) => days > 0 && now.total() - at.total() > (
            days as i64) * NANOS_PER_DAY,
            _ => false,
        }
    }

    /// Whether an atom is less important than the policy asks for.
    pub open spec fn too_unimportant(self, atom: AtomView) -> bool {
        self.min_importance matches Some(least) && atom.importance.value().below(least)
    }

    /// Whether an atom of a world is evicted: it holds no policy or metadata, nothing in
    /// the world links to it, and it is past its retention or not important enough.
    pub open spec fn evicts(self, atoms: Seq<AtomView>, atom: AtomView) -> bool {
        &&& !holds_policy(atom)
        &&& !is_referenced(atoms, atom.id)
        &&& !holds_world_meta(atom)
        &&& self.expired(latest_moment(atoms), atom) || self.too_unimportant(atom)
    }
}

/// The moments by which the atoms are put in order, oldest first.
pub open spec fn ages(atoms: Seq<AtomView>) -> Seq<Moment> {
    Seq::new(atoms.len(), |i: int| moment::moment_or_epoch(atoms[i].timestamp))
}

/// The ids of the atoms at the listed positions that are evicted.
pub open spec fn evicted_ids(
    policy: PolicyView,
    atoms: Seq<AtomView>,
    order: Seq<usize>,
) -> Seq<Seq<char>>
    decreases order.len(),
{
    if order.len() == 0 {
        Seq::empty()
    } else {
        let before = evicted_ids(policy, atoms, order.drop_last());
        let atom = atoms[order.last() as int];
        if policy.evicts(atoms, atom) {
            before.push(atom.id)
        } else {
            before
        }
    }
}

/// `ids` are the ids of the evicted atoms, oldest first; atoms of the same age, among them
/// those without a valid timestamp, stay in the order they had.
pub open spec fn is_eviction(
    policy: PolicyView,
    atoms: Seq<AtomView>,
    ids: Seq<Seq<char>>,
) -> bool {
    exists|order: Seq<usize>|
        lists::is_stable_order(ages(atoms), order) && ids == #[trigger] evicted_ids(
            policy,
            atoms,
            order,
        )
}

impl GcPolicy {
    /// Whether an atom is past its retention at `now`.
    fn is_expired(&self, now: Option<Moment>, atom: &Atom) -> (r: bool)
        ensures
            r == self@.expired(now, atom@),
    {
        match (self.retention_days, now) {
            (Some(days), Some(now)) => match parse_ts(atom.timestamp()) {
                Ok(at) => {
                    let age: i128 = now.nanos_since_epoch() - at.nanos_since_epoch();
                    let kept: i128 = (days as i64) as i128 * NANOS_PER_DAY;
                    days > 0 && age > kept
                },
                Err(_) => false,
            },
            _ => false,
        }
    }

    /// The ids of the atoms of a world that the policy evicts, oldest first.
    pub fn evictable(&self, atoms: &Vec<Atom>) -> (r: Vec<AtomId>)
        ensures
            is_eviction(self@, lists::views(atoms@), lists::views(r@)),
    {
        let ghost models = lists::views(atoms@);
        let mut keys: Vec<Moment> = Vec::new();
        for i in 0..atoms.len()
            invariant
                models == lists::views(atoms@),
                keys@ == ages(models).subrange(0, i as int),
        {
            keys.push(parse_or_epoch(atoms[i].timestamp()));
            assert(keys@ =~= ages(models).subrange(0, i + 1));
        }
        assert(keys@ =~= ages(models));
        let order = stable_order(&keys);
        let now = latest(atoms);
        let mut out: Vec<AtomId> = Vec::new();
        for k in 0..order.len()
            invariant
                models == lists::views(atoms@),
                now == latest_moment(models),
                forall|i: int| 0 <= i < order@.len() ==> 0 <= (#[trigger] order@[i]) < models.len(),
                lists::views(out@) == evicted_ids(self@, models, order@.subrange(0, k as int)),
        {
            let p: usize = order[k];
            let atom = &atoms[p];
            proof {
                let upto = order@.subrange(0, k + 1);
                assert(upto.drop_last() == order@.subrange(0, k as int));
            }
            let low: bool = match self.min_importance {
                Some(least) => atom.importance().get().is_below(least),
                None => false,
            };
            if !is_policy_atom(atom) && !has_reference(atoms, atom.id()) && !is_world_meta_atom(atom)
                && (self.is_expired(now, atom) || low) {
                out.push(atom.id().clone());
            }
        }
        assert(order@.subrange(0, order@.len() as int) == order@);
        out
    }
}

/// Every evicted id is that of an atom of the world that the policy evicts: one that holds
/// no policy or world metadata and that no atom of the world links to.
pub proof fn evicted_atoms_are_unprotected(
    policy: PolicyView,
    atoms: Seq<AtomView>,
    ids: Seq<Seq<char>>,
    i: int,
)
    requires
        is_eviction(policy, atoms, ids),
        0 <= i < ids.len(),
    ensures
        !is_referenced(atoms, ids[i]),
        exists|j: int|
            0 <= j < atoms.len() && (#[trigger] atoms[j]).id == ids[i] && policy.evicts(
                atoms,
                atoms[j],
            ) && !holds_policy(atoms[j]) && !holds_world_meta(atoms[j]),
{
    let order = choose|order: Seq<usize>|
        lists::is_stable_order(ages(atoms), order) && ids == #[trigger] evicted_ids(
            policy,
            atoms,
            order,
        );
    evicted_come_from(policy, atoms, order, i);
}

proof fn evicted_come_from(
    policy: PolicyView,
    atoms: Seq<AtomView>,
    order: Seq<usize>,
    i: int,
)
    requires
        forall|k: int| 0 <= k < order.len() ==> 0 <= (#[trigger] order[k]) < atoms.len(),
        0 <= i < evicted_ids(policy, atoms, order).len(),
    ensures
        exists|j: int|
            0 <= j < atoms.len() && (#[trigger] atoms[j]).id == evicted_ids(
                policy,
                atoms,
                order,
            )[i] && policy.evicts(atoms, atoms[j]),
    decreases order.len(),
{
    let rest = order.drop_last();
    let before = evicted_ids(policy, atoms, rest);
    if i < before.len() {
        evicted_come_from(policy, atoms, rest, i);
    } else {
        let p = order[order.len() - 1] as int;
        assert(atoms[p].id == evicted_ids(policy, atoms, order)[i]);
    }
}

/// Every atom that the policy evicts has its id among the evicted ones.
pub proof fn evictable_atoms_are_evicted(
    policy: PolicyView,
    atoms: Seq<AtomView>,
    ids: Seq<Seq<char>>,
    j: int,
)
    requires
        is_eviction(policy, atoms, ids),
        0 <= j < atoms.len(),
        policy.evicts(atoms, atoms[j]),
    ensures
        ids.contains(atoms[j].id),
{
    let order = choose|order: Seq<usize>|
        lists::is_stable_order(ages(atoms), order) && ids == #[trigger] evicted_ids(
            policy,
            atoms,
            order,
        );
    lists::position_is_listed(ages(atoms), order, j);
    let k = choose|k: int| 0 <= k < order.len() && #[trigger] order[k] == j;
    evicted_has(policy, atoms, order, k);
}

proof fn evicted_has(policy: PolicyView, atoms: Seq<AtomView>, order: Seq<usize>, k: int)
    requires
        0 <= k < order.len(),
        policy.evicts(atoms, atoms[order[k] as int]),
    ensures
        evicted_ids(policy, atoms, order).contains(atoms[order[k] as int].id),
    decreases order.len(),
{
    let rest = order.drop_last();
    let before = evicted_ids(policy, atoms, rest);
    let after = evicted_ids(policy, atoms, order);
    if k < rest.len() {
        evicted_has(policy, atoms, rest, k);
        let w = choose|w: int| 0 <= w < before.len() && before[w] == atoms[order[k] as int].id;
        assert(after[w] == before[w]);
    } else {
        assert(after[before.len() as int] == atoms[order[k] as int].id);
    }
}

/// A policy with a retention of zero days and no least importance evicts nothing.
pub proof fn zero_retention_evicts_nothing(
    policy: PolicyView,
    atoms: Seq<AtomView>,
    ids: Seq<Seq<char>>,
)
    requires
        policy.retention_days == Some(0u64),
        policy.min_importance is None,
        is_eviction(policy, atoms, ids),
    ensures
        ids.len() == 0,
{
    if ids.len() > 0 {
        evicted_atoms_are_unprotected(policy, atoms, ids, 0);
    }
}

/// Where the labels ask for a least retention, the policy keeps atoms at least that long.
pub proof fn least_retention_holds(draft: PolicyDraft)
    requires
        draft.least_days is Some,
    ensures
        draft.settled().retention_days matches Some(days) && days >= draft.least_days->0,
{
}

}
