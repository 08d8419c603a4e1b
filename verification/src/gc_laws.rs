//! Which atoms collecting garbage evicts, and how labels set the policy of a world.

use vstd::prelude::*;
use vstd::string::*;

use crate::atom::AtomView;
use crate::calls::StorageCall;
use crate::engine;
use crate::engine::{GcReply, PolicyReplies};
use crate::lists;
use crate::model::{ErrorView, FilterView};
use crate::moment;
use crate::policy;
use crate::policy::{PolicyDraft, PolicyView};
use crate::single::Single;
use crate::text;
use crate::text_laws;

verus! {

broadcast use {crate::lists::group_views, crate::calls::group_calls};

/// The present, when garbage is collected, is the latest moment that an atom of the world
/// names: one of them does, and none names a later one.
pub proof fn present_is_the_latest_moment(atoms: Seq<AtomView>, j: int)
    requires
        0 <= j < atoms.len(),
        moment::moment_of(atoms[j].timestamp) is Some,
    ensures
        policy::latest_moment(atoms) is Some,
        moment::moment_of(atoms[j].timestamp)->0.total() <= policy::latest_moment(atoms)->0.total(),
        exists|k: int|
            0 <= k < atoms.len() && moment::moment_of((#[trigger] atoms[k]).timestamp)
                == policy::latest_moment(atoms),
    decreases atoms.len(),
{
    let rest = atoms.drop_last();
    let n = atoms.len() - 1;
    assert(atoms[n] == atoms.last());
    if j < n {
        assert(rest[j] == atoms[j]);
        present_is_the_latest_moment(rest, j);
        let k = choose|k: int|
            0 <= k < rest.len() && moment::moment_of((#[trigger] rest[k]).timestamp)
                == policy::latest_moment(rest);
        assert(atoms[k] == rest[k]);
    } else if policy::latest_moment(rest) is Some {
        latest_is_named(rest);
        let k = choose|k: int|
            0 <= k < rest.len() && moment::moment_of((#[trigger] rest[k]).timestamp)
                == policy::latest_moment(rest);
        assert(atoms[k] == rest[k]);
    }
}

proof fn latest_is_named(atoms: Seq<AtomView>)
    requires
        policy::latest_moment(atoms) is Some,
    ensures
        exists|k: int|
            0 <= k < atoms.len() && moment::moment_of((#[trigger] atoms[k]).timestamp)
                == policy::latest_moment(atoms),
    decreases atoms.len(),
{
    let rest = atoms.drop_last();
    assert(atoms[atoms.len() - 1] == atoms.last());
    if policy::latest_moment(rest) is Some {
        latest_is_named(rest);
        let k = choose|k: int|
            0 <= k < rest.len() && moment::moment_of((#[trigger] rest[k]).timestamp)
                == policy::latest_moment(rest);
        assert(atoms[k] == rest[k]);
    }
}

/// An atom that lies more than the days of the retention, read as a signed number, before
/// some atom of its world is evicted, unless an atom of the world links to it or one of its
/// labels is `policy:` and more, or starts with `world_meta`.
pub proof fn old_atom_is_evicted(
    p: PolicyView,
    atoms: Seq<AtomView>,
    ids: Seq<Seq<char>>,
    days: u64,
    j: int,
    k: int,
)
    requires
        policy::is_eviction(p, atoms, ids),
        p.retention_days == Some(days),
        days > 0,
        0 <= j < atoms.len(),
        0 <= k < atoms.len(),
        moment::moment_of(atoms[j].timestamp) is Some,
        moment::moment_of(atoms[k].timestamp) is Some,
        ({
            let kept = if days <= 0x7fff_ffff_ffff_ffff { days as int } else {
                days - 0x1_0000_0000_0000_0000
            };
            let (a, b) = (
                moment::moment_of(atoms[j].timestamp)->0,
                moment::moment_of(atoms[k].timestamp)->0,
            );
            (b.secs * 1_000_000_000 + b.nanos) - (a.secs * 1_000_000_000 + a.nanos) > kept
                * 86_400_000_000_000
        }),
        forall|n: int, m: int|
            0 <= n < atoms.len() && 0 <= m < atoms[n].links.len() ==> (
            #[trigger] atoms[n].links[m]).target != atoms[j].id,
        forall|n: int|
            0 <= n < atoms[j].labels.len() ==> !text::has_prefix(
                #[trigger] atoms[j].labels[n],
                "policy:"@,
            ) && !text::has_prefix(atoms[j].labels[n], "world_meta"@),
    ensures
        ids.contains(atoms[j].id),
{
    present_is_the_latest_moment(atoms, j);
    present_is_the_latest_moment(atoms, k);
    days_are_signed(days);
    unprotected(atoms, j);
    assert(p.expired(policy::latest_moment(atoms), atoms[j])) by (nonlinear_arith)
        requires
            p.expired(policy::latest_moment(atoms), atoms[j]) == (days > 0
                && policy::latest_moment(atoms)->0.total() - moment::moment_of(
                atoms[j].timestamp,
            )->0.total() > (days as i64) * 86_400_000_000_000),
            days > 0,
            policy::latest_moment(atoms)->0.total() - moment::moment_of(
                atoms[j].timestamp,
            )->0.total() > (days as i64) * 86_400_000_000_000,
    ;
    policy::evictable_atoms_are_evicted(p, atoms, ids, j);
}

proof fn days_are_signed(days: u64)
    ensures
        days <= 0x7fff_ffff_ffff_ffff ==> days as i64 == days,
        days > 0x7fff_ffff_ffff_ffff ==> days as i64 == days - 0x1_0000_0000_0000_0000,
{
    assert(days > 0x7fff_ffff_ffff_ffffu64 ==> days as i64 == days - 0x1_0000_0000_0000_0000)
        by (bit_vector);
}

proof fn unprotected(atoms: Seq<AtomView>, j: int)
    requires
        0 <= j < atoms.len(),
        forall|n: int, m: int|
            0 <= n < atoms.len() && 0 <= m < atoms[n].links.len() ==> (
            #[trigger] atoms[n].links[m]).target != atoms[j].id,
        forall|n: int|
            0 <= n < atoms[j].labels.len() ==> !text::has_prefix(
                #[trigger] atoms[j].labels[n],
                "policy:"@,
            ) && !text::has_prefix(atoms[j].labels[n], "world_meta"@),
    ensures
        !policy::holds_policy(atoms[j]),
        !policy::holds_world_meta(atoms[j]),
        !policy::is_referenced(atoms, atoms[j].id),
{
    let own = "world_meta"@;
    assert(own.subrange(0, own.len() as int) =~= own);
    if policy::is_referenced(atoms, atoms[j].id) {
        let n = choose|n: int|
            0 <= n < atoms.len() && policy::links_to((#[trigger] atoms[n]).links, atoms[j].id);
        let m = choose|m: int|
            0 <= m < atoms[n].links.len() && (#[trigger] atoms[n].links[m]).target == atoms[j].id;
        assert(atoms[n].links[m].target != atoms[j].id);
    }
}

/// An atom that is less important than the policy asks for is evicted, unless it is linked to
/// or protected by a label; numbers are compared by value, and no number is below or above
/// one that is not a number.
pub proof fn unimportant_atom_is_evicted(
    p: PolicyView,
    atoms: Seq<AtomView>,
    ids: Seq<Seq<char>>,
    least: Single,
    j: int,
)
    requires
        policy::is_eviction(p, atoms, ids),
        p.min_importance == Some(least),
        0 <= j < atoms.len(),
        !least.nan(),
        !atoms[j].importance.value().nan(),
        atoms[j].importance.value().key() < least.key(),
        forall|n: int, m: int|
            0 <= n < atoms.len() && 0 <= m < atoms[n].links.len() ==> (
            #[trigger] atoms[n].links[m]).target != atoms[j].id,
        forall|n: int|
            0 <= n < atoms[j].labels.len() ==> !text::has_prefix(
                #[trigger] atoms[j].labels[n],
                "policy:"@,
            ) && !text::has_prefix(atoms[j].labels[n], "world_meta"@),
    ensures
        ids.contains(atoms[j].id),
{
    unprotected(atoms, j);
    policy::evictable_atoms_are_evicted(p, atoms, ids, j);
}

/// Every evicted id is that of an atom of the world which no atom of it links to and no label
/// protects, and which lies more than the days of the retention before some atom of the world
/// or is less important than asked for.
pub proof fn evicted_atom_is_old_or_unimportant(
    p: PolicyView,
    atoms: Seq<AtomView>,
    ids: Seq<Seq<char>>,
    i: int,
)
    requires
        policy::is_eviction(p, atoms, ids),
        0 <= i < ids.len(),
    ensures
        forall|n: int, m: int|
            0 <= n < atoms.len() && 0 <= m < atoms[n].links.len() ==> (
            #[trigger] atoms[n].links[m]).target != ids[i],
        exists|j: int|
            0 <= j < atoms.len() && (#[trigger] atoms[j]).id == ids[i] && (forall|n: int|
                0 <= n < atoms[j].labels.len() ==> !text::has_prefix(
                    #[trigger] atoms[j].labels[n],
                    "policy:"@,
                ) && !text::has_prefix(atoms[j].labels[n], "world_meta"@)) && (
            too_old(p, atoms, j) || (p.min_importance is Some
                && !atoms[j].importance.value().nan() && !p.min_importance->0.nan()
                && atoms[j].importance.value().key() < p.min_importance->0.key())),
{
    policy::evicted_atoms_are_unprotected(p, atoms, ids, i);
    let j = choose|j: int|
        0 <= j < atoms.len() && (#[trigger] atoms[j]).id == ids[i] && p.evicts(atoms, atoms[j])
            && !policy::holds_policy(atoms[j]) && !policy::holds_world_meta(atoms[j]);
    assert forall|n: int, m: int|
        0 <= n < atoms.len() && 0 <= m < atoms[n].links.len() implies (
    #[trigger] atoms[n].links[m]).target != ids[i] by {
        if atoms[n].links[m].target == ids[i] {
            assert(policy::links_to(atoms[n].links, ids[i]));
        }
    }
    assert forall|n: int| 0 <= n < atoms[j].labels.len() implies !text::has_prefix(
        #[trigger] atoms[j].labels[n],
        "policy:"@,
    ) && !text::has_prefix(atoms[j].labels[n], "world_meta"@) by {
        assert(!policy::is_policy_label(atoms[j].labels[n]));
    }
    if p.expired(policy::latest_moment(atoms), atoms[j]) {
        present_is_the_latest_moment(atoms, j);
        days_are_signed(p.retention_days->0);
        let k = choose|k: int|
            0 <= k < atoms.len() && moment::moment_of((#[trigger] atoms[k]).timestamp)
                == policy::latest_moment(atoms);
        assert(older_by_more(atoms[j], atoms[k], p.retention_days->0));
    }
}

/// Whether an atom lies more than so many days, read as a signed number, before another.
pub open spec fn older_by_more(a: AtomView, b: AtomView, days: u64) -> bool {
    let kept = if days <= 0x7fff_ffff_ffff_ffff { days as int } else {
        days - 0x1_0000_0000_0000_0000
    };
    let (x, y) = (moment::moment_of(a.timestamp), moment::moment_of(b.timestamp));
    &&& x is Some
    &&& y is Some
    &&& (y->0.secs * 1_000_000_000 + y->0.nanos) - (x->0.secs * 1_000_000_000 + x->0.nanos) > kept
        * 86_400_000_000_000
}

/// Whether an atom lies more than the days of the retention before some atom of its world.
pub open spec fn too_old(p: PolicyView, atoms: Seq<AtomView>, j: int) -> bool {
    p.retention_days is Some && p.retention_days->0 > 0 && exists|k: int|
        0 <= k < atoms.len() && older_by_more(atoms[j], #[trigger] atoms[k], p.retention_days->0)
}

/// Atoms are evicted oldest first; a timestamp that cannot be read counts as the epoch.
pub proof fn oldest_are_evicted_first(
    p: PolicyView,
    atoms: Seq<AtomView>,
    ids: Seq<Seq<char>>,
    i: int,
    j: int,
)
    requires
        policy::is_eviction(p, atoms, ids),
        0 <= i < j < ids.len(),
    ensures
        ids.len() <= atoms.len(),
        exists|a: int, b: int|
            0 <= a < atoms.len() && 0 <= b < atoms.len() && a != b && (#[trigger] atoms[a]).id
                == ids[i] && (#[trigger] atoms[b]).id == ids[j] && moment::moment_or_epoch(
                atoms[a].timestamp,
            ).total() <= moment::moment_or_epoch(atoms[b].timestamp).total(),
{
    let order = choose|order: Seq<usize>|
        lists::is_stable_order(policy::ages(atoms), order) && ids == #[trigger] policy::evicted_ids(
            p,
            atoms,
            order,
        );
    let (x, y) = evicted_in_order(p, atoms, order, i, j);
    lists::stable_order_is_injective(policy::ages(atoms), order);
    assert(order[x] != order[y]);
    assert(lists::comes_first(policy::ages(atoms), order[x] as int, order[y] as int));
    assert(atoms[order[x] as int].id == ids[i]);
    assert(atoms[order[y] as int].id == ids[j]);
}

proof fn evicted_in_order(
    p: PolicyView,
    atoms: Seq<AtomView>,
    order: Seq<usize>,
    i: int,
    j: int,
) -> (r: (int, int))
    requires
        0 <= i < j < policy::evicted_ids(p, atoms, order).len(),
    ensures
        0 <= r.0 < r.1 < order.len(),
        atoms[order[r.0] as int].id == policy::evicted_ids(p, atoms, order)[i],
        atoms[order[r.1] as int].id == policy::evicted_ids(p, atoms, order)[j],
        policy::evicted_ids(p, atoms, order).len() <= order.len(),
    decreases order.len(),
{
    let rest = order.drop_last();
    let before = policy::evicted_ids(p, atoms, rest);
    few_are_evicted(p, atoms, rest);
    if j < before.len() {
        evicted_in_order(p, atoms, rest, i, j)
    } else {
        let x = evicted_somewhere(p, atoms, rest, i);
        (x, order.len() - 1)
    }
}

proof fn few_are_evicted(p: PolicyView, atoms: Seq<AtomView>, order: Seq<usize>)
    ensures
        policy::evicted_ids(p, atoms, order).len() <= order.len(),
    decreases order.len(),
{
    if order.len() > 0 {
        few_are_evicted(p, atoms, order.drop_last());
    }
}

proof fn evicted_somewhere(p: PolicyView, atoms: Seq<AtomView>, order: Seq<usize>, i: int) -> (x:
    int)
    requires
        0 <= i < policy::evicted_ids(p, atoms, order).len(),
    ensures
        0 <= x < order.len(),
        atoms[order[x] as int].id == policy::evicted_ids(p, atoms, order)[i],
    decreases order.len(),
{
    let rest = order.drop_last();
    let before = policy::evicted_ids(p, atoms, rest);
    if i < before.len() {
        evicted_somewhere(p, atoms, rest, i)
    } else {
        order.len() - 1
    }
}

/// A label of days sets the retention, or the least one, to the number it names, and nothing
/// else; a label that allows or denies a node adds it to its list, and nothing else.
pub proof fn label_sets_what_it_names<F: Fn(&str) -> Option<Single>>(
    draft: PolicyDraft,
    n: u64,
    node: Seq<char>,
    read: F,
)
    requires
        node.len() > 0,
    ensures
        draft.labelled("policy:retention_days="@ + text::decimal(n as nat), read) == (PolicyDraft {
            policy: PolicyView { retention_days: Some(n), ..draft.policy },
            ..draft
        }),
        draft.labelled("policy:retention_min_days="@ + text::decimal(n as nat), read) == (
        PolicyDraft { least_days: Some(n), ..draft }),
        draft.labelled("policy:replication_allow="@ + node, read) == (PolicyDraft {
            policy: PolicyView {
                replication_allow: draft.policy.replication_allow.push(node),
                ..draft.policy
            },
            ..draft
        }),
        draft.labelled("policy:replication_deny="@ + node, read) == (PolicyDraft {
            policy: PolicyView {
                replication_deny: draft.policy.replication_deny.push(node),
                ..draft.policy
            },
            ..draft
        }),
        draft.labelled("policy:min_importance="@ + node, read) == (PolicyDraft {
            policy: PolicyView {
                min_importance: match policy::reading(read, node) {
                    Some(v) => Some(v),
                    None => draft.policy.min_importance,
                },
                ..draft.policy
            },
            ..draft
        }),
{
    let d = text::decimal(n as nat);
    settings_are_apart(d);
    settings_are_apart(node);
    text::padded_parses_back(n, 0);
    assert(text::padded(n as nat, 0) == d);
    text_laws::text_starts_with_what_it_is_joined_from("policy:retention_days="@, d, d);
    text_laws::text_starts_with_what_it_is_joined_from("policy:retention_min_days="@, d, d);
    text_laws::text_starts_with_what_it_is_joined_from("policy:replication_allow="@, node, d);
    text_laws::text_starts_with_what_it_is_joined_from("policy:replication_deny="@, node, d);
    text_laws::text_starts_with_what_it_is_joined_from("policy:min_importance="@, node, d);
}

/// No setting starts with the name of another.
proof fn settings_are_apart(v: Seq<char>)
    ensures
        ({
            let (a, b, c, d, e) = (
                "policy:retention_days="@,
                "policy:retention_min_days="@,
                "policy:min_importance="@,
                "policy:replication_allow="@,
                "policy:replication_deny="@,
            );
            &&& !text::has_prefix(a + v, b) && !text::has_prefix(a + v, c) && !text::has_prefix(
                a + v,
                d,
            ) && !text::has_prefix(a + v, e)
            &&& !text::has_prefix(b + v, a) && !text::has_prefix(b + v, c) && !text::has_prefix(
                b + v,
                d,
            ) && !text::has_prefix(b + v, e)
            &&& !text::has_prefix(c + v, a) && !text::has_prefix(c + v, b) && !text::has_prefix(
                c + v,
                d,
            ) && !text::has_prefix(c + v, e)
            &&& !text::has_prefix(d + v, a) && !text::has_prefix(d + v, b) && !text::has_prefix(
                d + v,
                c,
            ) && !text::has_prefix(d + v, e)
            &&& !text::has_prefix(e + v, a) && !text::has_prefix(e + v, b) && !text::has_prefix(
                e + v,
                c,
            ) && !text::has_prefix(e + v, d)
        }),
{
    reveal_strlit("policy:retention_days=");
    reveal_strlit("policy:retention_min_days=");
    reveal_strlit("policy:min_importance=");
    reveal_strlit("policy:replication_allow=");
    reveal_strlit("policy:replication_deny=");
    let (a, b, c, d, e) = (
        "policy:retention_days="@,
        "policy:retention_min_days="@,
        "policy:min_importance="@,
        "policy:replication_allow="@,
        "policy:replication_deny="@,
    );
    assert(a[7] == 'r' && b[7] == 'r' && c[7] == 'm' && d[7] == 'r' && e[7] == 'r');
    assert(a[9] == 't' && b[9] == 't' && d[9] == 'p' && e[9] == 'p');
    assert(a[17] == 'd' && b[17] == 'm');
    assert(d[19] == 'a' && e[19] == 'd');
    differ_at(a, b, v, 17);
    differ_at(a, c, v, 7);
    differ_at(a, d, v, 9);
    differ_at(a, e, v, 9);
    differ_at(b, a, v, 17);
    differ_at(b, c, v, 7);
    differ_at(b, d, v, 9);
    differ_at(b, e, v, 9);
    differ_at(c, a, v, 7);
    differ_at(c, b, v, 7);
    differ_at(c, d, v, 7);
    differ_at(c, e, v, 7);
    differ_at(d, a, v, 9);
    differ_at(d, b, v, 9);
    differ_at(d, c, v, 7);
    differ_at(d, e, v, 19);
    differ_at(e, a, v, 9);
    differ_at(e, b, v, 9);
    differ_at(e, c, v, 7);
    differ_at(e, d, v, 19);
}

proof fn differ_at(x: Seq<char>, y: Seq<char>, v: Seq<char>, i: int)
    requires
        0 <= i < x.len(),
        i < y.len(),
        x[i] != y[i],
    ensures
        !text::has_prefix(x + v, y),
{
    if text::has_prefix(x + v, y) {
        assert((x + v).subrange(0, y.len() as int)[i] == (x + v)[i]);
    }
}

/// Labels count one after the other, those of earlier atoms first; one that does not start
/// with `policy:` changes nothing.
pub proof fn labels_count_one_after_the_other<F: Fn(&str) -> Option<Single>>(
    draft: PolicyDraft,
    label: Seq<char>,
    labels: Seq<Seq<char>>,
    more: Seq<Seq<char>>,
    atom: AtomView,
    atoms: Seq<AtomView>,
    read: F,
)
    ensures
        !text::has_prefix(label, "policy:"@) ==> draft.labelled(label, read) == draft,
        draft.labelled_all(seq![label], read) == draft.labelled(label, read),
        draft.labelled_all(labels + more, read) == draft.labelled_all(labels, read).labelled_all(
            more,
            read,
        ),
        draft.with_atoms(Seq::empty(), read) == draft,
        draft.with_atoms(atoms.push(atom), read) == draft.with_atoms(atoms, read).labelled_all(
            atom.labels,
            read,
        ),
    decreases more.len(),
{
    if !text::has_prefix(label, "policy:"@) {
        not_a_setting(label);
        assert(draft.labelled(label, read) =~= draft);
    }
    assert(seq![label].drop_last() =~= Seq::<Seq<char>>::empty());
    assert(draft.labelled_all(Seq::empty(), read) == draft);
    assert(atoms.push(atom).drop_last() =~= atoms);
    if more.len() > 0 {
        labels_count_one_after_the_other(draft, label, labels, more.drop_last(), atom, atoms, read);
        assert((labels + more).drop_last() =~= labels + more.drop_last());
    } else {
        assert(labels + more =~= labels);
    }
}

proof fn not_a_setting(label: Seq<char>)
    requires
        !text::has_prefix(label, "policy:"@),
    ensures
        !text::has_prefix(label, "policy:retention_days="@),
        !text::has_prefix(label, "policy:retention_min_days="@),
        !text::has_prefix(label, "policy:min_importance="@),
        !text::has_prefix(label, "policy:replication_allow="@),
        !text::has_prefix(label, "policy:replication_deny="@),
{
    reveal_strlit("policy:");
    reveal_strlit("policy:retention_days=");
    reveal_strlit("policy:retention_min_days=");
    reveal_strlit("policy:min_importance=");
    reveal_strlit("policy:replication_allow=");
    reveal_strlit("policy:replication_deny=");
    starts_alike(label, "policy:"@, "policy:retention_days="@);
    starts_alike(label, "policy:"@, "policy:retention_min_days="@);
    starts_alike(label, "policy:"@, "policy:min_importance="@);
    starts_alike(label, "policy:"@, "policy:replication_allow="@);
    starts_alike(label, "policy:"@, "policy:replication_deny="@);
}

proof fn starts_alike(label: Seq<char>, p: Seq<char>, longer: Seq<char>)
    requires
        p.len() <= longer.len(),
        forall|i: int| 0 <= i < p.len() ==> p[i] == longer[i],
        !text::has_prefix(label, p),
    ensures
        !text::has_prefix(label, longer),
{
    if text::has_prefix(label, longer) {
        assert forall|i: int| 0 <= i < p.len() implies label[i] == p[i] by {
            assert(label.subrange(0, longer.len() as int)[i] == longer[i]);
        }
        assert(label.subrange(0, p.len() as int) =~= p);
    }
}

/// Where no label asks for anything, atoms are kept for 365 days, whatever their importance,
/// and no node is singled out.
pub proof fn policy_without_labels_is_the_default<F: Fn(&str) -> Option<Single>>(
    atoms: Seq<AtomView>,
    read: F,
)
    requires
        forall|i: int, j: int|
            0 <= i < atoms.len() && 0 <= j < atoms[i].labels.len() ==> !text::has_prefix(
                #[trigger] atoms[i].labels[j],
                "policy:"@,
            ),
    ensures
        policy::policy_of(atoms, read) == (PolicyView {
            retention_days: Some(365u64),
            min_importance: None,
            replication_allow: Seq::empty(),
            replication_deny: Seq::empty(),
        }),
{
    nothing_is_asked_for(PolicyDraft::initial(), atoms, read);
}

proof fn nothing_is_asked_for<F: Fn(&str) -> Option<Single>>(
    draft: PolicyDraft,
    atoms: Seq<AtomView>,
    read: F,
)
    requires
        forall|i: int, j: int|
            0 <= i < atoms.len() && 0 <= j < atoms[i].labels.len() ==> !text::has_prefix(
                #[trigger] atoms[i].labels[j],
                "policy:"@,
            ),
    ensures
        draft.with_atoms(atoms, read) == draft,
    decreases atoms.len(),
{
    if atoms.len() > 0 {
        let rest = atoms.drop_last();
        assert forall|i: int, j: int|
            0 <= i < rest.len() && 0 <= j < rest[i].labels.len() implies !text::has_prefix(
            #[trigger] rest[i].labels[j],
            "policy:"@,
        ) by {
            assert(!text::has_prefix(atoms[i].labels[j], "policy:"@));
        }
        nothing_is_asked_for(draft, rest, read);
        let n = atoms.len() - 1;
        assert forall|j: int| 0 <= j < atoms.last().labels.len() implies !text::has_prefix(
            #[trigger] atoms.last().labels[j],
            "policy:"@,
        ) by {
            assert(!text::has_prefix(atoms[n].labels[j], "policy:"@));
        }
        no_label_asks(draft, atoms.last().labels, read);
    }
}

proof fn no_label_asks<F: Fn(&str) -> Option<Single>>(
    draft: PolicyDraft,
    labels: Seq<Seq<char>>,
    read: F,
)
    requires
        forall|j: int|
            0 <= j < labels.len() ==> !text::has_prefix(#[trigger] labels[j], "policy:"@),
    ensures
        draft.labelled_all(labels, read) == draft,
    decreases labels.len(),
{
    if labels.len() > 0 {
        let rest = labels.drop_last();
        assert forall|j: int| 0 <= j < rest.len() implies !text::has_prefix(
            #[trigger] rest[j],
            "policy:"@,
        ) by {
            assert(rest[j] == labels[j]);
        }
        no_label_asks(draft, rest, read);
        assert(labels[labels.len() - 1] == labels.last());
        not_a_setting(labels.last());
        assert(draft.labelled(labels.last(), read) =~= draft);
    }
}

/// The least retention that is asked for raises a shorter one to itself and leaves a longer one
/// alone; nothing else is touched.
pub proof fn least_retention_raises_shorter_ones(draft: PolicyDraft, days: u64, least: u64)
    requires
        draft.policy.retention_days == Some(days),
    ensures
        draft.least_days == Some(least) && days < least ==> draft.settled().retention_days == Some(
            least,
        ),
        draft.least_days == Some(least) && days >= least ==> draft.settled().retention_days
            == Some(days),
        draft.least_days is None ==> draft.settled().retention_days == Some(days),
        draft.settled().min_importance == draft.policy.min_importance,
        draft.settled().replication_allow == draft.policy.replication_allow,
        draft.settled().replication_deny == draft.policy.replication_deny,
{
}

/// The policy of a world is read from its own atoms, from those of the world `policy:` and its
/// name and, where it belongs to a tenant, from those of the policy world of the tenant.
pub proof fn policy_comes_from_three_places(
    world: Seq<char>,
    atoms: Seq<AtomView>,
    t: PolicyReplies,
    a: AtomView,
    tenant: Seq<char>,
    rest: Seq<char>,
)
    ensures
        atoms.contains(a) && a.world == world ==> engine::policy_atoms(world, atoms, t).contains(a),
        t.policy_scan is Ok && t.policy_scan->Ok_0.contains(a) ==> engine::policy_atoms(
            world,
            atoms,
            t,
        ).contains(a),
        world == "tenant:"@ + tenant + "/"@ + rest && t.tenant_scan is Ok
            && t.tenant_scan->Ok_0.contains(a) ==> engine::policy_atoms(world, atoms, t).contains(
            a,
        ),
        engine::policy_atoms(world, atoms, t).contains(a) ==> (atoms.contains(a) && a.world
            == world) || (t.policy_scan is Ok && t.policy_scan->Ok_0.contains(a)) || (t.tenant_scan
            is Ok && t.tenant_scan->Ok_0.contains(a)),
        ({
            let calls = engine::policy_calls(world, t).storage;
            &&& calls.len() > 0 && calls[0] == (StorageCall::Scan {
                world: "policy:"@ + world,
                filter: FilterView::all(),
                reply: t.policy_scan,
            })
            &&& world == "tenant:"@ + tenant + "/"@ + rest ==> calls.len() == 2 && calls[1] == (
            StorageCall::Scan {
                world: t.tenant,
                filter: FilterView::all(),
                reply: t.tenant_scan,
            })
            &&& world == "tenant:"@ + tenant + "/"@ + rest && !tenant.contains('/')
                && engine::names_tenant(world, t) ==> t.tenant == "tenant:"@ + tenant + "/policy"@
        }),
{
    let p = |x: AtomView| x.world == world;
    let own = atoms.filter(p);
    let extra = engine::ok_or_none(t.policy_scan);
    let last = engine::ok_or_none(t.tenant_scan);
    let all = engine::policy_atoms(world, atoms, t);
    if world == "tenant:"@ + tenant + "/"@ + rest {
        reveal_strlit("/");
        let tail = tenant + "/"@ + rest;
        assert(world =~= "tenant:"@ + tail);
        text_laws::text_starts_with_what_it_is_joined_from("tenant:"@, tail, world);
        assert(tail[tenant.len() as int] == '/');
        assert(policy::tenant_scoped(world));
        if !tenant.contains('/') && engine::names_tenant(world, t) {
            assert(tenant.push('/') =~= tenant + "/"@);
            assert(world =~= "tenant:"@ + tenant.push('/') + rest);
            assert(policy::is_world_of_tenant(world, tenant, rest));
            policy::tenant_policy_world_is_unique(
                world,
                t.tenant,
                "tenant:"@ + tenant + "/policy"@,
            );
        }
    }
    if atoms.contains(a) && a.world == world {
        let j = choose|j: int| 0 <= j < atoms.len() && atoms[j] == a;
        atoms.lemma_filter_contains(p, j);
        let k = choose|k: int| 0 <= k < own.len() && own[k] == a;
        assert(all[k] == a);
    }
    if extra.contains(a) {
        let k = choose|k: int| 0 <= k < extra.len() && extra[k] == a;
        assert(all[own.len() + k] == a);
    }
    if last.contains(a) && policy::tenant_scoped(world) {
        let k = choose|k: int| 0 <= k < last.len() && last[k] == a;
        assert(all[own.len() + extra.len() + k] == a);
    }
    if all.contains(a) {
        let k = choose|k: int| 0 <= k < all.len() && all[k] == a;
        if k < own.len() {
            assert(own[k] == a);
            atoms.lemma_filter_pred(p, k);
            assert(own.contains(a));
            atoms.lemma_filter_contains_rev(p, a);
        } else if k < own.len() + extra.len() {
            assert(extra[k - own.len()] == a);
        } else {
            assert(last[k - own.len() - extra.len()] == a);
        }
    }
}

/// Every world that the storage names is scanned without a filter, and the ids that its policy
/// evicts are deleted from it, all of them in one call.
pub proof fn every_world_is_collected(worlds: Seq<Seq<char>>, ts: Seq<GcReply>, i: int)
    requires
        0 <= i < ts.len(),
    ensures
        engine::gc_calls(worlds, ts).storage.contains(
            StorageCall::Scan {
                world: worlds[i],
                filter: FilterView::all(),
                reply: ts[i].scan,
            },
        ),
        ts[i].scan is Ok && ts[i].ids.len() > 0 ==> engine::gc_calls(worlds, ts).storage.contains(
            StorageCall::Delete { world: worlds[i], ids: ts[i].ids, reply: ts[i].deleted },
        ),
    decreases ts.len(),
{
    let rest = ts.drop_last();
    let before = engine::gc_calls(worlds, rest).storage;
    let n = ts.len() - 1;
    let own = engine::gc_world_calls(worlds[n], ts[n]).storage;
    let all = engine::gc_calls(worlds, ts).storage;
    let scan = StorageCall::Scan { world: worlds[i], filter: FilterView::all(), reply: ts[i].scan };
    let del = StorageCall::Delete { world: worlds[i], ids: ts[i].ids, reply: ts[i].deleted };
    assert(all =~= before + own);
    if i < n {
        assert(rest[i] == ts[i]);
        every_world_is_collected(worlds, rest, i);
        let x = choose|x: int| 0 <= x < before.len() && before[x] == scan;
        assert(all[x] == scan);
        if ts[i].scan is Ok && ts[i].ids.len() > 0 {
            let y = choose|y: int| 0 <= y < before.len() && before[y] == del;
            assert(all[y] == del);
        }
    } else {
        assert(own[0] == scan);
        assert(all[before.len() as int] == scan);
        if ts[i].scan is Ok && ts[i].ids.len() > 0 {
            assert(own.last() == del);
            assert(all.last() == del);
        }
    }
}

/// What is collected is what was removed from each world, added up; a world without anything
/// to evict adds nothing, and the first failure is the outcome.
pub proof fn collected_is_the_sum(ts: Seq<GcReply>, t: GcReply)
    ensures
        engine::collected(Seq::empty()) == Ok::<usize, ErrorView>(0),
        engine::collected(ts) matches Ok(n) ==> {
            &&& t.scan is Ok && t.ids.len() == 0 ==> engine::collected(ts.push(t)) == Ok::<
                usize,
                ErrorView,
            >(n)
            &&& t.scan is Ok && t.ids.len() > 0 ==> (t.deleted matches Ok(m) ==> engine::collected(
                ts.push(t),
            ) == Ok::<usize, ErrorView>(
                if n + m > usize::MAX { usize::MAX } else { (n + m) as usize },
            ))
            &&& t.scan is Ok && t.ids.len() > 0 && t.deleted is Err ==> engine::collected(
                ts.push(t),
            ) == Err::<usize, ErrorView>(t.deleted->Err_0)
            &&& t.scan is Err ==> engine::collected(ts.push(t)) == Err::<usize, ErrorView>(
                t.scan->Err_0,
            )
        },
        engine::collected(ts) is Err ==> engine::collected(ts.push(t)) == engine::collected(ts),
{
    assert(ts.push(t).drop_last() =~= ts);
}

/// In a world where no label asks for anything, every atom more than 365 days older than some
/// atom of it, which nothing links to and no label protects, is deleted when garbage is
/// collected.
pub proof fn default_retention_deletes_old_atoms<F: Fn(&str) -> Option<Single>>(
    worlds: Seq<Seq<char>>,
    read: F,
    ts: Seq<GcReply>,
    i: int,
    j: int,
    k: int,
)
    requires
        engine::gc_rightly(Ok::<Seq<Seq<char>>, ErrorView>(worlds), read, ts),
        0 <= i < ts.len(),
        ts[i].scan is Ok,
        forall|n: int, m: int|
            0 <= n < engine::policy_atoms(worlds[i], ts[i].scan->Ok_0, ts[i].policy).len() && 0 <= m
                < engine::policy_atoms(
                worlds[i],
                ts[i].scan->Ok_0,
                ts[i].policy,
            )[n].labels.len() ==> !text::has_prefix(
                #[trigger] engine::policy_atoms(
                    worlds[i],
                    ts[i].scan->Ok_0,
                    ts[i].policy,
                )[n].labels[m],
                "policy:"@,
            ),
        0 <= j < ts[i].scan->Ok_0.len(),
        0 <= k < ts[i].scan->Ok_0.len(),
        older_by_more(ts[i].scan->Ok_0[j], ts[i].scan->Ok_0[k], 365),
        forall|n: int, m: int|
            0 <= n < ts[i].scan->Ok_0.len() && 0 <= m < ts[i].scan->Ok_0[n].links.len() ==> (
            #[trigger] ts[i].scan->Ok_0[n].links[m]).target != ts[i].scan->Ok_0[j].id,
        forall|n: int|
            0 <= n < ts[i].scan->Ok_0[j].labels.len() ==> !text::has_prefix(
                #[trigger] ts[i].scan->Ok_0[j].labels[n],
                "policy:"@,
            ) && !text::has_prefix(ts[i].scan->Ok_0[j].labels[n], "world_meta"@),
    ensures
        exists|ids: Seq<Seq<char>>|
            ids.contains(ts[i].scan->Ok_0[j].id) && engine::gc_once_calls(
                Ok::<Seq<Seq<char>>, ErrorView>(worlds),
                ts,
            ).storage.contains(
                #[trigger] deletion(worlds[i], ids, ts[i].deleted),
            ),
{
    let atoms = ts[i].scan->Ok_0;
    let sources = engine::policy_atoms(worlds[i], atoms, ts[i].policy);
    assert(engine::evicts_rightly(worlds[i], read, ts[i]));
    policy_without_labels_is_the_default(sources, read);
    old_atom_is_evicted(policy::policy_of(sources, read), atoms, ts[i].ids, 365, j, k);
    every_world_is_collected(worlds, ts, i);
    let named = engine::worlds_call(Ok::<Seq<Seq<char>>, ErrorView>(worlds)).storage;
    let inner = engine::gc_calls(worlds, ts).storage;
    let all = engine::gc_once_calls(Ok::<Seq<Seq<char>>, ErrorView>(worlds), ts).storage;
    let del = deletion(worlds[i], ts[i].ids, ts[i].deleted);
    assert(all =~= named + inner);
    let x = choose|x: int| 0 <= x < inner.len() && inner[x] == del;
    assert(all[named.len() + x] == del);
}

/// A call that deletes ids from a world.
pub open spec fn deletion(
    world: Seq<char>,
    ids: Seq<Seq<char>>,
    reply: std::result::Result<usize, ErrorView>,
) -> StorageCall {
    StorageCall::Delete { world, ids, reply }
}

/// What a reader may read a text as is what it reads it as.
pub proof fn reading_is_what_is_read<F: Fn(&str) -> Option<Single>>(
    f: F,
    s: &str,
    v: Option<Single>,
)
    requires
        policy::is_reader(f),
        call_ensures(f, (s,), v),
    ensures
        policy::reading(f, s@) == v,
        policy::may_read(f, s@, v),
{
    assert(policy::may_read(f, s@, v));
    let r = policy::reading(f, s@);
    assert(policy::may_read(f, s@, r));
}

/// A label that names no node adds none.
pub proof fn empty_name_adds_no_node(name: Seq<char>, current: Seq<Seq<char>>)
    ensures
        policy::listed_setting(name, name, current) == current,
{
    text_laws::text_starts_with_what_it_is_joined_from(name, Seq::empty(), name);
    assert(name + Seq::<char>::empty() =~= name);
}

}
