//! What a filter lets through, and what a scan of a stored world returns.

use vstd::prelude::*;

use crate::atom::AtomView;
use crate::db;
use crate::keys::KeyProvider;
use crate::layout;
use crate::model::{ErrorView, FilterView, TimeWindow};
use crate::moment;
use crate::sled_store;
use crate::text;

verus! {

/// An atom passes a filter exactly where every criterion of the filter holds of it: its kind
/// is listed if kinds are, each of the labels and flags asked for is among its own, and its
/// timestamp is, as text, neither before `since` nor after `until`.
pub proof fn filter_is_all_of_its_criteria(f: FilterView, a: AtomView)
    ensures
        f.admits(a) ==> f.kinds.len() == 0 || exists|k: int|
            0 <= k < f.kinds.len() && #[trigger] f.kinds[k] == a.kind,
        f.admits(a) ==> forall|k: int|
            0 <= k < f.labels.len() ==> a.labels.contains(#[trigger] f.labels[k]),
        f.admits(a) ==> forall|k: int|
            0 <= k < f.flags.len() ==> a.flags.contains(#[trigger] f.flags[k]),
        f.admits(a) && f.since is Some ==> !text::before(a.timestamp, f.since->0),
        f.admits(a) && f.until is Some ==> !text::before(f.until->0, a.timestamp),
        (f.kinds.len() == 0 || f.kinds.contains(a.kind)) && (forall|k: int|
            0 <= k < f.labels.len() ==> a.labels.contains(#[trigger] f.labels[k])) && (forall|
            k: int,
        |
            0 <= k < f.flags.len() ==> a.flags.contains(#[trigger] f.flags[k])) && (f.since is None
            || !text::before(a.timestamp, f.since->0)) && (f.until is None || !text::before(
            f.until->0,
            a.timestamp,
        )) ==> f.admits(a),
{
}

/// A filter with one criterion more lets no more atoms through, and a filter without criteria
/// lets every atom through.
pub proof fn further_criteria_let_less_through(
    f: FilterView,
    label: Seq<char>,
    flag: Seq<char>,
    bound: Seq<char>,
    a: AtomView,
)
    ensures
        (FilterView { labels: f.labels.push(label), ..f }).admits(a) == (f.admits(a)
            && a.labels.contains(label)),
        (FilterView { flags: f.flags.push(flag), ..f }).admits(a) == (f.admits(a)
            && a.flags.contains(flag)),
        f.since is None ==> (FilterView { since: Some(bound), ..f }).admits(a) == (f.admits(a)
            && !text::before(a.timestamp, bound)),
        f.until is None ==> (FilterView { until: Some(bound), ..f }).admits(a) == (f.admits(a)
            && !text::before(bound, a.timestamp)),
        f.kinds.len() == 0 ==> (FilterView { kinds: seq![a.kind], ..f }).admits(a) == f.admits(a),
        FilterView::all().admits(a),
{
    let labelled = FilterView { labels: f.labels.push(label), ..f };
    assert(labelled.labels[f.labels.len() as int] == label);
    assert forall|k: int| 0 <= k < f.labels.len() implies labelled.labels[k] == f.labels[k] by {}
    if labelled.admits(a) {
        assert forall|k: int| 0 <= k < f.labels.len() implies a.labels.contains(
            #[trigger] f.labels[k],
        ) by {
            assert(a.labels.contains(labelled.labels[k]));
        }
    }
    let flagged = FilterView { flags: f.flags.push(flag), ..f };
    assert(flagged.flags[f.flags.len() as int] == flag);
    if flagged.admits(a) {
        assert forall|k: int| 0 <= k < f.flags.len() implies a.flags.contains(
            #[trigger] f.flags[k],
        ) by {
            assert(a.flags.contains(flagged.flags[k]));
        }
    }
    assert(seq![a.kind][0] == a.kind);
}

/// Every atom that a scan returns is stored for one of the entries of the log of the world,
/// and meets every criterion of the filter; there are no more of them than were asked for.
pub proof fn scan_returns_what_the_filter_asks_for<K: KeyProvider>(
    c: Map<Seq<u8>, Seq<u8>>,
    provider: K,
    world: Seq<char>,
    f: FilterView,
)
    requires
        sled_store::scan_of(c, provider, world, f) is Ok,
    ensures
        ({
            let found = sled_store::scan_of(c, provider, world, f)->Ok_0;
            let entries = db::listing(c, layout::log_prefix(world));
            &&& f.limit is Some ==> found.len() <= f.limit->0
            &&& forall|i: int|
                0 <= i < found.len() ==> {
                    let a = #[trigger] found[i];
                    &&& f.world is None || f.world->0 == world
                    &&& f.kinds.len() == 0 || f.kinds.contains(a.kind)
                    &&& forall|k: int|
                        0 <= k < f.labels.len() ==> a.labels.contains(#[trigger] f.labels[k])
                    &&& forall|k: int|
                        0 <= k < f.flags.len() ==> a.flags.contains(#[trigger] f.flags[k])
                    &&& f.since is None || !text::before(a.timestamp, f.since->0)
                    &&& f.until is None || !text::before(f.until->0, a.timestamp)
                    &&& exists|j: int|
                        0 <= j < entries.len() && sled_store::logged(
                            c,
                            provider,
                            world,
                            #[trigger] entries[j],
                        ) == Ok::<Option<AtomView>, ErrorView>(Some(a))
                }
        }),
{
    if f.world is None || f.world->0 == world {
        scanned_is_sound(c, provider, world, f, db::listing(c, layout::log_prefix(world)));
    }
}

proof fn scanned_is_sound<K: KeyProvider>(
    c: Map<Seq<u8>, Seq<u8>>,
    provider: K,
    world: Seq<char>,
    f: FilterView,
    entries: Seq<(Seq<u8>, Seq<u8>)>,
)
    requires
        sled_store::scanned(c, provider, world, f, entries) is Ok,
    ensures
        ({
            let found = sled_store::scanned(c, provider, world, f, entries)->Ok_0;
            &&& f.limit is Some ==> found.len() <= f.limit->0
            &&& forall|i: int|
                0 <= i < found.len() ==> f.admits(#[trigger] found[i]) && exists|j: int|
                    0 <= j < entries.len() && sled_store::logged(
                        c,
                        provider,
                        world,
                        #[trigger] entries[j],
                    ) == Ok::<Option<AtomView>, ErrorView>(Some(found[i]))
        }),
    decreases entries.len(),
{
    if entries.len() > 0 {
        let rest = entries.drop_last();
        scanned_is_sound(c, provider, world, f, rest);
        let before = sled_store::scanned(c, provider, world, f, rest)->Ok_0;
        let found = sled_store::scanned(c, provider, world, f, entries)->Ok_0;
        assert forall|i: int| 0 <= i < found.len() implies f.admits(#[trigger] found[i])
            && exists|j: int|
            0 <= j < entries.len() && sled_store::logged(c, provider, world, #[trigger] entries[j])
                == Ok::<Option<AtomView>, ErrorView>(Some(found[i])) by {
            if i < before.len() {
                assert(found[i] == before[i]);
                let j = choose|j: int|
                    0 <= j < rest.len() && sled_store::logged(
                        c,
                        provider,
                        world,
                        #[trigger] rest[j],
                    ) == Ok::<Option<AtomView>, ErrorView>(Some(before[i]));
                assert(entries[j] == rest[j]);
            } else {
                assert(entries[entries.len() - 1] == entries.last());
            }
        }
    }
}

/// Every atom that is stored for an entry of the log and meets the criteria is returned by a
/// scan without a limit, before those of later entries.
pub proof fn scan_returns_all_that_meet_the_filter<K: KeyProvider>(
    c: Map<Seq<u8>, Seq<u8>>,
    provider: K,
    world: Seq<char>,
    f: FilterView,
    j: int,
    a: AtomView,
)
    requires
        f.world is None || f.world->0 == world,
        f.limit is None,
        sled_store::scan_of(c, provider, world, f) is Ok,
        0 <= j < db::listing(c, layout::log_prefix(world)).len(),
        sled_store::logged(c, provider, world, db::listing(c, layout::log_prefix(world))[j]) == Ok::<
            Option<AtomView>,
            ErrorView,
        >(Some(a)),
        f.kinds.len() == 0 || f.kinds.contains(a.kind),
        forall|k: int| 0 <= k < f.labels.len() ==> a.labels.contains(#[trigger] f.labels[k]),
        forall|k: int| 0 <= k < f.flags.len() ==> a.flags.contains(#[trigger] f.flags[k]),
        f.since is None || !text::before(a.timestamp, f.since->0),
        f.until is None || !text::before(f.until->0, a.timestamp),
    ensures
        sled_store::scan_of(c, provider, world, f)->Ok_0.contains(a),
{
    scanned_is_complete(c, provider, world, f, db::listing(c, layout::log_prefix(world)), j, a);
}

proof fn scanned_is_complete<K: KeyProvider>(
    c: Map<Seq<u8>, Seq<u8>>,
    provider: K,
    world: Seq<char>,
    f: FilterView,
    entries: Seq<(Seq<u8>, Seq<u8>)>,
    j: int,
    a: AtomView,
)
    requires
        f.limit is None,
        f.admits(a),
        sled_store::scanned(c, provider, world, f, entries) is Ok,
        0 <= j < entries.len(),
        sled_store::logged(c, provider, world, entries[j]) == Ok::<Option<AtomView>, ErrorView>(
            Some(a),
        ),
    ensures
        sled_store::scanned(c, provider, world, f, entries)->Ok_0.contains(a),
    decreases entries.len(),
{
    let rest = entries.drop_last();
    let before = sled_store::scanned(c, provider, world, f, rest)->Ok_0;
    let found = sled_store::scanned(c, provider, world, f, entries)->Ok_0;
    if j < rest.len() {
        scanned_is_complete(c, provider, world, f, rest, j, a);
        let i = choose|i: int| 0 <= i < before.len() && before[i] == a;
        assert(found[i] == a);
    } else {
        assert(found[before.len() as int] == a);
    }
}

/// A scan goes along the log: what it finds in the first entries stands at the front of what
/// it finds in all of them. With a limit it finds the first so many of what it finds without.
pub proof fn scan_goes_along_the_log<K: KeyProvider>(
    c: Map<Seq<u8>, Seq<u8>>,
    provider: K,
    world: Seq<char>,
    f: FilterView,
    entries: Seq<(Seq<u8>, Seq<u8>)>,
    k: int,
    n: usize,
)
    requires
        0 <= k <= entries.len(),
        f.limit is None,
        sled_store::scanned(c, provider, world, f, entries) is Ok,
    ensures
        ({
            let all = sled_store::scanned(c, provider, world, f, entries)->Ok_0;
            let first = sled_store::scanned(c, provider, world, f, entries.subrange(0, k));
            let few = sled_store::scanned(
                c,
                provider,
                world,
                FilterView { limit: Some(n), ..f },
                entries,
            );
            &&& first is Ok
            &&& first->Ok_0.len() <= all.len()
            &&& all.subrange(0, first->Ok_0.len() as int) == first->Ok_0
            &&& few is Ok
            &&& all.len() <= n ==> few->Ok_0 == all
            &&& all.len() > n ==> few->Ok_0 == all.subrange(0, n as int)
        }),
    decreases entries.len(),
{
    let g = FilterView { limit: Some(n), ..f };
    let all = sled_store::scanned(c, provider, world, f, entries)->Ok_0;
    if entries.len() > 0 {
        let rest = entries.drop_last();
        let before = sled_store::scanned(c, provider, world, f, rest)->Ok_0;
        let j = if k < entries.len() { k } else { k - 1 };
        scan_goes_along_the_log(c, provider, world, f, rest, j, n);
        assert(all.subrange(0, before.len() as int) =~= before);
        assert(all.subrange(0, all.len() as int) =~= all);
        if k < entries.len() {
            assert(rest.subrange(0, k) =~= entries.subrange(0, k));
            let first = sled_store::scanned(c, provider, world, f, entries.subrange(0, k))->Ok_0;
            assert(all.subrange(0, first.len() as int) =~= before.subrange(0, first.len() as int));
        } else {
            assert(entries.subrange(0, k) =~= entries);
        }
        let shorter = sled_store::scanned(c, provider, world, g, rest)->Ok_0;
        let few = sled_store::scanned(c, provider, world, g, entries);
        match sled_store::logged(c, provider, world, entries.last())->Ok_0 {
            Some(a) => {
                assert(g.admits(a) == f.admits(a));
            },
            None => {},
        }
        if before.len() >= n {
            assert(shorter.len() >= n);
            if before.len() == n {
                assert(all.subrange(0, n as int) =~= before);
            } else {
                assert(all.subrange(0, n as int) =~= before.subrange(0, n as int));
            }
        } else {
            assert(shorter == before);
            if all.len() > n {
                assert(false);
            }
        }
    } else {
        assert(entries.subrange(0, k) =~= entries);
        assert(all.subrange(0, 0) =~= all);
    }
}

/// The ids in a window of time are those of the entries whose atom is stored with a timestamp
/// that is a moment in it, bounds included: each of them and no others.
pub proof fn window_holds_the_atoms_of_its_time<K: KeyProvider>(
    c: Map<Seq<u8>, Seq<u8>>,
    provider: K,
    world: Seq<char>,
    window: TimeWindow,
    entries: Seq<(Seq<u8>, Seq<u8>)>,
    id: Seq<char>,
)
    requires
        sled_store::ids_within(c, provider, world, window, entries) is Ok,
    ensures
        sled_store::ids_within(c, provider, world, window, entries)->Ok_0.contains(id) <==> exists|
            j: int,
        |
            0 <= j < entries.len() && {
                let at = sled_store::logged(c, provider, world, #[trigger] entries[j]);
                &&& sled_store::framed_id(entries[j].1) == Some(id)
                &&& at is Ok && at->Ok_0 is Some
                &&& moment::moment_of(at->Ok_0->0.timestamp) is Some
                &&& window.start_ms <= moment::moment_of(
                    at->Ok_0->0.timestamp,
                )->0.spec_millis() <= window.end_ms
            },
    decreases entries.len(),
{
    if entries.len() > 0 {
        let rest = entries.drop_last();
        window_holds_the_atoms_of_its_time(c, provider, world, window, rest, id);
        let before = sled_store::ids_within(c, provider, world, window, rest)->Ok_0;
        let after = sled_store::ids_within(c, provider, world, window, entries)->Ok_0;
        let last = entries.len() - 1;
        assert(entries[last] == entries.last());
        assert forall|j: int| 0 <= j < rest.len() implies rest[j] == #[trigger] entries[j] by {}
        if before.contains(id) {
            let i = choose|i: int| 0 <= i < before.len() && before[i] == id;
            assert(after[i] == id);
            let j = choose|j: int|
                0 <= j < rest.len() && {
                    let at = sled_store::logged(c, provider, world, #[trigger] rest[j]);
                    &&& sled_store::framed_id(rest[j].1) == Some(id)
                    &&& at is Ok && at->Ok_0 is Some
                    &&& moment::moment_of(at->Ok_0->0.timestamp) is Some
                    &&& window.start_ms <= moment::moment_of(
                        at->Ok_0->0.timestamp,
                    )->0.spec_millis() <= window.end_ms
                };
            assert(entries[j] == rest[j]);
        } else if after.contains(id) {
            let i = choose|i: int| 0 <= i < after.len() && after[i] == id;
            if i < before.len() {
                assert(before[i] == id);
            }
        }
        if after.len() > before.len() {
            assert(after[before.len() as int] == sled_store::framed_id(entries.last().1)->0);
        }
    }
}

}
