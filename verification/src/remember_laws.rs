//! What becomes of a submitted atom, and of atoms that come from other nodes.

use vstd::prelude::*;
use vstd::string::*;

use crate::atom::{AtomView, LinkKind, LinkView};
use crate::calls::{EmbedCall, GateCall, StorageCall, StreamCall, VectorCall};
use crate::clock::Instant;
use crate::conflict::ConflictView;
use crate::engine;
use crate::engine::{EngineState, IngestReply, RememberReplies};
use crate::model::{ErrorView, NewAtomView};
use crate::moment;
use crate::quarantine;
use crate::reflex;
use crate::reflex::{BucketView, ReflexIndexConfig, ReflexView};
use crate::single;
use crate::text;

verus! {

broadcast use {
    crate::lists::group_views,
    crate::calls::group_calls,
    crate::single::with_bits_has_bits,
    crate::single::bits_determine,
};

/// A submission that is let through and taken by the vector index is appended once, with the
/// worker, kind, importance, payload and links that were submitted and all the flags and
/// labels. It has the submitted vector, whatever the embedder replied, and the embedder's only
/// where none was submitted; and the submitted timestamp, or the present time where that is
/// empty. What is appended is also what is indexed and published.
pub proof fn submission_is_kept_as_it_was_made(
    state: EngineState,
    atom: NewAtomView,
    now: Instant,
    timestamp: Seq<char>,
    t: RememberReplies,
)
    requires
        t.gate is Ok,
        t.embed is Ok,
        t.store.upsert is Ok,
    ensures
        ({
            let calls = engine::remember_calls(state, atom, now, timestamp, t);
            let kept = calls.storage[0]->Append_atom;
            &&& calls.storage.len() == 1
            &&& calls.storage[0] == (StorageCall::Append { atom: kept, reply: t.store.append })
            &&& kept.worker == atom.worker
            &&& kept.kind == atom.kind
            &&& kept.importance == atom.importance
            &&& kept.payload_json == atom.payload_json
            &&& kept.links == atom.links
            &&& atom.vector is Some ==> kept.vector == atom.vector
            &&& atom.vector is None ==> kept.vector == t.embed->Ok_0
            &&& atom.timestamp.len() > 0 ==> kept.timestamp == atom.timestamp
            &&& atom.timestamp.len() == 0 ==> kept.timestamp == timestamp
            &&& forall|i: int|
                0 <= i < atom.flags.len() ==> kept.flags.contains(#[trigger] atom.flags[i])
            &&& forall|i: int|
                0 <= i < atom.labels.len() ==> kept.labels.contains(#[trigger] atom.labels[i])
            &&& forall|i: int|
                0 <= i < calls.stream.len() ==> #[trigger] calls.stream[i] == (
                StreamCall::Publish { atom: kept, reply: t.store.publish })
            &&& forall|i: int|
                0 <= i < calls.vector.len() ==> (#[trigger] calls.vector[i]) is Rebuild
                    || calls.vector[i] == (VectorCall::Upsert {
                    world: kept.world,
                    id: kept.id,
                    vector: kept.vector->0,
                    reply: t.store.upsert,
                })
            &&& kept.vector is Some ==> calls.vector.len() > 0 && calls.vector.last() is Upsert
            &&& kept.vector is None ==> forall|i: int|
                0 <= i < calls.vector.len() ==> (#[trigger] calls.vector[i]) is Rebuild
            &&& calls.stream.len() == if t.store.append is Ok && moment::moment_of(
                kept.timestamp,
            ) is Some {
                1nat
            } else {
                0nat
            }
        }),
{
    let calls = engine::remember_calls(state, atom, now, timestamp, t);
    let kept = engine::remembered_atom(state, atom, now, timestamp, t.embed->Ok_0);
    let stored = engine::store_calls(kept, t.store);
    let version = engine::version_calls(state.index, atom.world, t.version, t.rebuild);
    assert(calls.storage =~= seq![StorageCall::Append { atom: kept, reply: t.store.append }]);
    assert(calls.vector =~= version.vector + stored.vector);
    assert(calls.stream =~= stored.stream);
    let filled = engine::stamped(atom, timestamp);
    let apart = quarantine::set_apart(filled);
    assert forall|i: int| 0 <= i < atom.flags.len() implies apart.flags.contains(
        #[trigger] atom.flags[i],
    ) by {
        assert(apart.flags[i] == atom.flags[i]);
    }
    assert forall|i: int| 0 <= i < atom.labels.len() implies apart.labels.contains(
        #[trigger] atom.labels[i],
    ) by {
        assert(apart.labels[i] == atom.labels[i]);
    }
    assert forall|i: int| 0 <= i < calls.vector.len() implies (#[trigger] calls.vector[i]) is Rebuild
        || calls.vector[i] == (VectorCall::Upsert {
        world: kept.world,
        id: kept.id,
        vector: kept.vector->0,
        reply: t.store.upsert,
    }) by {
        if i < version.vector.len() {
            assert(calls.vector[i] == version.vector[i]);
        } else {
            assert(calls.vector[i] == stored.vector[i - version.vector.len()]);
        }
    }
}

/// A submission keeps its world, flags and labels unless its worker submitted more than five
/// atoms within the second, its payload speaks of impossible values, or a worker of low trust
/// claims an importance above 0.7. Then it is put in the quarantine of its world, flagged
/// `suspect` and labelled `quarantine`.
pub proof fn submission_is_set_apart_exactly_if_suspect(
    state: EngineState,
    atom: NewAtomView,
    now: Instant,
    timestamp: Seq<char>,
    t: RememberReplies,
)
    requires
        t.gate is Ok,
        t.embed is Ok,
        t.store.upsert is Ok,
    ensures
        ({
            let kept = engine::remember_calls(
                state,
                atom,
                now,
                timestamp,
                t,
            ).storage[0]->Append_atom;
            let payload = text::lower(atom.payload_json);
            let claim = atom.importance.value();
            let suspect = quarantine::noted(state.suspicions, atom.worker, now).len() > 5
                || text::has_infix(payload, "nan"@) || text::has_infix(payload, "infinity"@)
                || text::has_infix(payload, "impossible"@) || (text::has_prefix(
                text::lower(atom.worker),
                "lowtrust"@,
            ) && !claim.nan() && claim.key() > 0x3f33_3333);
            &&& !suspect ==> kept.world == atom.world && kept.flags == atom.flags && kept.labels
                == atom.labels
            &&& suspect ==> kept.world == "quarantine:"@ + atom.world && kept.flags.contains(
                "suspect"@,
            ) && kept.labels.contains("quarantine"@) && kept.flags.len() <= atom.flags.len() + 1
                && kept.labels.len() <= atom.labels.len() + 1
        }),
{
    let calls = engine::remember_calls(state, atom, now, timestamp, t);
    let kept = engine::remembered_atom(state, atom, now, timestamp, t.embed->Ok_0);
    assert(calls.storage =~= seq![StorageCall::Append { atom: kept, reply: t.store.append }]);
    let filled = engine::stamped(atom, timestamp);
    quarantine::set_apart_is_quarantined(filled);
    let bar = single::with_bits(0x3f33_3333);
    assert(bar.spec_bits() == 0x3f33_3333);
    assert(bar.magnitude() == 0x3f33_3333);
}

/// The submissions that count against a worker are the ones noted before and this one, without
/// those at the front that are more than a second old; one at most a second old is not passed
/// over on the way. Those of other workers stay as they are.
pub proof fn submissions_of_a_second_count(
    state: EngineState,
    atom: NewAtomView,
    now: Instant,
    timestamp: Seq<char>,
    t: RememberReplies,
    other: Seq<char>,
)
    requires
        t.gate is Ok,
        other != atom.worker,
    ensures
        ({
            let after = engine::remembered(state, atom, now, timestamp, t).0.suspicions;
            let all = (if state.suspicions.contains_key(atom.worker) {
                state.suspicions[atom.worker]
            } else {
                Seq::empty()
            }).push(now);
            let left = after[atom.worker];
            let gone = all.len() - left.len();
            &&& after.contains_key(atom.worker)
            &&& left == quarantine::noted(state.suspicions, atom.worker, now)
            &&& 0 < left.len() <= all.len()
            &&& left == all.subrange(gone, all.len() as int)
            &&& forall|i: int|
                0 <= i < gone ==> now.since((#[trigger] all[i])) > 1_000_000_000
            &&& now.since(left[0]) <= 1_000_000_000
            &&& after.get(other) == state.suspicions.get(other)
        }),
{
    let all = quarantine::instants_of(state.suspicions, atom.worker).push(now);
    recent_is_a_suffix(all, now);
    quarantine::submission_counts(state.suspicions, atom.worker, now);
    let kept = engine::remembered_atom(state, atom, now, timestamp, t.embed->Ok_0);
}

proof fn recent_is_a_suffix(all: Seq<Instant>, now: Instant)
    ensures
        ({
            let left = quarantine::recent(all, now);
            let gone = all.len() - left.len();
            &&& left.len() <= all.len()
            &&& left == all.subrange(gone, all.len() as int)
            &&& forall|i: int| 0 <= i < gone ==> now.since((#[trigger] all[i])) > 1_000_000_000
            &&& left.len() > 0 ==> now.since(left[0]) <= 1_000_000_000
        }),
    decreases all.len(),
{
    if all.len() > 0 && now.since(all.first()) > 1_000_000_000 {
        let rest = all.drop_first();
        recent_is_a_suffix(rest, now);
        let left = quarantine::recent(all, now);
        let gone = all.len() - left.len();
        assert(left =~= all.subrange(gone, all.len() as int));
        assert forall|i: int| 0 <= i < gone implies now.since((#[trigger] all[i]))
            > 1_000_000_000 by {
            if i > 0 {
                assert(rest[i - 1] == all[i]);
            }
        }
    } else {
        assert(all.subrange(0, all.len() as int) =~= all);
    }
}

/// A submission is shown to the gatekeeper as it was made, and its payload to the embedder. It
/// is answered with the id of the kept atom exactly where no component fails and the timestamp
/// can be read; otherwise with the first failure.
pub proof fn submission_is_answered(
    state: EngineState,
    atom: NewAtomView,
    now: Instant,
    timestamp: Seq<char>,
    t: RememberReplies,
)
    ensures
        ({
            let calls = engine::remember_calls(state, atom, now, timestamp, t);
            let (after, r) = engine::remembered(state, atom, now, timestamp, t);
            let at = moment::moment_of(if atom.timestamp.len() == 0 {
                timestamp
            } else {
                atom.timestamp
            });
            let vector = atom.vector is Some || (t.embed is Ok && t.embed->Ok_0 is Some);
            &&& calls.gate == seq![GateCall::Remember { atom, reply: t.gate }]
            &&& t.gate is Ok ==> calls.embed == seq![
                EmbedCall { payload: atom.payload_json, reply: t.embed },
            ]
            &&& r is Ok <==> t.gate is Ok && t.embed is Ok && (vector ==> t.store.upsert is Ok)
                && t.store.append is Ok && at is Some && t.store.publish is Ok
            &&& r is Ok ==> r->Ok_0 == "atom-"@ + text::decimal(state.next_id as nat)
                && calls.storage[0]->Append_atom.id == r->Ok_0
            &&& r matches Err(e) ==> (t.gate is Err && e == t.gate->Err_0) || (t.embed is Err && e
                == t.embed->Err_0) || (t.store.upsert is Err && e == t.store.upsert->Err_0) || (
            t.store.append is Err && e == t.store.append->Err_0) || (at is None) || (t.store.publish
                is Err && e == t.store.publish->Err_0)
            &&& t.gate is Ok && t.embed is Ok && vector && t.store.upsert is Err
                ==> calls.storage.len() == 0 && calls.stream.len() == 0 && r == Err::<
                Seq<char>,
                ErrorView,
            >(t.store.upsert->Err_0)
            &&& t.gate is Ok && t.embed is Err ==> calls.storage.len() == 0 && calls.stream.len()
                == 0 && r == Err::<Seq<char>, ErrorView>(t.embed->Err_0)
            &&& r is Err && (t.gate is Err || t.embed is Err || t.store.append is Err || at is None)
                ==> after.reflex == state.reflex && after.conflicts == state.conflicts
            &&& t.gate is Ok ==> after.next_id == if state.next_id == u64::MAX {
                0u64
            } else {
                (state.next_id + 1) as u64
            }
        }),
{
    let calls = engine::remember_calls(state, atom, now, timestamp, t);
    let screened = state.screened(atom, now, timestamp);
    assert(screened.payload_json == atom.payload_json);
    assert(calls.gate =~= seq![GateCall::Remember { atom, reply: t.gate }]);
    if t.gate is Ok {
        assert(calls.embed =~= seq![EmbedCall { payload: atom.payload_json, reply: t.embed }]);
        if t.embed is Ok {
            let kept = engine::remembered_atom(state, atom, now, timestamp, t.embed->Ok_0);
            assert(calls.storage =~= engine::store_calls(kept, t.store).storage);
            assert(calls.stream =~= engine::store_calls(kept, t.store).stream);
        }
    }
}

/// Two numbers give two ids.
pub proof fn ids_of_atoms_differ(m: u64, n: u64)
    requires
        m != n,
    ensures
        engine::numbered_id(m) != engine::numbered_id(n),
        text::has_prefix(engine::numbered_id(n), "atom-"@),
{
    let p = "atom-"@;
    text::decimal_reads_back(m as nat);
    text::decimal_reads_back(n as nat);
    let (a, b) = (engine::numbered_id(m), engine::numbered_id(n));
    assert(a.subrange(p.len() as int, a.len() as int) =~= text::decimal(m as nat));
    assert(b.subrange(p.len() as int, b.len() as int) =~= text::decimal(n as nat));
    assert(b.subrange(0, p.len() as int) =~= p);
}

/// An atom that is taken in is in a bucket of its world in the reflex index, and nothing else
/// comes in with it; the other worlds stay as they are.
pub proof fn taken_in_atom_is_in_its_world(index: ReflexView, atom: AtomView, other: Seq<char>)
    requires
        index.config.window() >= 0,
        other != atom.world,
    ensures
        ({
            let after = index.inserted(atom);
            &&& after.buckets.contains_key(atom.world)
            &&& exists|b: int|
                0 <= b < after.buckets[atom.world].len() && (
                #[trigger] after.buckets[atom.world][b]).atoms.contains(atom)
            &&& after.buckets.get(other) == index.buckets.get(other)
            &&& after.config == index.config
            &&& after.worlds.contains(atom.world)
            &&& forall|i: int|
                0 <= i < index.worlds.len() ==> after.worlds.contains(#[trigger] index.worlds[i])
            &&& forall|i: int|
                0 <= i < after.worlds.len() ==> #[trigger] after.worlds[i] == atom.world
                    || index.worlds.contains(after.worlds[i])
        }),
{
    let id = index.config.bucket(moment::moment_of(atom.timestamp)->0.secs as int);
    let put = reflex::with_atom(index.of_world(atom.world), id, atom);
    let i = atom_is_in_its_bucket(index.of_world(atom.world), id, atom);
    let p = |b: BucketView| b.id >= id - index.config.window();
    put.lemma_filter_contains(p, i);
    let after = index.inserted(atom);
    let left = after.buckets[atom.world];
    let k = choose|k: int| 0 <= k < left.len() && left[k] == put[i];
    assert(left[k].atoms.contains(atom));
    assert forall|i: int| 0 <= i < index.worlds.len() implies after.worlds.contains(
        #[trigger] index.worlds[i],
    ) by {
        assert(after.worlds[i] == index.worlds[i]);
    }
    if !index.worlds.contains(atom.world) {
        assert(after.worlds.last() == atom.world);
    }
    assert forall|i: int| 0 <= i < after.worlds.len() implies #[trigger] after.worlds[i]
        == atom.world || index.worlds.contains(after.worlds[i]) by {
        if i < index.worlds.len() {
            assert(after.worlds[i] == index.worlds[i]);
        }
    }
}

proof fn atom_is_in_its_bucket(buckets: Seq<BucketView>, id: int, atom: AtomView) -> (i: int)
    ensures
        0 <= i < reflex::with_atom(buckets, id, atom).len(),
        reflex::with_atom(buckets, id, atom)[i].id == id,
        reflex::with_atom(buckets, id, atom)[i].atoms.contains(atom),
    decreases buckets.len(),
{
    let after = reflex::with_atom(buckets, id, atom);
    if buckets.len() == 0 {
        assert(after[0].atoms[0] == atom);
        0
    } else if buckets[0].id == id {
        assert(after[0].atoms.last() == atom);
        0
    } else {
        let j = atom_is_in_its_bucket(buckets.drop_first(), id, atom);
        assert(after[j + 1] == reflex::with_atom(buckets.drop_first(), id, atom)[j]);
        j + 1
    }
}

/// Where the width of a bucket and the window are positive, an atom is put in the bucket of
/// its second: the seconds since the epoch by the width, rounded towards the epoch. The buckets
/// of its world that are at most the window before that keep their atoms; older ones are
/// dropped, and no other atom comes in.
pub proof fn reflex_keeps_its_window(index: ReflexView, atom: AtomView, b: int, x: AtomView)
    requires
        moment::moment_of(atom.timestamp) is Some,
        0 < index.config.bucket_width_seconds <= i64::MAX,
        index.config.bucket_width_seconds <= index.config.recency_seconds <= i64::MAX,
        index.buckets.contains_key(atom.world),
        0 <= b < index.buckets[atom.world].len(),
        index.buckets[atom.world][b].atoms.contains(x),
    ensures
        ({
            let secs = moment::moment_of(atom.timestamp)->0.secs as int;
            let width = index.config.bucket_width_seconds as int;
            let newest = if secs >= 0 { secs / width } else { -((-secs) / width) };
            let oldest = newest - index.config.recency_seconds as int / width;
            let after = index.inserted(atom).buckets[atom.world];
            &&& index.buckets[atom.world][b].id >= oldest ==> exists|k: int|
                0 <= k < after.len() && (#[trigger] after[k]).id == index.buckets[atom.world][b].id
                    && after[k].atoms.contains(x)
            &&& forall|k: int| 0 <= k < after.len() ==> (#[trigger] after[k]).id >= oldest
            &&& forall|k: int, y: AtomView|
                0 <= k < after.len() && #[trigger] after[k].atoms.contains(y) ==> y == atom
                    || exists|n: int|
                    0 <= n < index.buckets[atom.world].len() && (
                    #[trigger] index.buckets[atom.world][n]).atoms.contains(y)
        }),
{
    let secs = moment::moment_of(atom.timestamp)->0.secs as int;
    let w = index.config.bucket_width_seconds;
    let width = w as int;
    let n = index.config.recency_seconds / w;
    assert(index.config.width() as i64 == width);
    vstd::arithmetic::div_mod::lemma_div_is_ordered(width, index.config.recency_seconds as int, width);
    vstd::arithmetic::div_mod::lemma_div_by_self(width);
    vstd::arithmetic::div_mod::lemma_div_nonincreasing(index.config.recency_seconds as int, width);
    assert(n >= 1 && n <= i64::MAX);
    let id = index.config.bucket(secs);
    let had = index.buckets[atom.world];
    let put = reflex::with_atom(had, id, atom);
    let oldest = id - index.config.window();
    let p = |b: BucketView| b.id >= oldest;
    let after = index.inserted(atom).buckets[atom.world];
    assert(after == put.filter(p));
    let i = bucket_stays(had, id, atom, b, x);
    if had[b].id >= oldest {
        put.lemma_filter_contains(p, i);
        let k = choose|k: int| 0 <= k < after.len() && after[k] == put[i];
        assert(after[k].id == had[b].id && after[k].atoms.contains(x));
    }
    assert forall|k: int| 0 <= k < after.len() implies (#[trigger] after[k]).id >= oldest by {
        put.lemma_filter_pred(p, k);
    }
    assert forall|k: int, y: AtomView|
        0 <= k < after.len() && #[trigger] after[k].atoms.contains(y) implies y == atom
        || exists|n: int| 0 <= n < had.len() && (#[trigger] had[n]).atoms.contains(y) by {
        assert(after.contains(after[k]));
        put.lemma_filter_contains_rev(p, after[k]);
        let m = choose|m: int| 0 <= m < put.len() && put[m] == after[k];
        nothing_else_comes_in(had, id, atom, m, y);
    }
}

proof fn bucket_stays(
    buckets: Seq<BucketView>,
    id: int,
    atom: AtomView,
    b: int,
    x: AtomView,
) -> (i: int)
    requires
        0 <= b < buckets.len(),
        buckets[b].atoms.contains(x),
    ensures
        0 <= i < reflex::with_atom(buckets, id, atom).len(),
        reflex::with_atom(buckets, id, atom)[i].id == buckets[b].id,
        reflex::with_atom(buckets, id, atom)[i].atoms.contains(x),
    decreases buckets.len(),
{
    let after = reflex::with_atom(buckets, id, atom);
    if buckets[0].id == id {
        if b == 0 {
            let j = choose|j: int| 0 <= j < buckets[0].atoms.len() && buckets[0].atoms[j] == x;
            assert(after[0].atoms[j] == x);
        }
        b
    } else if b == 0 {
        assert(after[0] == buckets[0]);
        0
    } else {
        let rest = buckets.drop_first();
        assert(rest[b - 1] == buckets[b]);
        let j = bucket_stays(rest, id, atom, b - 1, x);
        assert(after[j + 1] == reflex::with_atom(rest, id, atom)[j]);
        j + 1
    }
}

proof fn nothing_else_comes_in(
    buckets: Seq<BucketView>,
    id: int,
    atom: AtomView,
    m: int,
    y: AtomView,
)
    requires
        0 <= m < reflex::with_atom(buckets, id, atom).len(),
        reflex::with_atom(buckets, id, atom)[m].atoms.contains(y),
    ensures
        y == atom || exists|n: int|
            0 <= n < buckets.len() && (#[trigger] buckets[n]).atoms.contains(y),
    decreases buckets.len(),
{
    let after = reflex::with_atom(buckets, id, atom);
    if buckets.len() == 0 {
    } else if buckets[0].id == id {
        if m == 0 {
            let j = choose|j: int| 0 <= j < after[0].atoms.len() && after[0].atoms[j] == y;
            if j < buckets[0].atoms.len() {
                assert(buckets[0].atoms[j] == y);
            }
        } else {
            assert(after[m] == buckets[m]);
        }
    } else if m == 0 {
        assert(after[0] == buckets[0]);
    } else {
        let rest = buckets.drop_first();
        assert(after[m] == reflex::with_atom(rest, id, atom)[m - 1]);
        nothing_else_comes_in(rest, id, atom, m - 1, y);
        if y != atom {
            let n = choose|n: int| 0 <= n < rest.len() && (#[trigger] rest[n]).atoms.contains(y);
            assert(buckets[n + 1] == rest[n]);
        }
    }
}

/// Each link of an atom that is taken in counts: a target that is superseded leads to the
/// atom, and the atom is listed last among those that contradict or confirm a target it has
/// one such link to. References count for nothing, and other targets stay as they are.
pub proof fn one_link_counts_for_its_target(index: ConflictView, id: Seq<char>, link: LinkView)
    ensures
        ({
            let after = index.linked_all(id, seq![link]);
            let target = link.target;
            &&& link.kind == LinkKind::Supersedes ==> after.supersedes.contains_key(target)
                && after.supersedes[target] == id && after.contradicts == index.contradicts
                && after.confirms == index.confirms
            &&& link.kind == LinkKind::Contradicts ==> after.contradicts.contains_key(target)
                && after.contradicts[target].last() == id && after.supersedes == index.supersedes
                && after.confirms == index.confirms
            &&& link.kind == LinkKind::Confirms ==> after.confirms.contains_key(target)
                && after.confirms[target].last() == id && after.supersedes == index.supersedes
                && after.contradicts == index.contradicts
            &&& link.kind == LinkKind::References ==> after == index
            &&& forall|x: Seq<char>|
                x != target ==> #[trigger] after.supersedes.get(x) == index.supersedes.get(x)
            &&& forall|x: Seq<char>|
                x != target ==> #[trigger] after.contradicts.get(x) == index.contradicts.get(x)
            &&& forall|x: Seq<char>|
                x != target ==> #[trigger] after.confirms.get(x) == index.confirms.get(x)
        }),
{
    let one = seq![link];
    assert(one.drop_last() =~= Seq::<LinkView>::empty());
    assert(index.linked_all(id, one.drop_last()) == index);
    assert(one.last() == link);
}

/// The links of several atoms count one after the other.
pub proof fn links_count_one_after_the_other(
    index: ConflictView,
    id: Seq<char>,
    first: Seq<LinkView>,
    then: Seq<LinkView>,
)
    ensures
        index.linked_all(id, first + then) == index.linked_all(id, first).linked_all(id, then),
    decreases then.len(),
{
    if then.len() > 0 {
        links_count_one_after_the_other(index, id, first, then.drop_last());
        assert((first + then).drop_last() =~= first + then.drop_last());
    } else {
        assert(first + then =~= first);
    }
}

/// Each atom from another node is looked for by its id alone. One that the storage does not
/// know is stored as it came, and only such atoms are; one that it knows is not.
pub proof fn remote_atoms_are_stored_as_they_came(
    atoms: Seq<AtomView>,
    ts: Seq<IngestReply>,
    k: int,
)
    requires
        ts.len() <= atoms.len(),
        0 <= k < engine::ingest_calls(atoms, ts).storage.len(),
    ensures
        ({
            let call = engine::ingest_calls(atoms, ts).storage[k];
            &&& call is Get || call is Append
            &&& call matches StorageCall::Get { ids, reply } ==> exists|i: int|
                0 <= i < ts.len() && ids == seq![atoms[i].id] && reply == (#[trigger] ts[i]).known
            &&& call matches StorageCall::Append { atom, reply } ==> exists|i: int|
                0 <= i < ts.len() && atom == atoms[i] && reply == (#[trigger] ts[i]).store.append
                    && ts[i].known is Ok && ts[i].known->Ok_0.len() == 0
        }),
    decreases ts.len(),
{
    let rest = ts.drop_last();
    let before = engine::ingest_calls(atoms, rest);
    let n = ts.len() - 1;
    let call = engine::ingest_calls(atoms, ts).storage[k];
    let t = ts.last();
    let asked = before.plus(engine::get_call(seq![atoms[n].id], t.known));
    if k < before.storage.len() {
        remote_atoms_are_stored_as_they_came(atoms, rest, k);
        assert(call == before.storage[k]);
        if call is Get {
            let i = choose|i: int|
                0 <= i < rest.len() && call->Get_ids == seq![atoms[i].id] && call->Get_reply == (
                #[trigger] rest[i]).known;
            assert(ts[i] == rest[i]);
        } else {
            let i = choose|i: int|
                0 <= i < rest.len() && call->Append_atom == atoms[i] && call->Append_reply == (
                #[trigger] rest[i]).store.append && rest[i].known is Ok && rest[i].known->Ok_0.len()
                    == 0;
            assert(ts[i] == rest[i]);
        }
    } else if k == before.storage.len() {
        assert(call == asked.storage[k]);
        assert(ts[n].known == t.known);
    } else {
        let own = engine::store_calls(atoms[n], t.store);
        assert(call == own.storage[k - asked.storage.len()]);
        assert(ts[n].store.append == t.store.append);
    }
}

/// Where no component fails, every atom from another node whose id the storage does not know
/// is appended and published and its id is among those that are given back; and no other id.
pub proof fn unknown_remote_atoms_are_taken_in(
    state: EngineState,
    atoms: Seq<AtomView>,
    ts: Seq<IngestReply>,
    i: int,
)
    requires
        ts.len() <= atoms.len(),
        0 <= i < ts.len(),
        engine::ingested(state, atoms, ts).1 is Ok,
    ensures
        ({
            let (after, r) = engine::ingested(state, atoms, ts);
            let calls = engine::ingest_calls(atoms, ts);
            let ids = r->Ok_0;
            &&& ts[i].known is Ok
            &&& ts[i].known->Ok_0.len() == 0 ==> ids.contains(atoms[i].id)
                && calls.storage.contains(
                StorageCall::Append { atom: atoms[i], reply: ts[i].store.append },
            ) && calls.stream.contains(
                StreamCall::Publish { atom: atoms[i], reply: ts[i].store.publish },
            ) && moment::moment_of(atoms[i].timestamp) is Some
            &&& forall|n: int|
                0 <= n < ids.len() ==> exists|j: int|
                    0 <= j < ts.len() && atoms[j].id == #[trigger] ids[n] && (
                    #[trigger] ts[j]).known is Ok && ts[j].known->Ok_0.len() == 0
        }),
    decreases ts.len(),
{
    let rest = ts.drop_last();
    let n = ts.len() - 1;
    let t = ts.last();
    assert(ts[n] == t);
    let (middle, so_far) = engine::ingested(state, atoms, rest);
    let before = engine::ingest_calls(atoms, rest);
    let calls = engine::ingest_calls(atoms, ts);
    let ids = engine::ingested(state, atoms, ts).1->Ok_0;
    let had = so_far->Ok_0;
    let asked = before.plus(engine::get_call(seq![atoms[n].id], t.known));
    let own = engine::store_calls(atoms[n], t.store);
    if rest.len() > 0 {
        let j = if i < n { i } else { 0 };
        unknown_remote_atoms_are_taken_in(state, atoms, rest, j);
        assert(rest[j] == ts[j]);
    }
    if i < n {
        if ts[i].known->Ok_0.len() == 0 {
            let a = StorageCall::Append { atom: atoms[i], reply: ts[i].store.append };
            let p = StreamCall::Publish { atom: atoms[i], reply: ts[i].store.publish };
            let x = choose|x: int| 0 <= x < before.storage.len() && before.storage[x] == a;
            assert(calls.storage[x] == a);
            let y = choose|y: int| 0 <= y < before.stream.len() && before.stream[y] == p;
            assert(calls.stream[y] == p);
            let z = choose|z: int| 0 <= z < had.len() && had[z] == atoms[i].id;
            assert(ids[z] == atoms[i].id);
        }
    } else if t.known->Ok_0.len() == 0 {
        assert(ids.last() == atoms[n].id);
        assert(calls.storage[asked.storage.len() as int] == own.storage[0]);
        assert(own.storage[0] == (StorageCall::Append { atom: atoms[i], reply: ts[i].store.append }));
        assert(calls.stream[asked.stream.len() as int] == own.stream[0]);
    }
    assert forall|m: int| 0 <= m < ids.len() implies exists|j: int|
        0 <= j < ts.len() && atoms[j].id == #[trigger] ids[m] && (#[trigger] ts[j]).known is Ok
            && ts[j].known->Ok_0.len() == 0 by {
        if m < had.len() {
            assert(ids[m] == had[m]);
            let j = choose|j: int|
                0 <= j < rest.len() && atoms[j].id == had[m] && (#[trigger] rest[j]).known is Ok
                    && rest[j].known->Ok_0.len() == 0;
            assert(ts[j] == rest[j]);
        } else {
            assert(ts[n].known is Ok);
        }
    }
}

/// Seconds are put in buckets of the width that is set, and of one second where none is; and as
/// many buckets are kept as fill the time that is set, but at least one.
pub proof fn buckets_have_the_width_that_is_set(config: ReflexIndexConfig, secs: int)
    requires
        config.bucket_width_seconds <= 0x7fff_ffff_ffff_ffff,
        config.recency_seconds <= 0x7fff_ffff_ffff_ffff,
        secs >= 0,
    ensures
        ({
            let width: int = if config.bucket_width_seconds == 0 {
                1
            } else {
                config.bucket_width_seconds as int
            };
            let b = config.bucket(secs);
            &&& b * width <= secs < (b + 1) * width
            &&& config.bucket(-secs) == -b
            &&& config.recency_seconds < width ==> config.window() == 1
            &&& config.recency_seconds >= width ==> config.window() * width
                <= config.recency_seconds < (config.window() + 1) * width
        }),
{
    let width = config.width() as int;
    vstd::arithmetic::div_mod::lemma_fundamental_div_mod(secs, width);
    vstd::arithmetic::div_mod::lemma_mod_bound(secs, width);
    let q = secs / width;
    assert(q * width == width * q && (q + 1) * width == width * q + width) by (nonlinear_arith);
    assert(q >= 0) by (nonlinear_arith)
        requires
            q == secs / width,
            secs >= 0,
            width > 0,
    ;
    let r = config.recency_seconds as int;
    vstd::arithmetic::div_mod::lemma_fundamental_div_mod(r, width);
    vstd::arithmetic::div_mod::lemma_mod_bound(r, width);
    let n = r / width;
    assert(n * width == width * n && (n + 1) * width == width * n + width) by (nonlinear_arith);
    assert(0 <= n <= r) by (nonlinear_arith)
        requires
            n == r / width,
            r >= 0,
            width > 0,
    ;
    if r < width {
        assert(n == 0) by (nonlinear_arith)
            requires
                n == r / width,
                0 <= r < width,
        ;
    } else {
        assert(n >= 1) by (nonlinear_arith)
            requires
                n == r / width,
                r >= width,
                width > 0,
        ;
    }
}

}
