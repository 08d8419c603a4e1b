//! What asking a question recalls: which calls are made for it, with which filter, and which
//! atoms are in the answer.

use vstd::prelude::*;

use crate::atom::AtomView;
use crate::calls::{Calls, GateCall, StorageCall, VectorCall};
use crate::conflict::ConflictView;
use crate::engine;
use crate::engine::{AskReplies, EngineState};
use crate::index;
use crate::lists;
use crate::model::{Answer, ErrorView, FilterView, QuestionView, Result};
use crate::moment;
use crate::quarantine;
use crate::recall;
use crate::reflex;
use crate::reflex::{BucketView, ReflexFilterView, ReflexView};
use crate::single::Single;
use crate::text;

verus! {

broadcast use {crate::lists::group_views, crate::calls::group_calls};

/// Every scan of the storage that answering a question makes is of the world of the question
/// and carries the kinds, labels, flags, bounds and limit of its filter; without a filter it
/// carries none. So does every search of the vector index, which asks for ten atoms.
pub proof fn question_filter_reaches_every_component(
    state: EngineState,
    q: QuestionView,
    now: Seq<char>,
    t: AskReplies,
    i: int,
)
    ensures
        ({
            let calls = engine::ask_calls(state, q, now, t);
            &&& 0 <= i < calls.storage.len() ==> (calls.storage[i] matches StorageCall::Scan {
                world,
                filter,
                reply,
            } ==> {
                &&& world == q.world
                &&& filter.world is None || filter.world == Some(q.world) || (q.filter is Some
                    && filter.world == q.filter->0.world)
                &&& q.filter matches Some(f) ==> filter.kinds == f.kinds && filter.labels
                    == f.labels && filter.flags == f.flags && filter.since == f.since
                    && filter.until == f.until && filter.limit == f.limit
                &&& q.filter is None ==> filter.kinds.len() == 0 && filter.labels.len() == 0
                    && filter.flags.len() == 0 && filter.since is None && filter.until is None
                    && filter.limit is None
                &&& reply == t.fallback || reply == t.bounded
            })
            &&& 0 <= i < calls.vector.len() ==> (calls.vector[i] matches VectorCall::Search {
                world,
                query,
                k,
                filter,
                reply,
            } ==> {
                &&& world == q.world
                &&& k == 10
                &&& t.embed is Ok && t.embed->Ok_0 == Some(query)
                &&& q.filter matches Some(f) ==> filter == f
                &&& q.filter is None ==> filter.kinds.len() == 0 && filter.labels.len() == 0
                    && filter.flags.len() == 0 && filter.since is None && filter.until is None
                    && filter.limit is None && filter.world is None
                &&& reply == t.ids
            })
            &&& 0 <= i < calls.storage.len() ==> (calls.storage[i] matches StorageCall::Get {
                ids,
                reply,
            } ==> t.ids == Ok::<Seq<Seq<char>>, ErrorView>(ids) && reply == t.fetched)
            &&& 0 <= i < calls.storage.len() ==> calls.storage[i] is Scan || calls.storage[i] is Get
        }),
{
    let calls = engine::ask_calls(state, q, now, t);
    let entry = index::refreshed(state.index, q.world, t.version, now)[q.world];
    let none = Calls::none();
    let begun = !(t.gate is Err || !ReflexFilterView::of_question(q).applicable());
    let first = engine::recalled_first(state, q, t);
    let found = engine::recalled_by_search(entry, t);
    let version = if begun {
        engine::version_calls(state.index, q.world, t.version, t.rebuild)
    } else {
        none
    };
    let one = if begun { engine::first_calls(state, q, t) } else { none };
    let two = if begun && first is Ok { engine::search_calls(q, entry, t) } else { none };
    let three = if begun && first is Ok && found is Ok && first->Ok_0.len() + found->Ok_0.len()
        == 0 {
        engine::scan_call(q.world, q.filter_or_all(), t.bounded)
    } else {
        none
    };
    assert(calls.storage =~= one.storage + two.storage + three.storage);
    assert(calls.vector =~= version.vector + two.vector);
    assert(one.storage.len() <= 1 && three.storage.len() <= 1);
    assert(two.storage.len() <= 1) by {
        assert(engine::get_call(t.ids->Ok_0, t.fetched).storage.len() == 1);
    }
    assert(two.vector.len() <= 1 && version.vector.len() <= 1);
    if 0 <= i < calls.storage.len() {
        if i < one.storage.len() {
            assert(calls.storage[i] == one.storage[0]);
        } else if i < one.storage.len() + two.storage.len() {
            assert(calls.storage[i] == two.storage[0]);
            assert(two.storage[0] == StorageCall::Get { ids: t.ids->Ok_0, reply: t.fetched });
        } else {
            assert(calls.storage[i] == three.storage[0]);
        }
    }
    if 0 <= i < calls.vector.len() {
        if i < version.vector.len() {
            assert(calls.vector[i] == version.vector[0]);
        } else {
            assert(calls.vector[i] == two.vector[0]);
        }
    }
}

/// A question is shown to the gatekeeper as it is; where it is let through and its start can
/// be read, its words are what the embedder is given, if the index of the world is ready, and
/// nothing is stored, published or deleted.
pub proof fn question_only_reads(
    state: EngineState,
    q: QuestionView,
    now: Seq<char>,
    t: AskReplies,
)
    ensures
        ({
            let calls = engine::ask_calls(state, q, now, t);
            &&& calls.gate == seq![GateCall::Ask { question: q, reply: t.gate }]
            &&& calls.stream.len() == 0
            &&& forall|i: int|
                0 <= i < calls.embed.len() ==> (#[trigger] calls.embed[i]).payload == q.text
            &&& forall|i: int|
                0 <= i < calls.vector.len() ==> (#[trigger] calls.vector[i]) is Search
                    || calls.vector[i] is Rebuild
            &&& t.gate is Err ==> calls == Calls::on_gate(
                GateCall::Ask { question: q, reply: t.gate },
            ) && engine::asked(state, q, now, t) == (
                state,
                Err::<(Seq<AtomView>, Seq<Seq<char>>), ErrorView>(t.gate->Err_0),
            )
        }),
        ({
            let (after, _) = engine::asked(state, q, now, t);
            &&& after.reflex == state.reflex
            &&& after.conflicts == state.conflicts
            &&& after.suspicions == state.suspicions
            &&& after.next_id == state.next_id
            &&& forall|w: Seq<char>| w != q.world ==> #[trigger] after.index.get(w)
                == state.index.get(w)
        }),
{
    let calls = engine::ask_calls(state, q, now, t);
    assert(calls.gate =~= seq![GateCall::Ask { question: q, reply: t.gate }]);
}

/// What the reflex index gives for a question is in the buckets of its world, and meets the
/// kinds, the labels and the start of its filter, in whole seconds, and has none of its flags.
pub proof fn reflex_atom_answers_the_question(index: ReflexView, q: QuestionView, i: int)
    requires
        0 <= i < index.selected(ReflexFilterView::of_question(q)).len(),
    ensures
        ({
            let a = index.selected(ReflexFilterView::of_question(q))[i];
            &&& index.buckets.contains_key(q.world)
            &&& exists|b: int|
                0 <= b < index.buckets[q.world].len() && (
                #[trigger] index.buckets[q.world][b]).atoms.contains(a)
            &&& q.filter matches Some(f) ==> {
                &&& f.kinds.len() == 0 || f.kinds.contains(a.kind)
                &&& forall|k: int|
                    0 <= k < f.labels.len() ==> a.labels.contains(#[trigger] f.labels[k])
                &&& forall|k: int|
                    0 <= k < f.flags.len() ==> !a.flags.contains(#[trigger] f.flags[k])
                &&& f.since is Some ==> moment::moment_of(a.timestamp)->0.secs >= moment::moment_of(
                    f.since->0,
                )->0.secs
            }
        }),
{
    let f = ReflexFilterView::of_question(q);
    gathered_is_sound(index.of_world(q.world), f, i);
}

/// Every atom in the buckets of the world of a question that meets its filter in this way is
/// given.
pub proof fn atom_that_answers_the_question_is_in_the_reflex(
    index: ReflexView,
    q: QuestionView,
    b: int,
    a: AtomView,
)
    requires
        index.buckets.contains_key(q.world),
        0 <= b < index.buckets[q.world].len(),
        index.buckets[q.world][b].atoms.contains(a),
        q.filter matches Some(f) ==> {
            &&& f.kinds.len() == 0 || f.kinds.contains(a.kind)
            &&& forall|k: int|
                0 <= k < f.labels.len() ==> a.labels.contains(#[trigger] f.labels[k])
            &&& forall|k: int|
                0 <= k < f.flags.len() ==> !a.flags.contains(#[trigger] f.flags[k])
            &&& f.since is Some ==> moment::moment_of(a.timestamp)->0.secs >= moment::moment_of(
                f.since->0,
            )->0.secs
        },
    ensures
        index.selected(ReflexFilterView::of_question(q)).contains(a),
{
    let f = ReflexFilterView::of_question(q);
    assert(f.admits(a));
    gathered_is_complete(index.of_world(q.world), f, b, a);
}

proof fn gathered_is_sound(buckets: Seq<BucketView>, f: ReflexFilterView, i: int)
    requires
        0 <= i < reflex::gathered(buckets, f).len(),
    ensures
        f.admits(reflex::gathered(buckets, f)[i]),
        exists|b: int|
            0 <= b < buckets.len() && (#[trigger] buckets[b]).atoms.contains(
                reflex::gathered(buckets, f)[i],
            ),
    decreases buckets.len(),
{
    let rest = buckets.drop_last();
    let before = reflex::gathered(rest, f);
    let p = |a: AtomView| f.admits(a);
    let own = buckets.last().atoms.filter(p);
    let a = reflex::gathered(buckets, f)[i];
    if i < before.len() {
        gathered_is_sound(rest, f, i);
        assert(a == before[i]);
        let b = choose|b: int| 0 <= b < rest.len() && (#[trigger] rest[b]).atoms.contains(before[i]);
        assert(buckets[b] == rest[b]);
    } else {
        let k = i - before.len();
        assert(a == own[k]);
        buckets.last().atoms.lemma_filter_pred(p, k);
        assert(own.contains(a));
        buckets.last().atoms.lemma_filter_contains_rev(p, a);
        assert(buckets[buckets.len() - 1].atoms.contains(a));
    }
}

proof fn gathered_is_complete(buckets: Seq<BucketView>, f: ReflexFilterView, b: int, a: AtomView)
    requires
        0 <= b < buckets.len(),
        buckets[b].atoms.contains(a),
        f.admits(a),
    ensures
        reflex::gathered(buckets, f).contains(a),
    decreases buckets.len(),
{
    let rest = buckets.drop_last();
    let before = reflex::gathered(rest, f);
    let p = |x: AtomView| f.admits(x);
    let own = buckets.last().atoms.filter(p);
    let all = reflex::gathered(buckets, f);
    if b == buckets.len() - 1 {
        let j = choose|j: int| 0 <= j < buckets[b].atoms.len() && buckets[b].atoms[j] == a;
        buckets.last().atoms.lemma_filter_contains(p, j);
        let n = choose|n: int| 0 <= n < own.len() && own[n] == a;
        assert(all[before.len() + n] == a);
    } else {
        assert(rest[b] == buckets[b]);
        gathered_is_complete(rest, f, b, a);
        let n = choose|n: int| 0 <= n < before.len() && before[n] == a;
        assert(all[n] == a);
    }
}

/// Every atom that is recalled was given by the reflex index, by the first scan, by a request
/// of what the search named, or by the last scan. Those of the first two are of no quarantine
/// world, unless the question is about one.
pub proof fn recalled_atom_was_given(
    state: EngineState,
    q: QuestionView,
    now: Seq<char>,
    t: AskReplies,
    i: int,
)
    requires
        engine::asked(state, q, now, t).1 is Ok,
        0 <= i < engine::asked(state, q, now, t).1->Ok_0.0.len(),
    ensures
        ({
            let a = engine::asked(state, q, now, t).1->Ok_0.0[i];
            let reflex = state.reflex.selected(ReflexFilterView::of_question(q));
            let ordinary = text::has_prefix(q.world, "quarantine:"@) || !text::has_prefix(
                a.world,
                "quarantine:"@,
            );
            ||| reflex.contains(a) && ordinary
            ||| reflex.len() == 0 && t.fallback is Ok && t.fallback->Ok_0.contains(a) && ordinary
            ||| t.ids is Ok && t.ids->Ok_0.len() > 0 && t.fetched is Ok && t.fetched->Ok_0.contains(
                a,
            )
            ||| t.bounded is Ok && t.bounded->Ok_0.contains(a)
        }),
{
    let index = index::refreshed(state.index, q.world, t.version, now)[q.world];
    let a = engine::asked(state, q, now, t).1->Ok_0.0[i];
    let reflex = state.reflex.selected(ReflexFilterView::of_question(q));
    let first = engine::recalled_first(state, q, t)->Ok_0;
    let found = engine::recalled_by_search(index, t)->Ok_0;
    let source = if reflex.len() > 0 { reflex } else { t.fallback->Ok_0 };
    let p = |x: AtomView| !quarantine::is_quarantine(x.world);
    if first.len() + found.len() > 0 {
        if i < first.len() {
            assert(first[i] == a);
            if !quarantine::is_quarantine(q.world) {
                source.lemma_filter_pred(p, i);
                assert(source.filter(p).contains(a));
                source.lemma_filter_contains_rev(p, a);
            }
            assert(source.contains(a));
        } else {
            assert(found[i - first.len()] == a);
        }
    } else {
        assert(t.bounded->Ok_0[i] == a);
    }
}

/// Nothing that was given is lost: where a question is answered, every atom of the reflex
/// index and, where that has none, of the first scan is recalled, but for those of quarantine
/// worlds; every atom that was requested is recalled; and where there is nothing else, the
/// first twenty of the last scan are.
pub proof fn given_atom_is_recalled(
    state: EngineState,
    q: QuestionView,
    now: Seq<char>,
    t: AskReplies,
    a: AtomView,
)
    requires
        engine::asked(state, q, now, t).1 is Ok,
    ensures
        ({
            let recalled = engine::asked(state, q, now, t).1->Ok_0.0;
            let reflex = state.reflex.selected(ReflexFilterView::of_question(q));
            let ordinary = text::has_prefix(q.world, "quarantine:"@) || !text::has_prefix(
                a.world,
                "quarantine:"@,
            );
            let ready = index::refreshed(state.index, q.world, t.version, now)[q.world].ready;
            let searched = ready && t.embed is Ok && t.embed->Ok_0 is Some && t.ids is Ok
                && t.ids->Ok_0.len() > 0;
            &&& reflex.contains(a) && ordinary ==> recalled.contains(a)
            &&& reflex.len() == 0 ==> t.fallback is Ok
            &&& reflex.len() == 0 && t.fallback->Ok_0.contains(a) && ordinary ==> recalled.contains(
                a,
            )
            &&& searched ==> t.fetched is Ok
            &&& searched && t.fetched->Ok_0.contains(a) ==> recalled.contains(a)
            &&& reflex.len() == 0 && t.fallback->Ok_0.len() == 0 && !searched ==> {
                let last = t.bounded->Ok_0;
                &&& t.bounded is Ok
                &&& last.len() <= 20 ==> recalled == last
                &&& last.len() > 20 ==> recalled == last.subrange(0, 20)
            }
        }),
{
    let index = index::refreshed(state.index, q.world, t.version, now)[q.world];
    let recalled = engine::asked(state, q, now, t).1->Ok_0.0;
    let reflex = state.reflex.selected(ReflexFilterView::of_question(q));
    let first = engine::recalled_first(state, q, t)->Ok_0;
    let found = engine::recalled_by_search(index, t)->Ok_0;
    let source = if reflex.len() > 0 { reflex } else { t.fallback->Ok_0 };
    let p = |x: AtomView| !quarantine::is_quarantine(x.world);
    let ordinary = quarantine::is_quarantine(q.world) || !quarantine::is_quarantine(a.world);
    if source.contains(a) && ordinary {
        let j = choose|j: int| 0 <= j < source.len() && source[j] == a;
        if !quarantine::is_quarantine(q.world) {
            source.lemma_filter_contains(p, j);
        }
        assert(first.contains(a));
        let k = choose|k: int| 0 <= k < first.len() && first[k] == a;
        assert(recalled[k] == a);
    }
    if reflex.contains(a) {
        assert(reflex.len() > 0);
    }
    if found.contains(a) {
        let k = choose|k: int| 0 <= k < found.len() && found[k] == a;
        assert(recalled[first.len() + k] == a);
    }
    if reflex.len() == 0 && t.fallback->Ok_0.len() == 0 {
        reveal(Seq::filter);
        assert(first.len() == 0);
    }
}

/// A question about a world is answered wherever the components it needs do not fail: the
/// gatekeeper, the scan where the reflex index has nothing, the search and the request, and
/// the last scan. A failure of one of them is the answer.
pub proof fn question_fails_only_with_a_component(
    state: EngineState,
    q: QuestionView,
    now: Seq<char>,
    t: AskReplies,
)
    ensures
        ({
            let r = engine::asked(state, q, now, t).1;
            let timed = q.filter is None || q.filter->0.since is None || moment::moment_of(
                q.filter->0.since->0,
            ) is Some;
            let reflex = state.reflex.selected(ReflexFilterView::of_question(q));
            &&& t.gate is Ok && timed && t.fallback is Ok && t.ids is Ok && t.fetched is Ok
                && t.bounded is Ok ==> r is Ok
            &&& t.gate is Ok && !timed ==> r == Err::<(Seq<AtomView>, Seq<Seq<char>>), ErrorView>(
                moment::timestamp_error(q.filter->0.since->0),
            )
            &&& t.gate is Ok && timed && reflex.len() == 0 && t.fallback is Err ==> r == Err::<
                (Seq<AtomView>, Seq<Seq<char>>),
                ErrorView,
            >(t.fallback->Err_0)
            &&& r is Err ==> t.gate is Err || !timed || t.fallback is Err || t.ids is Err
                || t.fetched is Err || t.bounded is Err
        }),
{
}

/// Where the storage keeps to the filter of each scan, whatever that promises of its atoms,
/// every atom that a scan contributes keeps to the filter of the question.
pub proof fn scanned_atoms_keep_to_the_filter(
    state: EngineState,
    q: QuestionView,
    now: Seq<char>,
    t: AskReplies,
    keeps: spec_fn(FilterView, AtomView) -> bool,
    f: FilterView,
    a: AtomView,
)
    requires
        q.filter == Some(f),
        f.world is None || f.world == Some(q.world),
        forall|g: FilterView, h: FilterView, x: AtomView|
            g.kinds == h.kinds && g.labels == h.labels && g.flags == h.flags && g.since == h.since
                && g.until == h.until && g.limit == h.limit ==> #[trigger] keeps(g, x)
                == #[trigger] keeps(h, x),
        forall|i: int|
            0 <= i < engine::ask_calls(state, q, now, t).storage.len() ==> (
            #[trigger] engine::ask_calls(state, q, now, t).storage[i] matches StorageCall::Scan {
                world,
                filter,
                reply,
            } ==> (reply is Ok && reply->Ok_0.contains(a) ==> keeps(filter, a))),
        engine::asked(state, q, now, t).1 is Ok,
        engine::asked(state, q, now, t).1->Ok_0.0.contains(a),
        !state.reflex.selected(ReflexFilterView::of_question(q)).contains(a),
        t.ids is Err || t.ids->Ok_0.len() == 0 || t.fetched is Err || !t.fetched->Ok_0.contains(a),
    ensures
        keeps(f, a),
{
    let index = index::refreshed(state.index, q.world, t.version, now)[q.world];
    let calls = engine::ask_calls(state, q, now, t);
    let recalled = engine::asked(state, q, now, t).1->Ok_0.0;
    let i = choose|i: int| 0 <= i < recalled.len() && recalled[i] == a;
    let reflex = state.reflex.selected(ReflexFilterView::of_question(q));
    let first = engine::recalled_first(state, q, t)->Ok_0;
    let found = engine::recalled_by_search(index, t)->Ok_0;
    let p = |x: AtomView| !quarantine::is_quarantine(x.world);
    let full = FilterView { world: Some(q.world), ..f };
    if first.len() + found.len() > 0 {
        if i < first.len() {
            assert(first[i] == a);
            let source = if reflex.len() > 0 { reflex } else { t.fallback->Ok_0 };
            if !quarantine::is_quarantine(q.world) {
                assert(source.filter(p).contains(a));
                source.lemma_filter_contains_rev(p, a);
            }
            assert(source.contains(a));
            assert(reflex.len() == 0);
            assert(calls.storage[0] == StorageCall::Scan {
                world: q.world,
                filter: full,
                reply: t.fallback,
            });
            assert(keeps(full, a));
            assert(keeps(full, a) == keeps(f, a));
        } else {
            assert(found[i - first.len()] == a);
            assert(false);
        }
    } else {
        let n = calls.storage.len() - 1;
        assert(t.bounded->Ok_0[i] == a);
        assert(calls.storage[n] == StorageCall::Scan {
            world: q.world,
            filter: f,
            reply: t.bounded,
        });
    }
}

/// An answer is about the world of the question, holds an atom for every id that was recalled
/// and no two with one id, each one of those recalled, the newest first, and carries the
/// warnings.
pub proof fn answer_holds_what_was_recalled<F: Fn(Single, bool, usize, usize) -> Single>(
    score: F,
    conflicts: ConflictView,
    world: Seq<char>,
    atoms: Seq<AtomView>,
    warnings: Seq<Seq<char>>,
    r: Result<Answer>,
    i: int,
    j: int,
    k: int,
)
    requires
        engine::is_answered(
            score,
            conflicts,
            world,
            Ok::<(Seq<AtomView>, Seq<Seq<char>>), ErrorView>((atoms, warnings)),
            r,
        ),
    ensures
        r is Ok,
        ({
            let answer = r->Ok_0@;
            let given = answer.supporting_atoms;
            &&& answer.world == world
            &&& answer.text == "answer-pending"@
            &&& answer.warnings == warnings
            &&& 0 <= i < j < given.len() ==> given[i].id != given[j].id
                && moment::moment_or_epoch(given[i].timestamp).total() >= moment::moment_or_epoch(
                given[j].timestamp,
            ).total()
            &&& 0 <= i < given.len() ==> atoms.contains(given[i])
            &&& 0 <= k < atoms.len() ==> exists|n: int|
                0 <= n < given.len() && (#[trigger] given[n]).id == atoms[k].id
        }),
{
    let candidates = recall::deduplicated(atoms);
    let given = r->Ok_0@.supporting_atoms;
    let (scores, hashes) = choose|scores: Seq<Single>, hashes: Seq<u64>| #[trigger]
        engine::may_score(score, conflicts, candidates, scores, hashes) && recall::is_ranking(
            candidates,
            scores,
            hashes,
            given,
        );
    let keys = recall::ranks(candidates, scores, hashes);
    let order = choose|order: Seq<usize>|
        lists::is_stable_order(keys, order) && given == #[trigger] recall::picked(
            candidates,
            order,
        );
    lists::stable_order_is_injective(keys, order);
    if 0 <= i < j < given.len() {
        let (p, s) = (order[i] as int, order[j] as int);
        assert(p != s);
        if p < s {
            recall::deduplicated_ids_differ(atoms, p, s);
        } else {
            recall::deduplicated_ids_differ(atoms, s, p);
        }
        assert(lists::comes_first(keys, p, s));
    }
    if 0 <= i < given.len() {
        first_of_each_is_one_of_them(atoms, order[i] as int);
    }
    if 0 <= k < atoms.len() {
        recall::deduplicated_keeps_ids(atoms, atoms[k].id);
        assert(recall::has_id(atoms, atoms[k].id));
        let m = choose|m: int|
            0 <= m < candidates.len() && (#[trigger] candidates[m]).id == atoms[k].id;
        lists::position_is_listed(keys, order, m);
        let n = choose|n: int| 0 <= n < order.len() && #[trigger] order[n] == m;
        assert(given[n].id == atoms[k].id);
    }
}

/// Of several atoms with one id the first counts.
pub proof fn first_of_each_is_one_of_them(atoms: Seq<AtomView>, i: int)
    requires
        0 <= i < recall::deduplicated(atoms).len(),
    ensures
        exists|k: int|
            0 <= k < atoms.len() && #[trigger] atoms[k] == recall::deduplicated(atoms)[i]
                && forall|n: int| 0 <= n < k ==> (#[trigger] atoms[n]).id != atoms[k].id,
    decreases atoms.len(),
{
    let rest = atoms.drop_last();
    let before = recall::deduplicated(rest);
    if i < before.len() {
        first_of_each_is_one_of_them(rest, i);
        let k = choose|k: int|
            0 <= k < rest.len() && #[trigger] rest[k] == before[i] && forall|n: int|
                0 <= n < k ==> (#[trigger] rest[n]).id != rest[k].id;
        assert(atoms[k] == rest[k]);
        assert forall|n: int| 0 <= n < k implies (#[trigger] atoms[n]).id != atoms[k].id by {
            assert(rest[n].id != rest[k].id);
        }
    } else {
        let k = atoms.len() - 1;
        recall::deduplicated_keeps_ids(rest, atoms.last().id);
        assert(atoms[k] == recall::deduplicated(atoms)[i]);
        assert forall|n: int| 0 <= n < k implies (#[trigger] atoms[n]).id != atoms[k].id by {
            assert(rest[n] == atoms[n]);
        }
    }
}

/// A candidate is scored by its importance, by whether some atom supersedes it, and by how
/// many atoms contradict and confirm it.
pub proof fn candidate_is_scored_by_its_links(conflicts: ConflictView, a: AtomView)
    requires
        conflicts.contradicts.contains_key(a.id) ==> conflicts.contradicts[a.id].len() <= usize::MAX,
        conflicts.confirms.contains_key(a.id) ==> conflicts.confirms[a.id].len() <= usize::MAX,
    ensures
        ({
            let (importance, superseded, contradicted, confirmed) = engine::scoring_arguments(
                conflicts,
                a,
            );
            &&& importance == a.importance.value()
            &&& superseded == conflicts.supersedes.contains_key(a.id)
            &&& contradicted == if conflicts.contradicts.contains_key(a.id) {
                conflicts.contradicts[a.id].len()
            } else {
                0
            }
            &&& confirmed == if conflicts.confirms.contains_key(a.id) {
                conflicts.confirms[a.id].len()
            } else {
                0
            }
        }),
{
}

/// An answer warns where the index of the world is not ready, and says whether it is being
/// rebuilt; otherwise it does not warn.
pub proof fn answer_warns_of_an_index_that_is_not_ready(
    state: EngineState,
    q: QuestionView,
    now: Seq<char>,
    t: AskReplies,
)
    requires
        engine::asked(state, q, now, t).1 is Ok,
    ensures
        ({
            let warnings = engine::asked(state, q, now, t).1->Ok_0.1;
            let entry = index::refreshed(state.index, q.world, t.version, now)[q.world];
            &&& entry.ready ==> warnings.len() == 0
            &&& !entry.ready ==> warnings.contains("index not ready; used fallback search"@)
            &&& !entry.ready ==> warnings.len() == if entry.rebuilding { 2nat } else { 1nat }
            &&& !entry.ready && entry.rebuilding ==> warnings.contains(
                "index rebuilding in background"@,
            )
        }),
{
    let entry = index::refreshed(state.index, q.world, t.version, now)[q.world];
    let warnings = engine::asked(state, q, now, t).1->Ok_0.1;
    if !entry.ready {
        assert(warnings[0] == "index not ready; used fallback search"@);
        if entry.rebuilding {
            assert(warnings[1] == "index rebuilding in background"@);
        }
    }
}

}
