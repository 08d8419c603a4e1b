//! From candidates to an answer: exclusion of quarantined atoms, removal of repeated ids,
//! and ranking.

use vstd::prelude::*;
use vstd::string::*;

use crate::atom::{Atom, AtomId, AtomView, WorldKey};
use crate::lists;
use crate::lists::{stable_order, SortKey};
use crate::model::Answer;
use crate::moment;
use crate::moment::{parse_or_epoch, Moment};
use crate::quarantine;
use crate::quarantine::is_quarantine_world;
use crate::single::Single;
use crate::text;

verus! {

broadcast use crate::lists::group_views;

/// How many atoms the last resort, a bounded scan of the storage, contributes at most.
pub const BOUNDED_SCAN: usize = 20;

/// How many atoms a vector search is asked for.
pub const SEARCH_SIZE: usize = 10;

/// Trust hints are compared by the remainder of the hash by this.
pub const TRUST_STEPS: u64 = 10_000;

/// What a candidate is ranked by.
#[derive(Clone, Copy, Debug)]
pub struct Rank {
    pub score: Single,
    pub at: Moment,
    pub importance: Single,
    pub trust: u64,
}

impl Rank {
    /// Whether a candidate comes strictly before another: it has the later timestamp; among
    /// those of one moment, the higher score; then the higher importance; then the higher
    /// trust hint.
    pub open spec fn outranks(self, other: Rank) -> bool {
        if self.at.total() != other.at.total() {
            self.at.total() > other.at.total()
        } else if self.score.key() != other.score.key() {
            self.score.key() > other.score.key()
        } else if self.importance.key() != other.importance.key() {
            self.importance.key() > other.importance.key()
        } else {
            self.trust > other.trust
        }
    }
}

impl SortKey for Rank {
    open spec fn precedes(&self, other: &Self) -> bool {
        self.outranks(*other)
    }

    proof fn precedes_irreflexive(a: &Self) {
    }

    proof fn precedes_transitive(a: &Self, b: &Self, c: &Self) {
    }

    proof fn apart_transitive(a: &Self, b: &Self, c: &Self) {
    }

    fn comes_before(&self, other: &Self) -> (r: bool) {
        let (a, b): (i128, i128) = (self.at.nanos_since_epoch(), other.at.nanos_since_epoch());
        if a != b {
            return a > b;
        }
        let (a, b): (i64, i64) = (self.score.order_key(), other.score.order_key());
        if a != b {
            return a > b;
        }
        let (a, b): (i64, i64) = (self.importance.order_key(), other.importance.order_key());
        if a != b {
            return a > b;
        }
        self.trust > other.trust
    }
}

/// What the candidates are ranked by, given their scores and the hashes of their workers.
pub open spec fn ranks(
    atoms: Seq<AtomView>,
    scores: Seq<Single>,
    hashes: Seq<u64>,
) -> Seq<Rank> {
    Seq::new(
        atoms.len(),
        |i: int|
            Rank {
                score: scores[i],
                at: moment::moment_or_epoch(atoms[i].timestamp),
                importance: atoms[i].importance.value(),
                trust: hashes[i] % TRUST_STEPS,
            },
    )
}

/// The items at the listed positions.
pub open spec fn picked<T>(items: Seq<T>, order: Seq<usize>) -> Seq<T> {
    Seq::new(order.len(), |i: int| items[order[i] as int])
}

/// `ranked` holds the atoms in the order of their ranks, equal ones in the order they had.
pub open spec fn is_ranking(
    atoms: Seq<AtomView>,
    scores: Seq<Single>,
    hashes: Seq<u64>,
    ranked: Seq<AtomView>,
) -> bool {
    exists|order: Seq<usize>|
        lists::is_stable_order(ranks(atoms, scores, hashes), order) && ranked
            == #[trigger] picked(atoms, order)
}

/// Puts candidates in the order of their ranks.
pub fn rank_candidates(
    candidates: &Vec<Atom>,
    scores: &Vec<Single>,
    hashes: &Vec<u64>,
) -> (r: Vec<Atom>)
    requires
        scores@.len() == candidates@.len(),
        hashes@.len() == candidates@.len(),
    ensures
        is_ranking(lists::views(candidates@), scores@, hashes@, lists::views(r@)),
{
    let ghost models = lists::views(candidates@);
    let mut keys: Vec<Rank> = Vec::new();
    for i in 0..candidates.len()
        invariant
            models == lists::views(candidates@),
            scores@.len() == candidates@.len(),
            hashes@.len() == candidates@.len(),
            keys@ == ranks(models, scores@, hashes@).subrange(0, i as int),
    {
        let atom = &candidates[i];
        keys.push(
            Rank {
                score: scores[i],
                at: parse_or_epoch(atom.timestamp()),
                importance: atom.importance().get(),
                trust: hashes[i] % TRUST_STEPS,
            },
        );
        assert(keys@ =~= ranks(models, scores@, hashes@).subrange(0, i + 1));
    }
    assert(keys@ =~= ranks(models, scores@, hashes@));
    let order = stable_order(&keys);
    let mut out: Vec<Atom> = Vec::new();
    for k in 0..order.len()
        invariant
            models == lists::views(candidates@),
            forall|i: int| 0 <= i < order@.len() ==> 0 <= (#[trigger] order@[i]) < models.len(),
            lists::views(out@) == picked(models, order@).subrange(0, k as int),
    {
        out.push(candidates[order[k]].clone());
        assert(lists::views(out@) =~= picked(models, order@).subrange(0, k + 1));
    }
    assert(lists::views(out@) =~= picked(models, order@));
    out
}

/// Whether one of the atoms has the id.
pub open spec fn has_id(atoms: Seq<AtomView>, id: Seq<char>) -> bool {
    exists|i: int| 0 <= i < atoms.len() && (#[trigger] atoms[i]).id == id
}

/// The first atom of each id.
pub open spec fn deduplicated(atoms: Seq<AtomView>) -> Seq<AtomView>
    decreases atoms.len(),
{
    if atoms.len() == 0 {
        Seq::empty()
    } else {
        let before = deduplicated(atoms.drop_last());
        if has_id(before, atoms.last().id) {
            before
        } else {
            before.push(atoms.last())
        }
    }
}

/// Whether one of the atoms has the id.
pub fn contains_id(atoms: &Vec<Atom>, id: &AtomId) -> (r: bool)
    ensures
        r == has_id(lists::views(atoms@), id@),
{
    let ghost models = lists::views(atoms@);
    for i in 0..atoms.len()
        invariant
            models == lists::views(atoms@),
            forall|j: int| 0 <= j < i ==> (#[trigger] models[j]).id != id@,
    {
        assert(models[i as int] == atoms@[i as int]@);
        if text::same(atoms[i].id().text(), id.text()) {
            return true;
        }
    }
    false
}

/// Keeps the first atom of each id.
pub fn deduplicate(atoms: Vec<Atom>) -> (r: Vec<Atom>)
    ensures
        lists::views(r@) == deduplicated(lists::views(atoms@)),
{
    let ghost models = lists::views(atoms@);
    let mut out: Vec<Atom> = Vec::new();
    for i in 0..atoms.len()
        invariant
            models == lists::views(atoms@),
            lists::views(out@) == deduplicated(models.subrange(0, i as int)),
    {
        proof {
            let upto = models.subrange(0, i + 1);
            assert(upto.drop_last() == models.subrange(0, i as int));
            assert(upto.last() == atoms@[i as int]@);
        }
        if !contains_id(&out, atoms[i].id()) {
            out.push(atoms[i].clone());
        }
    }
    assert(models.subrange(0, models.len() as int) == models);
    out
}

/// The candidates without those of quarantine worlds, unless the question is about one.
pub open spec fn allowed(world: Seq<char>, candidates: Seq<AtomView>) -> Seq<AtomView> {
    if quarantine::is_quarantine(world) {
        candidates
    } else {
        candidates.filter(|a: AtomView| !quarantine::is_quarantine(a.world))
    }
}

/// Leaves out the candidates of quarantine worlds, unless the question is about one.
pub fn exclude_quarantine(world: &WorldKey, candidates: Vec<Atom>) -> (r: Vec<Atom>)
    ensures
        lists::views(r@) == allowed(world@, lists::views(candidates@)),
{
    if is_quarantine_world(world) {
        return candidates;
    }
    let ghost models = lists::views(candidates@);
    let ghost p = |a: AtomView| !quarantine::is_quarantine(a.world);
    let mut out: Vec<Atom> = Vec::new();
    for i in 0..candidates.len()
        invariant
            models == lists::views(candidates@),
            p == |a: AtomView| !quarantine::is_quarantine(a.world),
            lists::views(out@) == models.subrange(0, i as int).filter(p),
    {
        proof {
            assert(models.subrange(0, i + 1) == models.subrange(0, i as int).push(
                candidates@[i as int]@,
            ));
            models.subrange(0, i as int).lemma_filter_push(candidates@[i as int]@, p);
        }
        if !is_quarantine_world(candidates[i].world()) {
            out.push(candidates[i].clone());
        }
    }
    assert(models.subrange(0, models.len() as int) == models);
    out
}

/// The first `n` items, or all of them.
pub open spec fn at_most<T>(items: Seq<T>, n: int) -> Seq<T> {
    if items.len() <= n {
        items
    } else {
        items.subrange(0, n)
    }
}

/// Cuts a list of atoms to its first `n`.
pub fn truncate_atoms(atoms: Vec<Atom>, n: usize) -> (r: Vec<Atom>)
    ensures
        lists::views(r@) == at_most(lists::views(atoms@), n as int),
{
    let mut list = atoms;
    let ghost before = list@;
    if list.len() > n {
        list.truncate(n);
        assert(list@ == before.subrange(0, n as int));
    }
    list
}

/// The text of an answer that is only backed by atoms.
pub open spec fn pending_text() -> Seq<char> {
    "answer-pending"@
}

/// Answers a question about a world with distinct candidates, given their scores and the
/// hashes of their workers.
pub fn compose_answer(
    world: WorldKey,
    candidates: &Vec<Atom>,
    warnings: Vec<String>,
    scores: &Vec<Single>,
    hashes: &Vec<u64>,
) -> (r: Answer)
    requires
        scores@.len() == candidates@.len(),
        hashes@.len() == candidates@.len(),
    ensures
        r@.world == world@,
        r@.text == pending_text(),
        r@.warnings == lists::views(warnings@),
        is_ranking(lists::views(candidates@), scores@, hashes@, r@.supporting_atoms),
{
    let ranked = rank_candidates(candidates, scores, hashes);
    Answer { world, text: "answer-pending".to_owned(), supporting_atoms: ranked, warnings }
}

/// No two of the deduplicated atoms have the same id.
pub proof fn deduplicated_ids_differ(atoms: Seq<AtomView>, i: int, j: int)
    requires
        0 <= i < j < deduplicated(atoms).len(),
    ensures
        deduplicated(atoms)[i].id != deduplicated(atoms)[j].id,
    decreases atoms.len(),
{
    let before = deduplicated(atoms.drop_last());
    if j < before.len() {
        deduplicated_ids_differ(atoms.drop_last(), i, j);
    } else {
        assert(deduplicated(atoms)[i] == before[i]);
    }
}

/// Every id among the atoms is still there once they are deduplicated, and nothing new is.
pub proof fn deduplicated_keeps_ids(atoms: Seq<AtomView>, id: Seq<char>)
    ensures
        has_id(atoms, id) == has_id(deduplicated(atoms), id),
    decreases atoms.len(),
{
    if atoms.len() > 0 {
        let rest = atoms.drop_last();
        let before = deduplicated(rest);
        let after = deduplicated(atoms);
        deduplicated_keeps_ids(rest, id);
        assert(has_id(atoms, id) == (has_id(rest, id) || atoms.last().id == id)) by {
            if has_id(rest, id) {
                let i = choose|i: int| 0 <= i < rest.len() && (#[trigger] rest[i]).id == id;
                assert(atoms[i].id == id);
            }
            if atoms.last().id == id {
                assert(atoms[atoms.len() - 1].id == id);
            }
            if has_id(atoms, id) {
                let i = choose|i: int| 0 <= i < atoms.len() && (#[trigger] atoms[i]).id == id;
                if i < rest.len() {
                    assert(rest[i].id == id);
                }
            }
        }
        if !has_id(before, atoms.last().id) {
            assert(has_id(after, id) == (has_id(before, id) || atoms.last().id == id)) by {
                if has_id(before, id) {
                    let i = choose|i: int| 0 <= i < before.len() && (#[trigger] before[i]).id == id;
                    assert(after[i].id == id);
                }
                if atoms.last().id == id {
                    assert(after[before.len() as int].id == id);
                }
                if has_id(after, id) {
                    let i = choose|i: int| 0 <= i < after.len() && (#[trigger] after[i]).id == id;
                    if i < before.len() {
                        assert(before[i].id == id);
                    }
                }
            }
        }
    }
}

/// A ranking holds the same atoms, each as often.
pub proof fn ranking_is_a_permutation(
    atoms: Seq<AtomView>,
    scores: Seq<Single>,
    hashes: Seq<u64>,
    ranked: Seq<AtomView>,
    i: int,
)
    requires
        is_ranking(atoms, scores, hashes, ranked),
        0 <= i < atoms.len(),
    ensures
        ranked.len() == atoms.len(),
        ranked.contains(atoms[i]),
        atoms.contains(ranked[i]),
{
    let order = choose|order: Seq<usize>|
        lists::is_stable_order(ranks(atoms, scores, hashes), order) && ranked == #[trigger] picked(
            atoms,
            order,
        );
    let keys = ranks(atoms, scores, hashes);
    lists::position_is_listed(keys, order, i);
    let k = choose|k: int| 0 <= k < order.len() && #[trigger] order[k] == i;
    assert(ranked[k] == atoms[i]);
    assert(ranked[i] == atoms[order[i] as int]);
}

/// Whatever the scores, the answer puts the newer of two atoms first.
pub proof fn newer_comes_first(
    atoms: Seq<AtomView>,
    scores: Seq<Single>,
    hashes: Seq<u64>,
    order: Seq<usize>,
    i: int,
    j: int,
)
    requires
        lists::is_stable_order(ranks(atoms, scores, hashes), order),
        0 <= i < j < order.len(),
    ensures
        ({
            let ranked = picked(atoms, order);
            moment::moment_or_epoch(ranked[i].timestamp).total() >= moment::moment_or_epoch(
                ranked[j].timestamp,
            ).total()
        }),
{
    let keys = ranks(atoms, scores, hashes);
    assert(lists::comes_first(keys, order[i] as int, order[j] as int));
}

/// Of two atoms from the same moment the one with the higher score comes first, and with
/// equal scores the more important.
pub proof fn equal_times_rank_by_score(
    atoms: Seq<AtomView>,
    scores: Seq<Single>,
    hashes: Seq<u64>,
    order: Seq<usize>,
    i: int,
    j: int,
)
    requires
        lists::is_stable_order(ranks(atoms, scores, hashes), order),
        0 <= i < j < order.len(),
        ({
            let ranked = picked(atoms, order);
            moment::moment_or_epoch(ranked[i].timestamp).total() == moment::moment_or_epoch(
                ranked[j].timestamp,
            ).total()
        }),
    ensures
        scores[order[i] as int].key() >= scores[order[j] as int].key(),
        scores[order[i] as int].key() == scores[order[j] as int].key() ==> ({
            let ranked = picked(atoms, order);
            ranked[i].importance.value().key() >= ranked[j].importance.value().key()
        }),
{
    let keys = ranks(atoms, scores, hashes);
    assert(lists::comes_first(keys, order[i] as int, order[j] as int));
}

/// A question about an ordinary world recalls no quarantined atom from the reflex index or
/// the first scan.
pub proof fn quarantined_atoms_are_not_allowed(
    world: Seq<char>,
    candidates: Seq<AtomView>,
    i: int,
)
    requires
        !quarantine::is_quarantine(world),
        0 <= i < allowed(world, candidates).len(),
    ensures
        !quarantine::is_quarantine(allowed(world, candidates)[i].world),
{
    candidates.lemma_filter_pred(|a: AtomView| !quarantine::is_quarantine(a.world), i);
}

}
