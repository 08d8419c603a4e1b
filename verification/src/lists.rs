//! Lists of viewable items: models of vectors, membership tests, duplication and stable
//! ordering.

use vstd::prelude::*;

use crate::text;

verus! {

/// The models of a sequence of items.
pub open spec fn views<T: View>(s: Seq<T>) -> Seq<T::V> {
    Seq::new(s.len(), |i: int| s[i].view())
}

pub broadcast proof fn views_push<T: View>(s: Seq<T>, x: T)
    ensures
        #[trigger] views(s.push(x)) == views(s).push(x.view()),
{
    assert(views(s.push(x)) =~= views(s).push(x.view()));
}

pub broadcast proof fn views_add<T: View>(s: Seq<T>, t: Seq<T>)
    ensures
        #[trigger] views(s + t) == views(s) + views(t),
{
    assert(views(s + t) =~= views(s) + views(t));
}

pub broadcast proof fn views_subrange<T: View>(s: Seq<T>, i: int, j: int)
    requires
        0 <= i <= j <= s.len(),
    ensures
        #[trigger] views(s.subrange(i, j)) == views(s).subrange(i, j),
{
    assert(views(s.subrange(i, j)) =~= views(s).subrange(i, j));
}

pub broadcast proof fn views_empty<T: View>()
    ensures
        #[trigger] views(Seq::<T>::empty()) == Seq::<T::V>::empty(),
{
    assert(views(Seq::<T>::empty()) =~= Seq::<T::V>::empty());
}

pub broadcast group group_views {
    views_push,
    views_add,
    views_subrange,
    views_empty,
}

/// The model of an optional item.
pub open spec fn opt_view<T: View>(o: Option<T>) -> Option<T::V> {
    match o {
        Some(x) => Some(x.view()),
        None => None,
    }
}

/// An item of which a second copy with the same model can be made.
pub trait Duplicate: View + Sized {
    /// A copy with the same model.
    fn duplicate(&self) -> (r: Self)
        ensures
            r.view() == self.view(),
    ;
}

impl Duplicate for String {
    fn duplicate(&self) -> (r: Self) {
        self.clone()
    }
}

/// Copies of all the items of a slice.
pub fn duplicate_all<T: Duplicate>(v: &[T]) -> (r: Vec<T>)
    ensures
        views(r@) == views(v@),
{
    let mut out: Vec<T> = Vec::new();
    for i in 0..v.len()
        invariant
            out@.len() == i,
            forall|j: int| 0 <= j < i ==> #[trigger] out@[j].view() == v@[j].view(),
    {
        out.push(v[i].duplicate());
    }
    assert(views(out@) =~= views(v@));
    out
}

/// A copy of an optional item.
pub fn duplicate_opt<T: Duplicate>(o: &Option<T>) -> (r: Option<T>)
    ensures
        opt_view(r) == opt_view(*o),
{
    match o {
        Some(x) => Some(x.duplicate()),
        None => None,
    }
}

/// Whether a text is among the given strings.
pub fn has_text(v: &[String], s: &str) -> (r: bool)
    ensures
        r == views(v@).contains(s@),
{
    for i in 0..v.len()
        invariant
            forall|j: int| 0 <= j < i ==> #[trigger] v@[j]@ != s@,
    {
        if text::same(v[i].as_str(), s) {
            assert(views(v@)[i as int] == s@);
            return true;
        }
    }
    assert forall|j: int| 0 <= j < views(v@).len() implies views(v@)[j] != s@ by {
        assert(v@[j]@ != s@);
    }
    false
}

/// All of `wanted` are in `have`.
pub open spec fn contains_all<T>(have: Seq<T>, wanted: Seq<T>) -> bool {
    forall|i: int| 0 <= i < wanted.len() ==> have.contains(#[trigger] wanted[i])
}

/// Some of `unwanted` is in `have`.
pub open spec fn contains_any<T>(have: Seq<T>, unwanted: Seq<T>) -> bool {
    exists|i: int| 0 <= i < unwanted.len() && have.contains(#[trigger] unwanted[i])
}

/// Whether all of the wanted strings are among the given ones.
pub fn has_all_texts(v: &[String], wanted: &[String]) -> (r: bool)
    ensures
        r == contains_all(views(v@), views(wanted@)),
{
    for i in 0..wanted.len()
        invariant
            forall|j: int| 0 <= j < i ==> views(v@).contains(#[trigger] views(wanted@)[j]),
    {
        if !has_text(v, wanted[i].as_str()) {
            assert(!views(v@).contains(views(wanted@)[i as int]));
            return false;
        }
    }
    true
}

/// Whether any of the unwanted strings is among the given ones.
pub fn has_any_text(v: &[String], unwanted: &[String]) -> (r: bool)
    ensures
        r == contains_any(views(v@), views(unwanted@)),
{
    for i in 0..unwanted.len()
        invariant
            forall|j: int| 0 <= j < i ==> !views(v@).contains(#[trigger] views(unwanted@)[j]),
    {
        if has_text(v, unwanted[i].as_str()) {
            assert(views(v@).contains(views(unwanted@)[i as int]));
            return true;
        }
    }
    false
}

/// A key by which items are put in order: `precedes` is a strict weak order.
pub trait SortKey: Sized {
    /// Whether an item with this key comes strictly before one with the other key.
    spec fn precedes(&self, other: &Self) -> bool;

    proof fn precedes_irreflexive(a: &Self)
        ensures
            !a.precedes(a),
    ;

    proof fn precedes_transitive(a: &Self, b: &Self, c: &Self)
        requires
            a.precedes(b),
            b.precedes(c),
        ensures
            a.precedes(c),
    ;

    /// Two keys that are not apart from a third are not apart from each other.
    proof fn apart_transitive(a: &Self, b: &Self, c: &Self)
        requires
            !a.precedes(b),
            !b.precedes(c),
        ensures
            !a.precedes(c),
    ;

    fn comes_before(&self, other: &Self) -> (r: bool)
        ensures
            r == self.precedes(other),
    ;
}

/// `order` lists the positions of `keys`, each once, smallest key first, and positions
/// with keys that are not apart in the order they had.
pub open spec fn is_stable_order<K: SortKey>(keys: Seq<K>, order: Seq<usize>) -> bool {
    &&& order.len() == keys.len()
    &&& forall|i: int| 0 <= i < order.len() ==> 0 <= (#[trigger] order[i]) < keys.len()
    &&& forall|i: int, j: int|
        0 <= i < j < order.len() ==> comes_first(
            keys,
            #[trigger] order[i] as int,
            #[trigger] order[j] as int,
        )
}

/// Position `p` is listed before position `q`.
pub open spec fn comes_first<K: SortKey>(keys: Seq<K>, p: int, q: int) -> bool {
    ||| keys[p].precedes(&keys[q])
    ||| !keys[q].precedes(&keys[p]) && p < q
}

/// The positions of `keys` in stable order.
pub fn stable_order<K: SortKey>(keys: &Vec<K>) -> (order: Vec<usize>)
    ensures
        is_stable_order(keys@, order@),
{
    let mut order: Vec<usize> = Vec::new();
    for n in 0..keys.len()
        invariant
            order@.len() == n,
            forall|i: int| 0 <= i < n ==> 0 <= (#[trigger] order@[i]) < n,
            forall|i: int, j: int|
                0 <= i < j < n ==> comes_first(
                    keys@,
                    #[trigger] order@[i] as int,
                    #[trigger] order@[j] as int,
                ),
    {
        // The new position goes behind every listed one whose key is not after its own.
        let mut at: usize = n;
        let ghost listed = order@;
        while at > 0 && keys[n].comes_before(&keys[order[at - 1]])
            invariant
                at <= n < keys@.len(),
                order@ == listed,
                listed.len() == n,
                forall|i: int| 0 <= i < n ==> 0 <= (#[trigger] listed[i]) < n,
                forall|i: int| at <= i < n ==> keys@[n as int].precedes(
                    &keys@[#[trigger] listed[i] as int],
                ),
            decreases at,
        {
            at = at - 1;
        }
        proof {
            assert forall|i: int| 0 <= i < at implies comes_first(
                keys@,
                #[trigger] listed[i] as int,
                n as int,
            ) by {
                let last = listed[at - 1] as int;
                let here = listed[i] as int;
                assert(!keys@[n as int].precedes(&keys@[last]));
                if i < at - 1 {
                    assert(comes_first(keys@, here, last));
                    if keys@[here].precedes(&keys@[last]) {
                        if keys@[last].precedes(&keys@[here]) {
                            K::precedes_transitive(&keys@[last], &keys@[here], &keys@[last]);
                            K::precedes_irreflexive(&keys@[last]);
                        }
                    }
                    K::apart_transitive(&keys@[n as int], &keys@[last], &keys@[here]);
                }
            }
        }
        order.insert(at, n);
        assert forall|i: int, j: int| 0 <= i < j < n + 1 implies comes_first(
            keys@,
            #[trigger] order@[i] as int,
            #[trigger] order@[j] as int,
        ) by {
            if j < at {
                assert(order@[i] == listed[i] && order@[j] == listed[j]);
            } else if j == at {
                assert(order@[i] == listed[i]);
            } else if i < at {
                assert(order@[i] == listed[i] && order@[j] == listed[j - 1]);
            } else if i == at {
                assert(order@[j] == listed[j - 1]);
            } else {
                assert(order@[i] == listed[i - 1] && order@[j] == listed[j - 1]);
            }
        }
    }
    order
}

/// A stable order lists no position twice.
pub proof fn stable_order_is_injective<K: SortKey>(keys: Seq<K>, order: Seq<usize>)
    requires
        is_stable_order(keys, order),
    ensures
        order.no_duplicates(),
{
    assert forall|i: int, j: int|
        0 <= i < order.len() && 0 <= j < order.len() && i != j implies order[i] != order[j] by {
        if order[i] == order[j] {
            let p = order[i] as int;
            K::precedes_irreflexive(&keys[p]);
            if i < j {
                assert(comes_first(keys, order[i] as int, order[j] as int));
            } else {
                assert(comes_first(keys, order[j] as int, order[i] as int));
            }
        }
    }
}

/// A stable order is the only one for its keys.
pub proof fn stable_order_is_unique<K: SortKey>(keys: Seq<K>, a: Seq<usize>, b: Seq<usize>)
    requires
        is_stable_order(keys, a),
        is_stable_order(keys, b),
    ensures
        a == b,
{
    stable_order_is_injective(keys, a);
    stable_order_is_injective(keys, b);
    if a != b {
        let differs = |i: int| 0 <= i < a.len() && a[i] != b[i];
        assert(exists|i: int| #[trigger] differs(i)) by {
            if forall|i: int| 0 <= i < a.len() ==> a[i] == b[i] {
                assert(a =~= b);
            }
            let i = choose|i: int| 0 <= i < a.len() && a[i] != b[i];
            assert(differs(i));
        }
        let w = choose|i: int| #[trigger] differs(i);
        let k = first_difference(a, b, w);
        // b[k] stands later in a, and a[k] later in b: each comes first of the other.
        let p = a[k] as int;
        let q = b[k] as int;
        position_is_listed(keys, a, q);
        position_is_listed(keys, b, p);
        let i = choose|i: int| 0 <= i < a.len() && a[i] == q;
        let j = choose|j: int| 0 <= j < b.len() && b[j] == p;
        assert(i > k) by {
            if i < k {
                assert(b[i] == a[i]);
            }
        }
        assert(j > k) by {
            if j < k {
                assert(a[j] == b[j]);
            }
        }
        assert(comes_first(keys, a[k] as int, a[i] as int));
        assert(comes_first(keys, b[k] as int, b[j] as int));
        if keys[p].precedes(&keys[q]) && keys[q].precedes(&keys[p]) {
            K::precedes_transitive(&keys[p], &keys[q], &keys[p]);
            K::precedes_irreflexive(&keys[p]);
        }
    }
}

proof fn first_difference(a: Seq<usize>, b: Seq<usize>, w: int) -> (k: int)
    requires
        a.len() == b.len(),
        0 <= w < a.len(),
        a[w] != b[w],
    ensures
        0 <= k < a.len(),
        a[k] != b[k],
        forall|i: int| 0 <= i < k ==> a[i] == b[i],
    decreases w,
{
    if exists|v: int| 0 <= v < w && a[v] != b[v] {
        let v = choose|v: int| 0 <= v < w && a[v] != b[v];
        first_difference(a, b, v)
    } else {
        w
    }
}

/// A stable order lists every position.
pub proof fn position_is_listed<K: SortKey>(keys: Seq<K>, order: Seq<usize>, p: int)
    requires
        is_stable_order(keys, order),
        0 <= p < keys.len(),
    ensures
        exists|i: int| 0 <= i < order.len() && #[trigger] order[i] == p,
{
    stable_order_is_injective(keys, order);
    all_below_listed(order, keys.len(), p);
}

/// `n` distinct numbers below `n` are all the numbers below `n`.
proof fn all_below_listed(s: Seq<usize>, n: nat, p: int)
    requires
        s.len() == n,
        s.no_duplicates(),
        forall|i: int| 0 <= i < s.len() ==> (#[trigger] s[i]) < n,
        0 <= p < n,
    ensures
        exists|i: int| 0 <= i < s.len() && s[i] == p,
{
    let ints = Seq::new(s.len(), |i: int| s[i] as int);
    assert(ints.no_duplicates()) by {
        assert forall|i: int, j: int|
            0 <= i < ints.len() && 0 <= j < ints.len() && i != j implies ints[i] != ints[j] by {
            assert(s[i] != s[j]);
        }
    }
    ints.unique_seq_to_set();
    let all = vstd::set_lib::set_int_range(0, n as int);
    vstd::set_lib::lemma_int_range(0, n as int);
    assert(ints.to_set().subset_of(all)) by {
        assert forall|x: int| ints.to_set().contains(x) implies all.contains(x) by {
            let i = choose|i: int| 0 <= i < ints.len() && ints[i] == x;
            assert(s[i] < n);
        }
    }
    vstd::set_lib::lemma_subset_equality(ints.to_set(), all);
    assert(all.contains(p));
    assert(ints.contains(p));
    let i = choose|i: int| 0 <= i < ints.len() && ints[i] == p;
    assert(s[i] == p);
}

/// The texts in dictionary order.
pub open spec fn is_sorted(texts: Seq<Seq<char>>) -> bool {
    forall|i: int, j: int|
        0 <= i < j < texts.len() ==> !text::before(#[trigger] texts[j], #[trigger] texts[i])
}

/// Puts texts in dictionary order.
pub fn sort_texts(texts: &Vec<String>) -> (r: Vec<String>)
    ensures
        is_sorted(views(r@)),
        views(r@).to_multiset() == views(texts@).to_multiset(),
{
    let mut sorted: Vec<String> = Vec::new();
    assert(views(sorted@) =~= views(texts@).subrange(0, 0));
    for n in 0..texts.len()
        invariant
            sorted@.len() == n,
            is_sorted(views(sorted@)),
            views(sorted@).to_multiset() == views(texts@).subrange(
                0,
                n as int,
            ).to_multiset(),
    {
        let item = texts[n].clone();
        let ghost name = item@;
        let ghost names = views(sorted@);
        let mut at: usize = n;
        while at > 0 && text::is_before(item.as_str(), sorted[at - 1].as_str())
            invariant
                at <= n,
                sorted@.len() == n,
                name == item@,
                names == views(sorted@),
                forall|i: int| at <= i < n ==> text::before(name, #[trigger] names[i]),
            decreases at,
        {
            assert(names[at - 1] == sorted@[at - 1]@);
            at = at - 1;
        }
        proof {
            if at > 0 {
                assert(names[at - 1] == sorted@[at - 1]@);
            }
            assert forall|i: int| 0 <= i < at implies !text::before(name, #[trigger] names[i]) by {
                if i < at - 1 && text::before(name, names[i]) {
                    assert(!text::before(names[at - 1], names[i]));
                    if names[i] != names[at - 1] {
                        text::before_total(names[i], names[at - 1]);
                        text::before_transitive(name, names[i], names[at - 1]);
                    }
                }
            }
        }
        sorted.insert(at, item);
        proof {
            let after = views(sorted@);
            assert(after =~= names.insert(at as int, name));
            assert forall|i: int, j: int| 0 <= i < j < after.len() implies !text::before(
                #[trigger] after[j],
                #[trigger] after[i],
            ) by {
                if i == at {
                    if text::before(after[j], name) {
                        text::before_transitive(name, after[j], name);
                        text::before_irreflexive(name);
                    }
                } else if j != at {
                    let x = if i < at { i } else { i - 1 };
                    let y = if j < at { j } else { j - 1 };
                    assert(!text::before(names[y], names[x]));
                }
            }
            vstd::seq_lib::to_multiset_insert(names, at as int, name);
            let all = views(texts@);
            assert(all.subrange(0, n + 1) =~= all.subrange(0, n as int).push(name));
            vstd::seq_lib::to_multiset_build(all.subrange(0, n as int), name);
        }
    }
    assert(views(texts@).subrange(0, texts@.len() as int) =~= views(texts@));
    sorted
}

}
