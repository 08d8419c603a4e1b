//! In-memory reflex index for recent/high-importance atoms.
//!
//! Atoms are grouped by world and, within a world, in buckets of equal width in time. An
//! atom that comes in drops the buckets of its world that lie before the window behind it.

use vstd::prelude::*;
use vstd::string::*;

use crate::atom::{Atom, AtomKind, AtomView, Timestamp, WorkerKey, WorldKey};
use crate::lists;
use crate::lists::{duplicate_all, duplicate_opt};
use crate::model;
use crate::model::{duplicate_kinds, has_kind, Question, QuestionView, Result};
use crate::moment;
use crate::moment::parse_ts;
use crate::single::Single;
use crate::table::Table;
use crate::text;

verus! {

broadcast use crate::lists::group_views;

/// How long the reflex index keeps atoms, and how finely.
#[derive(Clone, Copy, Debug, PartialEq, Eq, Structural)]
pub struct ReflexIndexConfig {
    /// Total recency window to retain (seconds).
    pub recency_seconds: u64,
    /// Width of each bucket in seconds.
    pub bucket_width_seconds: u64,
}

impl Default for ReflexIndexConfig {
    fn default() -> (r: Self)
        ensures
            r.recency_seconds == 300,
            r.bucket_width_seconds == 1,
    {
        ReflexIndexConfig { recency_seconds: 300, bucket_width_seconds: 1 }
    }
}

/// Criteria for atoms of the reflex index.
#[derive(Debug)]
pub struct ReflexFilter {
    pub world: Option<WorldKey>,
    pub kinds: Vec<AtomKind>,
    pub labels: Vec<String>,
    pub author: Option<WorkerKey>,
    pub min_importance: Option<Single>,
    pub since: Option<Timestamp>,
    pub exclude_flags: Vec<String>,
}

/// Model of the criteria.
#[verifier::ext_equal]
pub ghost struct ReflexFilterView {
    pub world: Option<Seq<char>>,
    pub kinds: Seq<AtomKind>,
    pub labels: Seq<Seq<char>>,
    pub author: Option<Seq<char>>,
    pub min_importance: Option<Single>,
    pub since: Option<Seq<char>>,
    pub exclude_flags: Seq<Seq<char>>,
}

impl View for ReflexFilter {
    type V = ReflexFilterView;

    open spec fn view(&self) -> ReflexFilterView {
        ReflexFilterView {
            world: lists::opt_view(self.world),
            kinds: self.kinds@,
            labels: lists::views(self.labels@),
            author: lists::opt_view(self.author),
            min_importance: self.min_importance,
            since: lists::opt_view(self.since),
            exclude_flags: lists::views(self.exclude_flags@),
        }
    }
}

impl ReflexFilterView {
    /// Criteria that every atom meets.
    pub open spec fn all() -> ReflexFilterView {
        ReflexFilterView {
            world: None,
            kinds: Seq::empty(),
            labels: Seq::empty(),
            author: None,
            min_importance: None,
            since: None,
            exclude_flags: Seq::empty(),
        }
    }

    /// The criteria of a question: its world and, where it has a filter, the kinds, labels
    /// and start of that filter, with the flags of that filter left out.
    pub open spec fn of_question(q: QuestionView) -> ReflexFilterView {
        match q.filter {
            Some(f) => ReflexFilterView {
                world: Some(q.world),
                kinds: f.kinds,
                labels: f.labels,
                since: f.since,
                exclude_flags: f.flags,
                ..ReflexFilterView::all()
            },
            None => ReflexFilterView { world: Some(q.world), ..ReflexFilterView::all() },
        }
    }

    /// Whether the criteria can be applied: `since` is missing or valid.
    pub open spec fn applicable(self) -> bool {
        self.since matches Some(since) ==> moment::moment_of(since) is Some
    }

    /// Whether an atom meets the criteria, the world apart: its kind is one of the kinds
    /// asked for (if any are), it is by the author, not below the least importance, not
    /// from a second before `since`, has all the labels and none of the excluded flags.
    pub open spec fn admits(self, atom: AtomView) -> bool {
        &&& self.kinds.len() > 0 ==> self.kinds.contains(atom.kind)
        &&& self.author matches Some(author) ==> atom.worker == author
        &&& self.min_importance matches Some(least) ==> !atom.importance.value().below(least)
        &&& self.since matches Some(since) ==> moment::moment_of(atom.timestamp)->0.secs
            >= moment::moment_of(since)->0.secs
        &&& lists::contains_all(atom.labels, self.labels)
        &&& !lists::contains_any(atom.flags, self.exclude_flags)
    }
}

impl Default for ReflexFilter {
    fn default() -> (r: Self)
        ensures
            r@ == ReflexFilterView::all(),
    {
        ReflexFilter {
            world: None,
            kinds: Vec::new(),
            labels: Vec::new(),
            author: None,
            min_importance: None,
            since: None,
            exclude_flags: Vec::new(),
        }
    }
}

impl ReflexFilter {
    /// The criteria of a question.
    pub fn from_question(question: &Question) -> (r: Self)
        ensures
            r@ == ReflexFilterView::of_question(question@),
    {
        let mut base = ReflexFilter::default();
        base.world = Some(question.world.clone());
        if let Some(filter) = &question.filter {
            base.kinds = duplicate_kinds(filter.kinds.as_slice());
            base.labels = duplicate_all(filter.labels.as_slice());
            base.exclude_flags = duplicate_all(filter.flags.as_slice());
            base.since = duplicate_opt(&filter.since);
        }
        base
    }

    /// Whether an atom meets the criteria, the world apart; `since` has been read.
    fn matches(&self, since: Option<i64>, atom: &Atom) -> (r: bool)
        requires
            moment::moment_of(atom@.timestamp) is Some,
            self@.applicable(),
            since is Some <==> self@.since is Some,
            since matches Some(secs) ==> moment::moment_of(self@.since->0)->0.secs == secs,
        ensures
            r == self@.admits(atom@),
    {
        if self.kinds.len() > 0 && !has_kind(self.kinds.as_slice(), *atom.kind()) {
            return false;
        }
        if let Some(author) = &self.author {
            if !text::same(atom.worker().text(), author.text()) {
                return false;
            }
        }
        if let Some(least) = self.min_importance {
            if atom.importance().get().is_below(least) {
                return false;
            }
        }
        if let Some(secs) = since {
            match parse_ts(atom.timestamp()) {
                Ok(m) => {
                    if m.secs < secs {
                        return false;
                    }
                },
                Err(_) => {
                    return false;
                },
            }
        }
        if !lists::has_all_texts(atom.labels(), self.labels.as_slice()) {
            return false;
        }
        !lists::has_any_text(atom.flags(), self.exclude_flags.as_slice())
    }
}

/// The atoms of one stretch of time.
#[derive(Debug)]
struct Bucket {
    id: i128,
    atoms: Vec<Atom>,
}

/// Model of a bucket.
#[verifier::ext_equal]
pub ghost struct BucketView {
    pub id: int,
    pub atoms: Seq<AtomView>,
}

impl View for Bucket {
    type V = BucketView;

    closed spec fn view(&self) -> BucketView {
        BucketView { id: self.id as int, atoms: lists::views(self.atoms@) }
    }
}

/// `a` divided by `b`, rounded towards zero.
pub open spec fn signed_quotient(a: int, b: int) -> int {
    if b >= 0 {
        moment::quotient(a, b)
    } else {
        -moment::quotient(a, -b)
    }
}

impl ReflexIndexConfig {
    /// The width of a bucket in seconds: at least one.
    pub open spec fn width(self) -> u64 {
        if self.bucket_width_seconds == 0 {
            1
        } else {
            self.bucket_width_seconds
        }
    }

    /// The bucket of a second.
    pub open spec fn bucket(self, secs: int) -> int {
        signed_quotient(secs, self.width() as i64 as int)
    }

    /// How many buckets before the newest are kept: at least one.
    pub open spec fn window(self) -> i64 {
        let n = self.recency_seconds / self.width();
        if n == 0 {
            1
        } else {
            n as i64
        }
    }

    /// The bucket of a second.
    fn bucket_id(&self, secs: i64) -> (r: i128)
        ensures
            r == self.bucket(secs as int),
            -0x8000_0000_0000_0000 <= r <= 0x8000_0000_0000_0000,
    {
        let width: u64 = if self.bucket_width_seconds == 0 {
            1
        } else {
            self.bucket_width_seconds
        };
        let width: i128 = (width as i64) as i128;
        assert(width != 0) by {
            let w = self.width();
            assert(w != 0 ==> w as i64 != 0) by (bit_vector);
        }
        let secs: i128 = secs as i128;
        proof {
            let magnitude = if secs >= 0 { secs as int } else { -secs as int };
            let divisor = if width >= 0 { width as int } else { -width as int };
            vstd::arithmetic::div_mod::lemma_div_nonincreasing(magnitude, divisor);
            vstd::arithmetic::div_mod::lemma_div_pos_is_pos(magnitude, divisor);
        }
        if width > 0 {
            if secs >= 0 {
                secs / width
            } else {
                -((-secs) / width)
            }
        } else {
            let width: i128 = -width;
            if secs >= 0 {
                -(secs / width)
            } else {
                (-secs) / width
            }
        }
    }

    /// The oldest bucket that is kept behind the newest.
    fn oldest_kept(&self, newest: i128) -> (r: i128)
        requires
            -0x8000_0000_0000_0000 <= newest <= 0x8000_0000_0000_0000,
        ensures
            r == newest - self.window(),
    {
        let width: u64 = if self.bucket_width_seconds == 0 {
            1
        } else {
            self.bucket_width_seconds
        };
        let n: u64 = self.recency_seconds / width;
        let window: i64 = if n == 0 {
            1
        } else {
            n as i64
        };
        newest - window as i128
    }
}

/// The buckets with an atom put in the bucket `id`, which comes last if it is new.
pub open spec fn with_atom(
    buckets: Seq<BucketView>,
    id: int,
    atom: AtomView,
) -> Seq<BucketView>
    decreases buckets.len(),
{
    if buckets.len() == 0 {
        seq![BucketView { id, atoms: seq![atom] }]
    } else if buckets[0].id == id {
        buckets.update(0, BucketView { id, atoms: buckets[0].atoms.push(atom) })
    } else {
        seq![buckets[0]] + with_atom(buckets.drop_first(), id, atom)
    }
}

/// The buckets that are not before `oldest`.
pub open spec fn kept(buckets: Seq<BucketView>, oldest: int) -> Seq<BucketView> {
    buckets.filter(|b: BucketView| b.id >= oldest)
}

/// The atoms of the buckets that meet the criteria, bucket by bucket.
pub open spec fn gathered(buckets: Seq<BucketView>, filter: ReflexFilterView) -> Seq<AtomView>
    decreases buckets.len(),
{
    if buckets.len() == 0 {
        Seq::empty()
    } else {
        gathered(buckets.drop_last(), filter) + buckets.last().atoms.filter(
            |a: AtomView| filter.admits(a),
        )
    }
}

/// The atoms of all the worlds that meet the criteria, world by world.
pub open spec fn gathered_all(
    worlds: Seq<Seq<BucketView>>,
    filter: ReflexFilterView,
) -> Seq<AtomView>
    decreases worlds.len(),
{
    if worlds.len() == 0 {
        Seq::empty()
    } else {
        gathered_all(worlds.drop_last(), filter) + gathered(worlds.last(), filter)
    }
}

/// In-memory reflex index for recent/high-importance atoms.
#[derive(Debug)]
pub struct ReflexIndex {
    config: ReflexIndexConfig,
    worlds: Table<Vec<Bucket>>,
}

/// Model of the reflex index: its worlds in order, and the buckets of each.
#[verifier::ext_equal]
pub ghost struct ReflexView {
    pub config: ReflexIndexConfig,
    pub worlds: Seq<Seq<char>>,
    pub buckets: Map<Seq<char>, Seq<BucketView>>,
}

impl ReflexView {
    /// The buckets of a world.
    pub open spec fn of_world(self, world: Seq<char>) -> Seq<BucketView> {
        if self.buckets.contains_key(world) {
            self.buckets[world]
        } else {
            Seq::empty()
        }
    }

    /// The index with an atom put in.
    pub open spec fn inserted(self, atom: AtomView) -> ReflexView {
        let id = self.config.bucket(moment::moment_of(atom.timestamp)->0.secs as int);
        ReflexView {
            config: self.config,
            worlds: if self.worlds.contains(atom.world) {
                self.worlds
            } else {
                self.worlds.push(atom.world)
            },
            buckets: self.buckets.insert(
                atom.world,
                kept(with_atom(self.of_world(atom.world), id, atom), id - self.config.window()),
            ),
        }
    }

    /// The atoms that meet the criteria, in the world asked for or in every world.
    pub open spec fn selected(self, filter: ReflexFilterView) -> Seq<AtomView> {
        match filter.world {
            Some(world) => gathered(self.of_world(world), filter),
            None => gathered_all(
                Seq::new(self.worlds.len(), |i: int| self.of_world(self.worlds[i])),
                filter,
            ),
        }
    }
}

/// Every atom in the buckets has a valid timestamp.
spec fn all_timed(buckets: Seq<Bucket>) -> bool {
    forall|i: int, j: int|
        #![trigger buckets[i].atoms@[j]]
        0 <= i < buckets.len() && 0 <= j < buckets[i].atoms@.len() ==> moment::moment_of(
            buckets[i].atoms@[j]@.timestamp,
        ) is Some
}

impl ReflexIndex {
    #[verifier::type_invariant]
    spec fn sound(self) -> bool {
        forall|w: Seq<char>|
            #![trigger self.worlds.map()[w]]
            self.worlds.map().contains_key(w) ==> all_timed(self.worlds.map()[w]@)
    }
}

impl View for ReflexIndex {
    type V = ReflexView;

    closed spec fn view(&self) -> ReflexView {
        ReflexView {
            config: self.config,
            worlds: self.worlds.spec_keys(),
            buckets: self.worlds.map().map_values(|b: Vec<Bucket>| lists::views(b@)),
        }
    }
}

/// Adds to `out` the atoms of `buckets` that meet the criteria.
fn gather(
    buckets: &Vec<Bucket>,
    filter: &ReflexFilter,
    since: Option<i64>,
    out: &mut Vec<Atom>,
)
    requires
        all_timed(buckets@),
        filter@.applicable(),
        since is Some <==> filter@.since is Some,
        since matches Some(secs) ==> moment::moment_of(filter@.since->0)->0.secs == secs,
    ensures
        lists::views(final(out)@) == lists::views(old(out)@) + gathered(
            lists::views(buckets@),
            filter@,
        ),
{
    let ghost before = lists::views(out@);
    let ghost models = lists::views(buckets@);
    for i in 0..buckets.len()
        invariant
            all_timed(buckets@),
            filter@.applicable(),
            since is Some <==> filter@.since is Some,
            since matches Some(secs) ==> moment::moment_of(filter@.since->0)->0.secs == secs,
            models == lists::views(buckets@),
            lists::views(out@) == before + gathered(models.subrange(0, i as int), filter@),
    {
        let atoms = &buckets[i].atoms;
        let ghost p = |a: AtomView| filter@.admits(a);
        let ghost base = lists::views(out@);
        let ghost group = lists::views(atoms@);
        for j in 0..atoms.len()
            invariant
                i < buckets@.len(),
                *atoms == buckets@[i as int].atoms,
                all_timed(buckets@),
                filter@.applicable(),
                since is Some <==> filter@.since is Some,
                since matches Some(secs) ==> moment::moment_of(filter@.since->0)->0.secs == secs,
                p == |a: AtomView| filter@.admits(a),
                group == lists::views(atoms@),
                lists::views(out@) == base + group.subrange(0, j as int).filter(p),
        {
            let atom = &atoms[j];
            assert(moment::moment_of(buckets@[i as int].atoms@[j as int]@.timestamp) is Some);
            proof {
                assert(group.subrange(0, j + 1) == group.subrange(0, j as int).push(atom@));
                group.subrange(0, j as int).lemma_filter_push(atom@, p);
            }
            if filter.matches(since, atom) {
                out.push(atom.clone());
            }
        }
        proof {
            assert(group.subrange(0, group.len() as int) == group);
            let upto = models.subrange(0, i + 1);
            assert(upto.drop_last() == models.subrange(0, i as int));
            assert(upto.last().atoms == group);
        }
    }
    assert(models.subrange(0, models.len() as int) == models);
}

impl ReflexIndex {
    pub fn new(config: ReflexIndexConfig) -> (r: Self)
        ensures
            r@ == (ReflexView { config, worlds: Seq::empty(), buckets: Map::empty() }),
    {
        let r = ReflexIndex { config, worlds: Table::new() };
        assert(r@.buckets =~= Map::empty());
        r
    }

    /// Puts an atom in the bucket of its timestamp and drops the buckets of its world that
    /// are older than the window behind it.
    pub fn insert(&mut self, atom: Atom) -> (r: Result<()>)
        ensures
            moment::moment_of(atom@.timestamp) is Some ==> r is Ok && final(self)@ == old(self)@.inserted(atom@),
            moment::moment_of(atom@.timestamp) is None ==> final(self)@ == old(self)@ && (r
                matches Err(e) && e@ == moment::timestamp_error(atom@.timestamp)),
    {
        let at = match parse_ts(atom.timestamp()) {
            Ok(at) => at,
            Err(e) => {
                return Err(e);
            },
        };
        proof {
            use_type_invariant(&*self);
        }
        let id: i128 = self.config.bucket_id(at.secs);
        let oldest: i128 = self.config.oldest_kept(id);
        let world = atom.world().clone();
        let ghost old_view = self@;
        let ghost old_map = self.worlds.map();
        let ghost model = atom@;
        let mut taken = ReflexIndex { config: self.config, worlds: Table::new() };
        std::mem::swap(self, &mut taken);
        let mut worlds = taken.worlds;
        match worlds.position(world.text()) {
            Some(i) => {
                let buckets = worlds.replace_at(i, Vec::new());
                assert(all_timed(old_map[model.world]@));
                let next = keep(put(buckets, id, atom), oldest);
                let _ = worlds.replace_at(i, next);
                proof {
                    assert(worlds.map() =~= old_map.insert(model.world, next));
                    assert(old_view.of_world(model.world) == lists::views(buckets@));
                    assert forall|w: Seq<char>|
                        #![trigger worlds.map()[w]]
                        worlds.map().contains_key(w) implies all_timed(worlds.map()[w]@) by {
                        if w != model.world {
                            assert(old_map.contains_key(w));
                            assert(old_map[w] == worlds.map()[w]);
                        }
                    }
                }
                *self = ReflexIndex { config: self.config, worlds };
                assert(self@.buckets =~= old_view.inserted(model).buckets);
            },
            None => {
                let next = keep(put(Vec::new(), id, atom), oldest);
                worlds.insert(world.text(), next);
                proof {
                    assert(old_view.of_world(model.world) == Seq::<BucketView>::empty());
                    assert forall|w: Seq<char>|
                        #![trigger worlds.map()[w]]
                        worlds.map().contains_key(w) implies all_timed(worlds.map()[w]@) by {
                        if w != model.world {
                            assert(old_map.contains_key(w));
                            assert(old_map[w] == worlds.map()[w]);
                        }
                    }
                }
                *self = ReflexIndex { config: self.config, worlds };
                assert(self@.buckets =~= old_view.inserted(model).buckets);
            },
        }
        Ok(())
    }

    /// The atoms in the reflex window that meet the criteria.
    pub fn filter(&self, filter: &ReflexFilter) -> (r: Result<Vec<Atom>>)
        ensures
            filter@.applicable() ==> (r matches Ok(atoms) && lists::views(atoms@)
                == self@.selected(filter@)),
            !filter@.applicable() ==> (r matches Err(e) && e@ == moment::timestamp_error(
                filter@.since->0,
            )),
    {
        let since: Option<i64> = match &filter.since {
            Some(ts) => match parse_ts(ts) {
                Ok(m) => Some(m.secs),
                Err(e) => {
                    return Err(e);
                },
            },
            None => None,
        };
        proof {
            use_type_invariant(self);
        }
        let mut out: Vec<Atom> = Vec::new();
        match &filter.world {
            Some(world) => {
                if let Some(buckets) = self.worlds.get(world.text()) {
                    gather(buckets, filter, since, &mut out);
                }
            },
            None => {
                let n: usize = self.worlds.len();
                let ghost groups = Seq::new(
                    self@.worlds.len(),
                    |i: int| self@.of_world(self@.worlds[i]),
                );
                for i in 0..n
                    invariant
                        n == self.worlds.spec_keys().len(),
                        self.sound(),
                        filter@.applicable(),
                        since is Some <==> filter@.since is Some,
                        since matches Some(secs) ==> moment::moment_of(filter@.since->0)->0.secs
                            == secs,
                        groups == Seq::new(
                            self@.worlds.len(),
                            |i: int| self@.of_world(self@.worlds[i]),
                        ),
                        lists::views(out@) == gathered_all(
                            groups.subrange(0, i as int),
                            filter@,
                        ),
                {
                    let buckets = self.worlds.value_at(i);
                    proof {
                        let w = self.worlds.spec_keys()[i as int];
                        assert(self.worlds.map()[w] == *buckets);
                        assert(groups[i as int] == lists::views(buckets@));
                        let upto = groups.subrange(0, i + 1);
                        assert(upto.drop_last() == groups.subrange(0, i as int));
                    }
                    gather(buckets, filter, since, &mut out);
                }
                assert(groups.subrange(0, groups.len() as int) == groups);
            },
        }
        Ok(out)
    }
}

/// Puts an atom in the bucket `id`, which comes last if it is new.
fn put(buckets: Vec<Bucket>, id: i128, atom: Atom) -> (r: Vec<Bucket>)
    requires
        all_timed(buckets@),
        moment::moment_of(atom@.timestamp) is Some,
    ensures
        lists::views(r@) == with_atom(lists::views(buckets@), id as int, atom@),
        all_timed(r@),
{
    let mut list = buckets;
    let ghost models = lists::views(list@);
    let ghost model = atom@;
    let ghost start = list@;
    let mut i: usize = 0;
    assert(models.subrange(0, models.len() as int) == models);
    assert(models.subrange(0, 0) + with_atom(models, id as int, model) == with_atom(
        models,
        id as int,
        model,
    ));
    while i < list.len()
        invariant
            i <= list@.len(),
            list@ == start,
            start == buckets@,
            all_timed(start),
            models == lists::views(start),
            model == atom@,
            moment::moment_of(atom@.timestamp) is Some,
            with_atom(models, id as int, model) == models.subrange(0, i as int) + with_atom(
                models.subrange(i as int, models.len() as int),
                id as int,
                model,
            ),
        decreases list@.len() - i,
    {
        let ghost rest = models.subrange(i as int, models.len() as int);
        if list[i].id == id {
            let mut bucket = list.remove(i);
            let ghost group = bucket.atoms@;
            bucket.atoms.push(atom);
            let ghost filled = bucket;
            list.insert(i, bucket);
            proof {
                assert(list@ =~= start.update(i as int, filled));
                assert(filled@ == BucketView {
                    id: id as int,
                    atoms: models[i as int].atoms.push(model),
                });
                assert(rest[0] == models[i as int]);
                assert(with_atom(rest, id as int, model) == rest.update(0, filled@));
                assert(lists::views(list@) =~= models.subrange(0, i as int) + rest.update(
                    0,
                    filled@,
                ));
                assert forall|a: int, b: int|
                    #![trigger list@[a].atoms@[b]]
                    0 <= a < list@.len() && 0 <= b
                        < list@[a].atoms@.len() implies moment::moment_of(
                    list@[a].atoms@[b]@.timestamp,
                ) is Some by {
                    if a != i || b < group.len() {
                        assert(start[a].atoms@[b] == list@[a].atoms@[b]);
                    }
                }
            }
            return list;
        }
        proof {
            assert(rest.drop_first() == models.subrange(i + 1, models.len() as int));
            assert(models.subrange(0, i + 1) == models.subrange(0, i as int) + seq![rest[0]]);
            assert(with_atom(models, id as int, model) =~= models.subrange(0, i + 1) + with_atom(
                rest.drop_first(),
                id as int,
                model,
            ));
        }
        i = i + 1;
    }
    let mut atoms: Vec<Atom> = Vec::new();
    atoms.push(atom);
    let ghost group = atoms@;
    let bucket = Bucket { id, atoms };
    list.push(bucket);
    proof {
        assert(bucket@.atoms =~= seq![model]);
        assert(lists::views(list@) =~= models + seq![
            BucketView { id: id as int, atoms: seq![model] },
        ]);
        assert(models.subrange(i as int, models.len() as int) =~= Seq::empty());
        assert forall|a: int, b: int|
            #![trigger list@[a].atoms@[b]]
            0 <= a < list@.len() && 0 <= b < list@[a].atoms@.len() implies moment::moment_of(
            list@[a].atoms@[b]@.timestamp,
        ) is Some by {
            if a < start.len() {
                assert(start[a].atoms@[b] == list@[a].atoms@[b]);
            }
        }
    }
    list
}

/// The buckets that are not before `oldest`.
fn keep(buckets: Vec<Bucket>, oldest: i128) -> (r: Vec<Bucket>)
    requires
        all_timed(buckets@),
    ensures
        lists::views(r@) == kept(lists::views(buckets@), oldest as int),
        all_timed(r@),
{
    let ghost models = lists::views(buckets@);
    let ghost start = buckets@;
    let ghost p = |b: BucketView| b.id >= oldest as int;
    let mut rest = buckets;
    let mut out: Vec<Bucket> = Vec::new();
    while rest.len() > 0
        invariant
            rest@.len() <= start.len(),
            rest@ == start.subrange(start.len() - rest@.len(), start.len() as int),
            all_timed(start),
            all_timed(out@),
            models == lists::views(start),
            p == |b: BucketView| b.id >= oldest as int,
            lists::views(out@) == models.subrange(0, models.len() - rest@.len()).filter(p),
        decreases rest@.len(),
    {
        let ghost done = models.subrange(0, models.len() - rest@.len());
        let ghost n = start.len() - rest@.len();
        let bucket = rest.remove(0);
        proof {
            assert(bucket == start[n]);
            assert(models.subrange(0, n + 1) == done.push(bucket@));
            done.lemma_filter_push(bucket@, p);
        }
        if bucket.id >= oldest {
            let ghost out_before = out@;
            out.push(bucket);
            assert forall|a: int, b: int|
                #![trigger out@[a].atoms@[b]]
                0 <= a < out@.len() && 0 <= b < out@[a].atoms@.len() implies moment::moment_of(
                out@[a].atoms@[b]@.timestamp,
            ) is Some by {
                if a < out_before.len() {
                    assert(out_before[a].atoms@[b] == out@[a].atoms@[b]);
                } else {
                    assert(start[n].atoms@[b] == out@[a].atoms@[b]);
                }
            }
        }
    }
    assert(models.subrange(0, models.len() as int) == models);
    out
}

/// An atom that was put in is selected by the criteria for its world that it meets, as long as
/// the window reaches back.
pub proof fn inserted_atom_is_selected(
    index: ReflexView,
    atom: AtomView,
    filter: ReflexFilterView,
)
    requires
        index.config.window() >= 0,
        filter.world == Some(atom.world),
        filter.admits(atom),
    ensures
        index.inserted(atom).selected(filter).contains(atom),
{
    let id = index.config.bucket(moment::moment_of(atom.timestamp)->0.secs as int);
    let oldest = id - index.config.window();
    let put = with_atom(index.of_world(atom.world), id, atom);
    let i = bucket_with_atom(index.of_world(atom.world), id, atom);
    let p = |b: BucketView| b.id >= oldest;
    put.lemma_filter_contains(p, i);
    let left = put.filter(p);
    let k = choose|k: int| 0 <= k < left.len() && left[k] == put[i];
    gathered_from_bucket(left, filter, k, atom);
    assert(index.inserted(atom).of_world(atom.world) == kept(put, oldest));
}

/// The bucket that an atom was put in.
proof fn bucket_with_atom(buckets: Seq<BucketView>, id: int, atom: AtomView) -> (i: int)
    ensures
        0 <= i < with_atom(buckets, id, atom).len(),
        with_atom(buckets, id, atom)[i].id == id,
        with_atom(buckets, id, atom)[i].atoms.contains(atom),
    decreases buckets.len(),
{
    let after = with_atom(buckets, id, atom);
    if buckets.len() == 0 {
        assert(after[0].atoms[0] == atom);
        0
    } else if buckets[0].id == id {
        assert(after[0].atoms.last() == atom);
        0
    } else {
        let j = bucket_with_atom(buckets.drop_first(), id, atom);
        assert(after[j + 1] == with_atom(buckets.drop_first(), id, atom)[j]);
        j + 1
    }
}

/// An atom of a bucket that meets the criteria is gathered.
proof fn gathered_from_bucket(
    buckets: Seq<BucketView>,
    filter: ReflexFilterView,
    k: int,
    atom: AtomView,
)
    requires
        0 <= k < buckets.len(),
        buckets[k].atoms.contains(atom),
        filter.admits(atom),
    ensures
        gathered(buckets, filter).contains(atom),
    decreases buckets.len(),
{
    let before = gathered(buckets.drop_last(), filter);
    let p = |a: AtomView| filter.admits(a);
    let own = buckets.last().atoms.filter(p);
    let all = gathered(buckets, filter);
    if k == buckets.len() - 1 {
        let j = choose|j: int| 0 <= j < buckets[k].atoms.len() && buckets[k].atoms[j] == atom;
        buckets.last().atoms.lemma_filter_contains(p, j);
        let n = choose|n: int| 0 <= n < own.len() && own[n] == atom;
        assert(all[before.len() + n] == atom);
    } else {
        gathered_from_bucket(buckets.drop_last(), filter, k, atom);
        let n = choose|n: int| 0 <= n < before.len() && before[n] == atom;
        assert(all[n] == atom);
    }
}

}
