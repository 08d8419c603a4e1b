//! State of the vector index of each world.

use vstd::prelude::*;
use vstd::string::*;

use crate::atom::{Timestamp, WorldKey};
use crate::lists;
use crate::lists::{duplicate_opt, Duplicate};
use crate::moment;
use crate::moment::{parse_ts, Moment};
use crate::single::{Single, ONE_BITS};
use crate::table::Table;
use crate::text;

verus! {

broadcast use crate::lists::group_views;

/// What is known of the vector index of a world.
#[derive(Debug)]
pub struct IndexMetadata {
    pub world: WorldKey,
    pub version: u64,
    pub embedder_version: String,
    pub last_rebuilt: Timestamp,
    pub ready: bool,
    pub rebuilding: bool,
    pub progress: Single,
    pub started_at: Option<Timestamp>,
    pub last_progress: Option<Timestamp>,
}

/// Model of index metadata.
#[verifier::ext_equal]
pub ghost struct IndexView {
    pub world: Seq<char>,
    pub version: u64,
    pub embedder_version: Seq<char>,
    pub last_rebuilt: Seq<char>,
    pub ready: bool,
    pub rebuilding: bool,
    pub progress: u32,
    pub started_at: Option<Seq<char>>,
    pub last_progress: Option<Seq<char>>,
}

impl View for IndexMetadata {
    type V = IndexView;

    open spec fn view(&self) -> IndexView {
        IndexView {
            world: self.world@,
            version: self.version,
            embedder_version: self.embedder_version@,
            last_rebuilt: self.last_rebuilt@,
            ready: self.ready,
            rebuilding: self.rebuilding,
            progress: self.progress.spec_bits(),
            started_at: lists::opt_view(self.started_at),
            last_progress: lists::opt_view(self.last_progress),
        }
    }
}

impl Clone for IndexMetadata {
    fn clone(&self) -> (r: Self)
        ensures
            r@ == self@,
    {
        IndexMetadata {
            world: self.world.clone(),
            version: self.version,
            embedder_version: self.embedder_version.clone(),
            last_rebuilt: self.last_rebuilt.clone(),
            ready: self.ready,
            rebuilding: self.rebuilding,
            progress: self.progress,
            started_at: duplicate_opt(&self.started_at),
            last_progress: duplicate_opt(&self.last_progress),
        }
    }
}

impl Duplicate for IndexMetadata {
    fn duplicate(&self) -> (r: Self) {
        self.clone()
    }
}

impl IndexView {
    /// The metadata of an index that was never built: ready, with the embedder's version.
    pub open spec fn fresh(
        world: Seq<char>,
        embedder_version: Seq<char>,
        now: Seq<char>,
    ) -> IndexView {
        IndexView {
            world,
            version: 1,
            embedder_version,
            last_rebuilt: now,
            ready: true,
            rebuilding: false,
            progress: ONE_BITS,
            started_at: None,
            last_progress: None,
        }
    }

    /// The metadata of an index that was rebuilt at `now` for another embedder version.
    pub open spec fn rebuilt(self, embedder_version: Seq<char>, now: Seq<char>) -> IndexView {
        IndexView {
            version: (self.version + 1) as u64,
            embedder_version,
            last_rebuilt: now,
            ready: true,
            rebuilding: false,
            progress: ONE_BITS,
            started_at: Some(now),
            last_progress: Some(now),
            ..self
        }
    }

    /// Whether the index serves searches.
    pub open spec fn settled(self) -> bool {
        self.ready && !self.rebuilding
    }

    /// The timestamp of the last sign of progress.
    pub open spec fn last_sign(self) -> Seq<char> {
        match (self.last_progress, self.started_at) {
            (Some(ts), _) => ts,
            (None, Some(ts)) => ts,
            (None, None) => self.last_rebuilt,
        }
    }
}

impl IndexMetadata {
    /// The metadata of an index that was never built.
    pub fn fresh(world: &WorldKey, embedder_version: &str, now: &Timestamp) -> (r: Self)
        ensures
            r@ == IndexView::fresh(world@, embedder_version@, now@),
    {
        IndexMetadata {
            world: world.clone(),
            version: 1,
            embedder_version: embedder_version.to_owned(),
            last_rebuilt: now.clone(),
            ready: true,
            rebuilding: false,
            progress: Single::from_bits(ONE_BITS),
            started_at: None,
            last_progress: None,
        }
    }

    /// The metadata of an index that was rebuilt for another embedder version.
    fn rebuilt(self, embedder_version: &str, now: &Timestamp) -> (r: Self)
        ensures
            r@ == self@.rebuilt(embedder_version@, now@),
    {
        proof {
            let v = self.version;
            assert(v == 0xffff_ffff_ffff_ffffu64 ==> ((v + 1) as u64) == 0) by (bit_vector);
        }
        IndexMetadata {
            world: self.world,
            version: self.version.wrapping_add(1),
            embedder_version: embedder_version.to_owned(),
            last_rebuilt: now.clone(),
            ready: true,
            rebuilding: false,
            progress: Single::from_bits(ONE_BITS),
            started_at: Some(now.clone()),
            last_progress: Some(now.clone()),
        }
    }
}

/// State of the vector indexes by world.
#[derive(Debug)]
pub struct IndexState {
    entries: Table<IndexMetadata>,
}

impl View for IndexState {
    type V = Map<Seq<char>, IndexView>;

    closed spec fn view(&self) -> Map<Seq<char>, IndexView> {
        self.entries.map().map_values(|m: IndexMetadata| m@)
    }
}

/// Whether the index of a world was built for another embedder version.
pub open spec fn is_stale(
    state: Map<Seq<char>, IndexView>,
    world: Seq<char>,
    embedder_version: Seq<char>,
) -> bool {
    state.contains_key(world) && state[world].embedder_version != embedder_version
}

/// The states once a world is known: a fresh entry where there was none, a rebuilt one
/// where the index was built for another embedder version.
pub open spec fn refreshed(
    state: Map<Seq<char>, IndexView>,
    world: Seq<char>,
    embedder_version: Seq<char>,
    now: Seq<char>,
) -> Map<Seq<char>, IndexView> {
    if !state.contains_key(world) {
        state.insert(world, IndexView::fresh(world, embedder_version, now))
    } else if is_stale(state, world, embedder_version) {
        state.insert(world, state[world].rebuilt(embedder_version, now))
    } else {
        state
    }
}

/// `lag` is the longest time, in milliseconds, since the last sign of progress of an index
/// that is not settled and whose last sign is a valid timestamp; none if there is no such
/// index.
pub open spec fn is_longest_lag(
    state: Map<Seq<char>, IndexView>,
    now: Moment,
    lag: Option<u64>,
) -> bool {
    &&& lag matches Some(ms) ==> exists|w: Seq<char>| #[trigger]
        state.contains_key(w) && lags(state[w]) && lag_of(state[w], now) == ms
    &&& forall|w: Seq<char>| #[trigger]
        state.contains_key(w) && lags(state[w]) ==> (lag matches Some(ms) && lag_of(state[w], now)
            <= ms)
}

/// Whether an index counts when the lag is measured.
pub open spec fn lags(index: IndexView) -> bool {
    !index.settled() && moment::moment_of(index.last_sign()) is Some
}

/// The time, in milliseconds, since the last sign of progress of an index.
pub open spec fn lag_of(index: IndexView, now: Moment) -> u64 {
    now.spec_millis_since(moment::moment_of(index.last_sign())->0)
}

impl IndexState {
    pub fn new() -> (r: Self)
        ensures
            r@ == Map::<Seq<char>, IndexView>::empty(),
    {
        let r = IndexState { entries: Table::new() };
        assert(r@ =~= Map::<Seq<char>, IndexView>::empty());
        r
    }

    /// What is known of the index of a world.
    pub fn get(&self, world: &WorldKey) -> (r: Option<IndexMetadata>)
        ensures
            lists::opt_view(r) == self@.get(world@),
    {
        match self.entries.get(world.text()) {
            Some(m) => Some(m.clone()),
            None => None,
        }
    }

    /// Puts the metadata of an index in the place of what was known of it.
    pub fn set(&mut self, meta: IndexMetadata)
        ensures
            final(self)@ == old(self)@.insert(meta@.world, meta@),
    {
        let ghost before = self@;
        let ghost model = meta@;
        let world = meta.world.clone();
        self.entries.insert(world.text(), meta);
        assert(self@ =~= before.insert(model.world, model));
    }

    /// Whether the index of a world has to be rebuilt for the embedder version.
    pub fn needs_rebuild(&self, world: &WorldKey, embedder_version: &str) -> (r: bool)
        ensures
            r == is_stale(self@, world@, embedder_version@),
    {
        match self.entries.get(world.text()) {
            Some(m) => !text::same(m.embedder_version.as_str(), embedder_version),
            None => false,
        }
    }

    /// Makes sure that a world has an entry, and marks its index as rebuilt where it was
    /// built for another embedder version.
    pub fn refresh(&mut self, world: &WorldKey, embedder_version: &str, now: &Timestamp)
        ensures
            final(self)@ == refreshed(old(self)@, world@, embedder_version@, now@),
    {
        let ghost before = self@;
        match self.entries.position(world.text()) {
            None => {
                let meta = IndexMetadata::fresh(world, embedder_version, now);
                self.entries.insert(world.text(), meta);
                assert(self@ =~= refreshed(before, world@, embedder_version@, now@));
            },
            Some(i) => {
                if self.needs_rebuild(world, embedder_version) {
                    let blank = IndexMetadata::fresh(world, embedder_version, now);
                    let meta = self.entries.replace_at(i, blank);
                    let _ = self.entries.replace_at(i, meta.rebuilt(embedder_version, now));
                    assert(self@ =~= refreshed(before, world@, embedder_version@, now@));
                }
            },
        }
    }

    /// All that is known, world by world.
    pub fn list(&self) -> (r: Vec<IndexMetadata>)
        ensures
            forall|w: Seq<char>| #[trigger]
                self@.contains_key(w) ==> lists::views(r@).contains(self@[w]),
            forall|i: int|
                0 <= i < r@.len() ==> self@.contains_value(#[trigger] lists::views(r@)[i]),
            r@.len() == self@.dom().len(),
    {
        let n: usize = self.entries.len();
        let ghost keys = self.entries.spec_keys();
        let mut out: Vec<IndexMetadata> = Vec::new();
        for i in 0..n
            invariant
                n == keys.len(),
                keys == self.entries.spec_keys(),
                out@.len() == i,
                forall|j: int|
                    0 <= j < i ==> self.entries.map().contains_key(#[trigger] keys[j])
                        && self@[keys[j]] == out@[j]@,
        {
            out.push(self.entries.value_at(i).clone());
        }
        proof {
            assert forall|w: Seq<char>| #[trigger] self@.contains_key(w) implies lists::views(
                out@,
            ).contains(self@[w]) by {
                let j = keys.index_of(w);
                assert(keys[j] == w);
                assert(lists::views(out@)[j] == self@[w]);
            }
            assert forall|i: int| 0 <= i < out@.len() implies self@.contains_value(
                #[trigger] lists::views(out@)[i],
            ) by {
                assert(self@.contains_key(keys[i]));
            }
            keys.unique_seq_to_set();
            assert(keys.to_set() =~= self@.dom());
        }
        out
    }

    /// The longest time, in milliseconds, since the last sign of progress of an index that
    /// is rebuilding or not ready.
    pub fn longest_lag(&self, now: Moment) -> (r: Option<u64>)
        ensures
            is_longest_lag(self@, now, r),
    {
        let n: usize = self.entries.len();
        let ghost keys = self.entries.spec_keys();
        let mut longest: Option<u64> = None;
        for i in 0..n
            invariant
                n == keys.len(),
                keys == self.entries.spec_keys(),
                forall|j: int| 0 <= j < n ==> self@.contains_key(#[trigger] keys[j]),
                longest matches Some(ms) ==> exists|w: Seq<char>| #[trigger]
                    self@.contains_key(w) && lags(self@[w]) && lag_of(self@[w], now) == ms,
                forall|j: int|
                    0 <= j < i && lags(self@[#[trigger] keys[j]]) ==> (longest matches Some(ms)
                        && lag_of(self@[keys[j]], now) <= ms),
        {
            let meta = self.entries.value_at(i);
            assert(self@.contains_key(keys[i as int]));
            assert(self@[keys[i as int]] == meta@);
            if !(meta.ready && !meta.rebuilding) {
                let sign = match (&meta.last_progress, &meta.started_at) {
                    (Some(ts), _) => ts,
                    (None, Some(ts)) => ts,
                    (None, None) => &meta.last_rebuilt,
                };
                if let Ok(at) = parse_ts(sign) {
                    let ms: u64 = now.millis_since(at);
                    let longer: bool = match longest {
                        Some(most) => ms > most,
                        None => true,
                    };
                    if longer {
                        longest = Some(ms);
                    }
                }
            }
        }
        proof {
            assert forall|w: Seq<char>| #[trigger]
                self@.contains_key(w) && lags(self@[w]) implies (longest matches Some(ms) && lag_of(
                self@[w],
                now,
            ) <= ms) by {
                let j = keys.index_of(w);
                assert(keys[j] == w);
            }
        }
        longest
    }
}

/// Once a world is refreshed it has an entry for the embedder version, and refreshing it
/// again for the same version changes nothing.
pub proof fn refresh_settles(
    state: Map<Seq<char>, IndexView>,
    world: Seq<char>,
    embedder_version: Seq<char>,
    now: Seq<char>,
    later: Seq<char>,
)
    ensures
        refreshed(state, world, embedder_version, now).contains_key(world),
        refreshed(state, world, embedder_version, now)[world].embedder_version == embedder_version,
        refreshed(refreshed(state, world, embedder_version, now), world, embedder_version, later)
            == refreshed(state, world, embedder_version, now),
{
}

}
