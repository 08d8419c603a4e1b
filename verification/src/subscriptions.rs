//! Which nodes subscribe to which worlds.

use vstd::prelude::*;
use vstd::string::*;

use crate::clock::{Duration, Instant, NANOS_PER_MS};
use crate::lists;
use crate::lists::duplicate_all;
use crate::replication;
use crate::replication::matches_world;
use crate::table::Table;

verus! {

broadcast use crate::lists::group_views;

/// What a node subscribes to, and when it last said so.
#[derive(Debug)]
pub struct SubscriptionRecord {
    pub patterns: Vec<String>,
    pub last_seen: Instant,
}

/// Model of what a node subscribes to.
#[verifier::ext_equal]
pub ghost struct RecordView {
    pub patterns: Seq<Seq<char>>,
    pub last_seen: Instant,
}

impl View for SubscriptionRecord {
    type V = RecordView;

    open spec fn view(&self) -> RecordView {
        RecordView { patterns: lists::views(self.patterns@), last_seen: self.last_seen }
    }
}

impl Clone for SubscriptionRecord {
    fn clone(&self) -> (r: Self)
        ensures
            r@ == self@,
    {
        SubscriptionRecord {
            patterns: duplicate_all(self.patterns.as_slice()),
            last_seen: self.last_seen,
        }
    }
}

impl RecordView {
    /// Whether the node said so within the expiry window.
    pub open spec fn is_current(self, now: Instant, expiry: u128) -> bool {
        now.since(self.last_seen) <= expiry
    }

    /// Whether one of the patterns matches a world.
    pub open spec fn wants(self, world: Seq<char>) -> bool {
        one_matches(self.patterns, world)
    }
}

/// Whether one of the patterns matches a world.
pub open spec fn one_matches(patterns: Seq<Seq<char>>, world: Seq<char>) -> bool {
    exists|i: int|
        0 <= i < patterns.len() && replication::pattern_matches(#[trigger] patterns[i], world)
}

/// Whether one of the patterns matches a world.
pub fn any_matches(patterns: &[String], world: &str) -> (r: bool)
    ensures
        r == one_matches(lists::views(patterns@), world@),
{
    for i in 0..patterns.len()
        invariant
            forall|j: int|
                0 <= j < i ==> !replication::pattern_matches(
                    #[trigger] lists::views(patterns@)[j],
                    world@,
                ),
    {
        assert(lists::views(patterns@)[i as int] == patterns@[i as int]@);
        if matches_world(patterns[i].as_str(), world) {
            return true;
        }
    }
    false
}

/// What a node subscribes to, to be kept on disk; the time is in milliseconds since the unix
/// epoch.
#[derive(Debug)]
pub struct PersistedSubscriptionRecord {
    pub patterns: Vec<String>,
    pub last_seen_ms: u64,
}

/// Model of what a node subscribes to, to be kept on disk.
#[verifier::ext_equal]
pub ghost struct SavedView {
    pub patterns: Seq<Seq<char>>,
    pub last_seen_ms: u64,
}

impl View for PersistedSubscriptionRecord {
    type V = SavedView;

    open spec fn view(&self) -> SavedView {
        SavedView { patterns: lists::views(self.patterns@), last_seen_ms: self.last_seen_ms }
    }
}

impl SavedView {
    /// How long ago the node said so, in nanoseconds.
    pub open spec fn age(self, now_ms: u64) -> int {
        if now_ms >= self.last_seen_ms {
            (now_ms - self.last_seen_ms) * NANOS_PER_MS
        } else {
            0
        }
    }
}

/// The subscriptions of nodes.
#[derive(Debug)]
pub struct SubscriptionTable {
    records: Table<SubscriptionRecord>,
    expiry: Duration,
}

/// Model of the subscriptions of nodes: the records by node, and the nodes in the order in
/// which they came.
#[verifier::ext_equal]
pub ghost struct SubscriptionsView {
    pub ids: Seq<Seq<char>>,
    pub records: Map<Seq<char>, RecordView>,
    pub expiry: u128,
}

impl View for SubscriptionTable {
    type V = SubscriptionsView;

    closed spec fn view(&self) -> SubscriptionsView {
        SubscriptionsView {
            ids: self.records.spec_keys(),
            records: self.records.map().map_values(|r: SubscriptionRecord| r@),
            expiry: self.expiry.nanos,
        }
    }
}

impl SubscriptionsView {
    /// No subscriptions.
    pub open spec fn empty(expiry: u128) -> SubscriptionsView {
        SubscriptionsView { ids: Seq::empty(), records: Map::empty(), expiry }
    }

    /// The subscriptions with another record for a node.
    pub open spec fn with_record(self, id: Seq<char>, record: RecordView) -> SubscriptionsView {
        SubscriptionsView {
            ids: if self.ids.contains(id) {
                self.ids
            } else {
                self.ids.push(id)
            },
            records: self.records.insert(id, record),
            ..self
        }
    }

    /// The subscriptions within the expiry window.
    pub open spec fn pruned(self, now: Instant) -> SubscriptionsView {
        SubscriptionsView {
            ids: self.ids.filter(|id: Seq<char>| self.records[id].is_current(now, self.expiry)),
            records: self.records.restrict(
                Set::new(
                    |id: Seq<char>|
                        self.records.contains_key(id) && self.records[id].is_current(
                            now,
                            self.expiry,
                        ),
                ),
            ),
            ..self
        }
    }

    /// The nodes that subscribe to a world.
    pub open spec fn subscribers(self, world: Seq<char>) -> Seq<Seq<char>> {
        self.ids.filter(|id: Seq<char>| self.records[id].wants(world))
    }

    /// The subscriptions that were kept on disk, as far as they are within the expiry window.
    pub open spec fn restored(
        expiry: u128,
        saved: Seq<(Seq<char>, SavedView)>,
        now: Instant,
        now_ms: u64,
    ) -> SubscriptionsView
        decreases saved.len(),
    {
        if saved.len() == 0 {
            SubscriptionsView::empty(expiry)
        } else {
            let before = SubscriptionsView::restored(expiry, saved.drop_last(), now, now_ms);
            let (id, s) = saved.last();
            if s.age(now_ms) > expiry {
                before
            } else {
                before.with_record(
                    id,
                    RecordView {
                        patterns: s.patterns,
                        last_seen: Instant { nanos: (now.nanos - s.age(now_ms)) as u64 },
                    },
                )
            }
        }
    }

    /// What is kept on disk of a record: the time counts back from now, in whole milliseconds.
    pub open spec fn saved_record(r: RecordView, now: Instant, now_ms: u64) -> SavedView {
        let elapsed = now.since(r.last_seen) / NANOS_PER_MS as int;
        SavedView {
            patterns: r.patterns,
            last_seen_ms: if elapsed <= now_ms {
                (now_ms - elapsed) as u64
            } else {
                0
            },
        }
    }

    /// What is kept on disk.
    pub open spec fn saved(self, now: Instant, now_ms: u64) -> Seq<(Seq<char>, SavedView)> {
        Seq::new(
            self.ids.len(),
            |i: int|
                (
                    self.ids[i],
                    SubscriptionsView::saved_record(self.records[self.ids[i]], now, now_ms),
                ),
        )
    }
}

impl SubscriptionTable {
    /// No subscriptions.
    pub fn new(expiry: Duration) -> (r: Self)
        ensures
            r@ == SubscriptionsView::empty(expiry.nanos),
    {
        let r = SubscriptionTable { records: Table::new(), expiry };
        assert(r@.records =~= Map::empty());
        r
    }

    /// The subscriptions that were kept on disk, as far as they are within the expiry window;
    /// the clock must reach back so far.
    pub fn restore(
        expiry: Duration,
        saved: Vec<(String, PersistedSubscriptionRecord)>,
        now: Instant,
        now_ms: u64,
    ) -> (r: Self)
        requires
            expiry.nanos <= now.nanos,
        ensures
            r@ == SubscriptionsView::restored(expiry.nanos, lists::views(saved@), now, now_ms),
    {
        let ghost all = lists::views(saved@);
        let mut table = SubscriptionTable::new(expiry);
        for i in 0..saved.len()
            invariant
                all == lists::views(saved@),
                expiry.nanos <= now.nanos,
                table@ == SubscriptionsView::restored(
                    expiry.nanos,
                    all.subrange(0, i as int),
                    now,
                    now_ms,
                ),
                table@.expiry == expiry.nanos,
        {
            let (id, record) = &saved[i];
            proof {
                let done = all.subrange(0, i + 1);
                assert(done.drop_last() =~= all.subrange(0, i as int));
                assert(done.last() == saved@[i as int].view());
            }
            let age_ms: u64 = if now_ms >= record.last_seen_ms {
                now_ms - record.last_seen_ms
            } else {
                0
            };
            let age = Duration::from_millis(age_ms);
            if age.nanos <= expiry.nanos {
                table.put(
                    id.as_str(),
                    SubscriptionRecord {
                        patterns: duplicate_all(record.patterns.as_slice()),
                        last_seen: Instant { nanos: now.nanos - age.nanos as u64 },
                    },
                );
            }
        }
        assert(all.subrange(0, all.len() as int) =~= all);
        table
    }

    /// Sets the record of a node.
    fn put(&mut self, id: &str, record: SubscriptionRecord)
        ensures
            final(self)@ == old(self)@.with_record(id@, record@),
    {
        let ghost before = self@;
        self.records.insert(id, record);
        assert(self@ =~= before.with_record(id@, record@));
    }

    /// A node has said what it subscribes to.
    pub fn upsert(&mut self, node_id: String, patterns: Vec<String>, now: Instant)
        ensures
            final(self)@ == old(self)@.with_record(
                node_id@,
                RecordView { patterns: lists::views(patterns@), last_seen: now },
            ),
    {
        self.put(node_id.as_str(), SubscriptionRecord { patterns, last_seen: now });
    }

    /// Removes the subscriptions that are not within the expiry window; whether there were any.
    pub fn prune(&mut self, now: Instant) -> (r: bool)
        ensures
            final(self)@ == old(self)@.pruned(now),
            r == exists|i: int|
                0 <= i < old(self)@.ids.len() && !old(self)@.records[#[trigger] old(
                    self,
                )@.ids[i]].is_current(now, old(self)@.expiry),
    {
        let ghost before = self@;
        let n: usize = self.records.len();
        let ghost ids = self.records.spec_keys();
        let ghost current = |id: Seq<char>| before.records[id].is_current(now, before.expiry);
        let mut kept: Table<SubscriptionRecord> = Table::new();
        let mut changed: bool = false;
        for i in 0..n
            invariant
                n == ids.len(),
                ids == self.records.spec_keys(),
                ids.no_duplicates(),
                self@ == before,
                before.ids == ids,
                current == |id: Seq<char>| before.records[id].is_current(now, before.expiry),
                forall|j: int| 0 <= j < n ==> before.records.contains_key(#[trigger] ids[j]),
                kept.spec_keys() == ids.subrange(0, i as int).filter(current),
                changed == exists|j: int| 0 <= j < i && !current(#[trigger] ids[j]),
                forall|k: Seq<char>| #[trigger]
                    kept.map().contains_key(k) ==> before.records.contains_key(k) && current(k)
                        && kept.map()[k]@ == before.records[k],
                forall|j: int|
                    0 <= j < i && current(ids[j]) ==> kept.map().contains_key(#[trigger] ids[j]),
        {
            let id = self.records.key_at(i);
            let record = self.records.value_at(i);
            let ghost key = ids[i as int];
            proof {
                assert(before.records[key] == record@);
                let done = ids.subrange(0, i as int);
                assert(ids.subrange(0, i + 1) == done.push(key));
                done.lemma_filter_push(key, current);
                if done.filter(current).contains(key) {
                    done.lemma_filter_contains_rev(current, key);
                    let j = choose|j: int| 0 <= j < done.len() && done[j] == key;
                    assert(ids[j] == key);
                }
            }
            if now.duration_since(record.last_seen).nanos <= self.expiry.nanos {
                assert(current(key));
                kept.insert(id, record.clone());
            } else {
                assert(!current(key));
                changed = true;
            }
        }
        self.records = kept;
        proof {
            assert(ids.subrange(0, n as int) =~= ids);
            assert forall|k: Seq<char>| #[trigger]
                before.pruned(now).records.contains_key(k) implies self.records.map().contains_key(
                k,
            ) by {
                assert(before.records.contains_key(k));
                assert(ids.contains(k));
                let j = choose|j: int| 0 <= j < ids.len() && ids[j] == k;
                assert(current(ids[j]));
            }
            assert(self@.records =~= before.pruned(now).records);
            assert(self@ =~= before.pruned(now));
        }
        changed
    }

    /// The nodes that subscribe to a world; what is not within the expiry window goes.
    pub fn nodes_subscribed_to_world(&mut self, world: &str, now: Instant) -> (r: Vec<String>)
        ensures
            final(self)@ == old(self)@.pruned(now),
            lists::views(r@) == old(self)@.pruned(now).subscribers(world@),
    {
        let _ = self.prune(now);
        let n: usize = self.records.len();
        let ghost ids = self@.ids;
        let ghost p = |id: Seq<char>| self@.records[id].wants(world@);
        let mut out: Vec<String> = Vec::new();
        for i in 0..n
            invariant
                n == ids.len(),
                ids == self@.ids,
                ids == self.records.spec_keys(),
                self@ == old(self)@.pruned(now),
                p == |id: Seq<char>| self@.records[id].wants(world@),
                lists::views(out@) == ids.subrange(0, i as int).filter(p),
        {
            let record = self.records.value_at(i);
            let ghost key = ids[i as int];
            proof {
                let done = ids.subrange(0, i as int);
                assert(ids.subrange(0, i + 1) == done.push(key));
                done.lemma_filter_push(key, p);
                assert(self@.records[key] == record@);
            }
            if any_matches(record.patterns.as_slice(), world) {
                out.push(self.records.key_at(i).to_owned());
            }
        }
        assert(ids.subrange(0, n as int) =~= ids);
        out
    }

    /// All the nodes with the patterns they subscribe to; what is not within the expiry window
    /// goes.
    pub fn snapshot(&mut self, now: Instant) -> (r: Vec<(String, Vec<String>)>)
        ensures
            final(self)@ == old(self)@.pruned(now),
            r@.len() == final(self)@.ids.len(),
            forall|i: int|
                0 <= i < r@.len() ==> (#[trigger] r@[i]).0@ == final(self)@.ids[i] && lists::views(
                    r@[i].1@,
                ) == final(self)@.records[final(self)@.ids[i]].patterns,
    {
        let _ = self.prune(now);
        let n: usize = self.records.len();
        let mut out: Vec<(String, Vec<String>)> = Vec::new();
        for i in 0..n
            invariant
                n == self@.ids.len(),
                self@.ids == self.records.spec_keys(),
                self@ == old(self)@.pruned(now),
                out@.len() == i,
                forall|j: int|
                    0 <= j < i ==> (#[trigger] out@[j]).0@ == self@.ids[j] && lists::views(
                        out@[j].1@,
                    ) == self@.records[self@.ids[j]].patterns,
        {
            let record = self.records.value_at(i);
            assert(self@.records[self@.ids[i as int]] == record@);
            out.push(
                (
                    self.records.key_at(i).to_owned(),
                    duplicate_all(record.patterns.as_slice()),
                ),
            );
        }
        out
    }

    /// What to keep on disk.
    pub fn to_save(&self, now: Instant, now_ms: u64) -> (r: Vec<(
        String,
        PersistedSubscriptionRecord,
    )>)
        ensures
            lists::views(r@) == self@.saved(now, now_ms),
    {
        let n: usize = self.records.len();
        let mut out: Vec<(String, PersistedSubscriptionRecord)> = Vec::new();
        for i in 0..n
            invariant
                n == self@.ids.len(),
                self@.ids == self.records.spec_keys(),
                lists::views(out@) == self@.saved(now, now_ms).subrange(0, i as int),
        {
            let record = self.records.value_at(i);
            assert(self@.records[self@.ids[i as int]] == record@);
            let elapsed_ms: u128 = now.duration_since(record.last_seen).nanos / (
            NANOS_PER_MS as u128);
            let last_seen_ms: u64 = if elapsed_ms <= now_ms as u128 {
                now_ms - elapsed_ms as u64
            } else {
                0
            };
            let entry = (
                self.records.key_at(i).to_owned(),
                PersistedSubscriptionRecord {
                    patterns: duplicate_all(record.patterns.as_slice()),
                    last_seen_ms,
                },
            );
            assert(entry.view() == self@.saved(now, now_ms)[i as int]);
            out.push(entry);
            assert(lists::views(out@) =~= self@.saved(now, now_ms).subrange(0, i + 1));
        }
        assert(lists::views(out@) =~= self@.saved(now, now_ms));
        out
    }
}

impl Default for SubscriptionTable {
    fn default() -> (r: Self)
        ensures
            r@ == SubscriptionsView::empty(30_000_000_000),
    {
        SubscriptionTable::new(Duration::from_secs(30))
    }
}

/// What is restored of a list of different nodes: each record that is within the expiry window.
proof fn restored_records(
    expiry: u128,
    saved: Seq<(Seq<char>, SavedView)>,
    now: Instant,
    now_ms: u64,
    i: int,
)
    requires
        0 <= i < saved.len(),
        forall|a: int, b: int|
            0 <= a < b < saved.len() ==> (#[trigger] saved[a]).0 != (#[trigger] saved[b]).0,
    ensures
        saved[i].1.age(now_ms) <= expiry ==> ({
            let r = SubscriptionsView::restored(expiry, saved, now, now_ms).records;
            r.contains_key(saved[i].0) && r[saved[i].0].patterns == saved[i].1.patterns
        }),
    decreases saved.len(),
{
    let n = saved.len() - 1;
    if i < n {
        let rest = saved.drop_last();
        assert forall|a: int, b: int| 0 <= a < b < rest.len() implies (#[trigger] rest[a]).0 != (
        #[trigger] rest[b]).0 by {
            assert(saved[a].0 != saved[b].0);
        }
        restored_records(expiry, rest, now, now_ms, i);
        assert(saved[i].0 != saved[n].0);
    }
}

/// Subscriptions that were kept on disk are there again, with the same patterns, as far as
/// they are within the expiry window.
pub proof fn saved_subscriptions_are_restored(
    t: SubscriptionsView,
    then: Instant,
    then_ms: u64,
    now: Instant,
    now_ms: u64,
    i: int,
)
    requires
        0 <= i < t.ids.len(),
        t.ids.no_duplicates(),
        t.saved(then, then_ms)[i].1.age(now_ms) <= t.expiry,
    ensures
        ({
            let r = SubscriptionsView::restored(t.expiry, t.saved(then, then_ms), now, now_ms);
            r.records.contains_key(t.ids[i]) && r.records[t.ids[i]].patterns
                == t.records[t.ids[i]].patterns
        }),
{
    let saved = t.saved(then, then_ms);
    assert forall|a: int, b: int| 0 <= a < b < saved.len() implies (#[trigger] saved[a]).0 != (
    #[trigger] saved[b]).0 by {
        assert(t.ids[a] != t.ids[b]);
    }
    restored_records(t.expiry, saved, now, now_ms, i);
}

/// A subscription counts until the expiry window has passed, and not after.
pub proof fn subscription_expires(
    t: SubscriptionsView,
    id: Seq<char>,
    record: RecordView,
    now: Instant,
)
    ensures
        t.with_record(id, record).pruned(now).records.contains_key(id) == (now.since(
            record.last_seen,
        ) <= t.expiry),
{
}

}
