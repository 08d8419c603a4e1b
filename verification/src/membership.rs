//! Known peers, when they were last seen, and whether they are backed off from.
//!
//! Every operation that depends on the time has two forms: one that takes the instant, whose
//! contract is exact, and one that reads the clock first.

use vstd::prelude::*;
use vstd::string::*;

use crate::clock;
use crate::clock::{Clock, Duration, Instant, SystemClock, LONGEST_NANOS};
use crate::lists;
use crate::summary::{AdvertView, SummaryAdvert};
use crate::swarm::{Hello, HelloView, PeerId, PeerInfo, PeerView};
use crate::table::Table;
use crate::text;

verus! {

broadcast use crate::lists::group_views;

/// What is known of a peer.
#[derive(Debug)]
struct PeerState {
    info: PeerInfo,
    last_seen: Instant,
    failure_count: u32,
    backoff_until: Option<u128>,
}

/// Model of what is known of a peer; the end of the backoff is in nanoseconds on the clock.
#[verifier::ext_equal]
pub ghost struct PeerStateView {
    pub info: PeerView,
    pub last_seen: Instant,
    pub failure_count: u32,
    pub backoff_until: Option<u128>,
}

impl View for PeerState {
    type V = PeerStateView;

    closed spec fn view(&self) -> PeerStateView {
        PeerStateView {
            info: self.info@,
            last_seen: self.last_seen,
            failure_count: self.failure_count,
            backoff_until: self.backoff_until,
        }
    }
}

/// `2` to the power of `n`.
pub open spec fn two_to(n: nat) -> nat
    decreases n,
{
    if n == 0 {
        1
    } else {
        2 * two_to((n - 1) as nat)
    }
}

/// How long to back off after so many failures: the base, doubled with every failure after
/// the first, up to sixteen times, within the longest length of time; but at least the base.
pub open spec fn backoff_nanos(base: u128, failures: u32) -> int {
    let shift = if failures == 0 {
        0
    } else if failures - 1 > 16 {
        16
    } else {
        failures - 1
    };
    let raised = base * two_to(shift as nat);
    let capped = if raised <= LONGEST_NANOS {
        raised
    } else {
        LONGEST_NANOS as int
    };
    if capped < base {
        base as int
    } else {
        capped
    }
}

impl PeerStateView {
    /// A peer that was just seen.
    pub open spec fn fresh(info: PeerView, now: Instant) -> PeerStateView {
        PeerStateView { info, last_seen: now, failure_count: 0, backoff_until: None }
    }

    /// The peer, seen now: failures and backoff are forgotten.
    pub open spec fn seen(self, now: Instant) -> PeerStateView {
        PeerStateView { last_seen: now, failure_count: 0, backoff_until: None, ..self }
    }

    /// The peer after one more failure now.
    pub open spec fn failed(self, now: Instant, base: u128) -> PeerStateView {
        let failures = if self.failure_count == u32::MAX {
            self.failure_count
        } else {
            (self.failure_count + 1) as u32
        };
        PeerStateView {
            failure_count: failures,
            backoff_until: Some((now.nanos + backoff_nanos(base, failures)) as u128),
            ..self
        }
    }

    /// The peer with an advert, in the place of those with the same digest and world.
    pub open spec fn advertised(self, advert: AdvertView, now: Instant) -> PeerStateView {
        PeerStateView {
            info: PeerView {
                summary_adverts: self.info.summary_adverts.filter(
                    |a: AdvertView| a.digest != advert.digest || a.world != advert.world,
                ).push(advert),
                ..self.info
            },
            last_seen: now,
            ..self
        }
    }

    /// Whether the peer is backed off from.
    pub open spec fn backs_off(self, now: Instant) -> bool {
        self.backoff_until matches Some(until) && until > now.nanos
    }

    /// Whether the peer was seen within the expiry window.
    pub open spec fn is_current(self, now: Instant, expiry: u128) -> bool {
        now.since(self.last_seen) <= expiry
    }
}

/// Tracks known peers, last-seen timestamps, and backoff windows.
#[derive(Debug)]
pub struct Membership<C> {
    peers: Table<PeerState>,
    expiry: Duration,
    base_backoff: Duration,
    clock: C,
}

/// Model of the membership: the peers by id, and the ids in the order in which they came.
#[verifier::ext_equal]
pub ghost struct MembershipView {
    pub ids: Seq<Seq<char>>,
    pub peers: Map<Seq<char>, PeerStateView>,
    pub expiry: u128,
    pub base_backoff: u128,
}

impl MembershipView {
    /// The membership with a peer that was just seen.
    pub open spec fn upserted(self, info: PeerView, now: Instant) -> MembershipView {
        MembershipView {
            ids: if self.ids.contains(info.id) {
                self.ids
            } else {
                self.ids.push(info.id)
            },
            peers: self.peers.insert(info.id, PeerStateView::fresh(info, now)),
            ..self
        }
    }

    /// The membership with another state for a peer that is known.
    pub open spec fn with_state(self, id: Seq<char>, state: PeerStateView) -> MembershipView {
        MembershipView { peers: self.peers.insert(id, state), ..self }
    }

    /// The ids of the peers that were not seen within the expiry window.
    pub open spec fn overdue(self, now: Instant) -> Seq<Seq<char>> {
        self.ids.filter(|id: Seq<char>| !self.peers[id].is_current(now, self.expiry))
    }

    /// The membership without the peers that were not seen within the expiry window.
    pub open spec fn expired(self, now: Instant) -> MembershipView {
        let current = self.ids.filter(
            |id: Seq<char>| self.peers[id].is_current(now, self.expiry),
        );
        MembershipView {
            ids: current,
            peers: self.peers.restrict(
                Set::new(
                    |id: Seq<char>|
                        self.peers.contains_key(id) && self.peers[id].is_current(now, self.expiry),
                ),
            ),
            ..self
        }
    }

    /// What is known of the listed peers.
    pub open spec fn infos(self, ids: Seq<Seq<char>>) -> Seq<PeerView> {
        Seq::new(ids.len(), |i: int| self.peers[ids[i]].info)
    }

    /// The ids of the peers that are not backed off from.
    pub open spec fn eligible(self, now: Instant) -> Seq<Seq<char>> {
        self.ids.filter(|id: Seq<char>| !self.peers[id].backs_off(now))
    }
}

impl<C> View for Membership<C> {
    type V = MembershipView;

    closed spec fn view(&self) -> MembershipView {
        MembershipView {
            ids: self.peers.spec_keys(),
            peers: self.peers.map().map_values(|s: PeerState| s@),
            expiry: self.expiry.nanos,
            base_backoff: self.base_backoff.nanos,
        }
    }
}

impl Membership<SystemClock> {
    pub fn new(expiry: Duration, base_backoff: Duration) -> (r: Self)
        ensures
            r.clock().is_started(),
            r@ == (MembershipView {
                ids: Seq::empty(),
                peers: Map::empty(),
                expiry: expiry.nanos,
                base_backoff: base_backoff.nanos,
            }),
    {
        Membership::with_clock(SystemClock::new(), expiry, base_backoff)
    }
}

impl PeerInfo {
    /// The peer with an advert, in the place of those with the same digest and world.
    fn with_advert(self, advert: SummaryAdvert) -> (r: Self)
        ensures
            r@ == (PeerView {
                summary_adverts: self@.summary_adverts.filter(
                    |a: AdvertView| a.digest != advert@.digest || a.world != advert@.world,
                ).push(advert@),
                ..self@
            }),
    {
        let ghost models = lists::views(self.summary_adverts@);
        let ghost model = advert@;
        let ghost p = |a: AdvertView| a.digest != model.digest || a.world != model.world;
        let mut kept: Vec<SummaryAdvert> = Vec::new();
        for i in 0..self.summary_adverts.len()
            invariant
                models == lists::views(self.summary_adverts@),
                model == advert@,
                p == |a: AdvertView| a.digest != model.digest || a.world != model.world,
                lists::views(kept@) == models.subrange(0, i as int).filter(p),
        {
            let old = &self.summary_adverts[i];
            proof {
                assert(models.subrange(0, i + 1) == models.subrange(0, i as int).push(old@));
                models.subrange(0, i as int).lemma_filter_push(old@, p);
            }
            if !text::same(old.digest.as_str(), advert.digest.as_str()) || !text::same(
                old.world.text(),
                advert.world.text(),
            ) {
                kept.push(old.clone());
            }
        }
        assert(models.subrange(0, models.len() as int) == models);
        kept.push(advert);
        let mut next = self;
        next.summary_adverts = kept;
        next
    }
}

/// `2` to the power of a number up to sixteen.
fn power_of_two(n: u32) -> (r: u32)
    requires
        n <= 16,
    ensures
        r == two_to(n as nat),
        r <= 65536,
{
    let mut r: u32 = 1;
    proof {
        powers_grow(0, 16);
    }
    for i in 0..n
        invariant
            n <= 16,
            r == two_to(i as nat),
            r <= 65536,
    {
        proof {
            powers_grow(i as nat + 1, 16);
            reveal_with_fuel(two_to, 17);
        }
        r = r * 2;
    }
    r
}

proof fn powers_grow(a: nat, b: nat)
    requires
        a <= b,
    ensures
        two_to(a) <= two_to(b),
        two_to(a) >= 1,
    decreases b,
{
    if a < b {
        powers_grow(a, (b - 1) as nat);
    } else if a > 0 {
        powers_grow((a - 1) as nat, (b - 1) as nat);
    }
}

impl<C: Clock> Membership<C> {
    /// Where the time comes from.
    pub closed spec fn clock(self) -> C {
        self.clock
    }

    pub fn with_clock(clock: C, expiry: Duration, base_backoff: Duration) -> (r: Self)
        ensures
            r.clock() == clock,
            r@ == (MembershipView {
                ids: Seq::empty(),
                peers: Map::empty(),
                expiry: expiry.nanos,
                base_backoff: base_backoff.nanos,
            }),
    {
        let r = Membership { peers: Table::new(), expiry, base_backoff, clock };
        assert(r@.peers =~= Map::empty());
        r
    }

    /// Insert or update a peer record; returns true if it was newly added.
    pub fn upsert_at(&mut self, info: PeerInfo, now: Instant) -> (r: bool)
        ensures
            final(self).clock() == old(self).clock(),
            final(self)@ == old(self)@.upserted(info@, now),
            r == !old(self)@.peers.contains_key(info@.id),
    {
        let ghost before = self@;
        let ghost model = info@;
        let id = info.id.clone();
        let known: bool = self.peers.position(id.0.as_str()).is_some();
        let state = PeerState { info, last_seen: now, failure_count: 0, backoff_until: None };
        self.peers.insert(id.0.as_str(), state);
        proof {
            assert(state@ =~= PeerStateView::fresh(model, now));
            assert(self@ =~= before.upserted(model, now));
        }
        !known
    }

    /// Insert or update a peer record; returns true if it was newly added.
    pub fn upsert(&mut self, info: PeerInfo) -> (r: bool)
        ensures
            final(self).clock() == old(self).clock(),
            exists|now: Instant| #[trigger]
                clock::may_show(old(self).clock(), now) && final(self)@ == old(self)@.upserted(
                    info@,
                    now,
                ),
            r == !old(self)@.peers.contains_key(info@.id),
    {
        let now = self.clock.now();
        assert(clock::may_show(self.clock(), now));
        self.upsert_at(info, now)
    }

    /// Merge a Hello message into membership, resetting backoff/last_seen.
    pub fn merge_hello_at(&mut self, hello: Hello, now: Instant) -> (r: bool)
        ensures
            final(self).clock() == old(self).clock(),
            final(self)@ == old(self)@.upserted(introduced(hello@), now),
            r == !old(self)@.peers.contains_key(hello@.peer.id),
    {
        let mut info = hello.peer;
        info.subscriptions = hello.subscriptions;
        assert(info@ =~= introduced(hello@));
        self.upsert_at(info, now)
    }

    /// Merge a Hello message into membership, resetting backoff/last_seen.
    pub fn merge_hello(&mut self, hello: Hello) -> (r: bool)
        ensures
            final(self).clock() == old(self).clock(),
            exists|now: Instant| #[trigger]
                clock::may_show(old(self).clock(), now) && final(self)@ == old(self)@.upserted(
                    introduced(hello@),
                    now,
                ),
            r == !old(self)@.peers.contains_key(hello@.peer.id),
    {
        let now = self.clock.now();
        assert(clock::may_show(self.clock(), now));
        self.merge_hello_at(hello, now)
    }

    /// Apply a summary advert from a known peer, storing it in their record.
    pub fn apply_summary_advert_at(&mut self, from: &PeerId, advert: SummaryAdvert, now: Instant)
        ensures
            final(self).clock() == old(self).clock(),
            final(self)@ == if old(self)@.peers.contains_key(from@) {
                old(self)@.with_state(
                    from@,
                    old(self)@.peers[from@].advertised(advert@, now),
                )
            } else {
                old(self)@
            },
    {
        let ghost before = self@;
        let ghost model = advert@;
        if let Some(i) = self.peers.position(from.0.as_str()) {
            let state = self.peers.value_at(i);
            let next = PeerState {
                info: state.info.clone().with_advert(advert),
                last_seen: now,
                failure_count: state.failure_count,
                backoff_until: state.backoff_until,
            };
            assert(next@ =~= before.peers[from@].advertised(model, now));
            let _ = self.peers.replace_at(i, next);
            assert(self@ =~= before.with_state(
                from@,
                before.peers[from@].advertised(model, now),
            ));
        }
    }

    /// Apply a summary advert from a known peer, storing it in their record.
    pub fn apply_summary_advert(&mut self, from: &PeerId, advert: SummaryAdvert)
        ensures
            final(self).clock() == old(self).clock(),
            exists|now: Instant| #[trigger]
                clock::may_show(old(self).clock(), now) && final(self)@ == if old(self)@.peers.contains_key(from@) {
                    old(self)@.with_state(
                        from@,
                        old(self)@.peers[from@].advertised(advert@, now),
                    )
                } else {
                    old(self)@
                },
    {
        let now = self.clock.now();
        assert(clock::may_show(self.clock(), now));
        self.apply_summary_advert_at(from, advert, now);
    }

    /// Mark a peer as seen (resets failures/backoff).
    pub fn mark_seen_at(&mut self, id: &PeerId, now: Instant)
        ensures
            final(self).clock() == old(self).clock(),
            final(self)@ == if old(self)@.peers.contains_key(id@) {
                old(self)@.with_state(id@, old(self)@.peers[id@].seen(now))
            } else {
                old(self)@
            },
    {
        let ghost before = self@;
        if let Some(i) = self.peers.position(id.0.as_str()) {
            let state = self.peers.value_at(i);
            let next = PeerState {
                info: state.info.clone(),
                last_seen: now,
                failure_count: 0,
                backoff_until: None,
            };
            assert(next@ =~= before.peers[id@].seen(now));
            let _ = self.peers.replace_at(i, next);
            assert(self@ =~= before.with_state(id@, before.peers[id@].seen(now)));
        }
    }

    /// Mark a peer as seen now (resets failures/backoff).
    pub fn mark_seen(&mut self, id: &PeerId)
        ensures
            final(self).clock() == old(self).clock(),
            exists|now: Instant| #[trigger]
                clock::may_show(old(self).clock(), now) && final(self)@ == if old(self)@.peers.contains_key(id@) {
                    old(self)@.with_state(id@, old(self)@.peers[id@].seen(now))
                } else {
                    old(self)@
                },
    {
        let now = self.clock.now();
        assert(clock::may_show(self.clock(), now));
        self.mark_seen_at(id, now);
    }

    /// Increment failure count and set an exponential backoff window.
    pub fn mark_failure_at(&mut self, id: &PeerId, now: Instant)
        requires
            old(self)@.base_backoff <= LONGEST_NANOS,
        ensures
            final(self).clock() == old(self).clock(),
            final(self)@ == if old(self)@.peers.contains_key(id@) {
                old(self)@.with_state(
                    id@,
                    old(self)@.peers[id@].failed(now, old(self)@.base_backoff),
                )
            } else {
                old(self)@
            },
    {
        let ghost before = self@;
        if let Some(i) = self.peers.position(id.0.as_str()) {
            let state = self.peers.value_at(i);
            let failures: u32 = if state.failure_count == u32::MAX {
                u32::MAX
            } else {
                state.failure_count + 1
            };
            let shift: u32 = if failures - 1 > 16 {
                16
            } else {
                failures - 1
            };
            let backoff = self.base_backoff.saturating_mul(power_of_two(shift));
            let nanos: u128 = if backoff.nanos < self.base_backoff.nanos {
                self.base_backoff.nanos
            } else {
                backoff.nanos
            };
            let next = PeerState {
                info: state.info.clone(),
                last_seen: state.last_seen,
                failure_count: failures,
                backoff_until: Some(now.nanos as u128 + nanos),
            };
            assert(next@ =~= before.peers[id@].failed(now, before.base_backoff));
            let _ = self.peers.replace_at(i, next);
            assert(self@ =~= before.with_state(
                id@,
                before.peers[id@].failed(now, before.base_backoff),
            ));
        }
    }

    /// Increment failure count and set an exponential backoff window.
    pub fn mark_failure(&mut self, id: &PeerId)
        requires
            old(self)@.base_backoff <= LONGEST_NANOS,
        ensures
            final(self).clock() == old(self).clock(),
            exists|now: Instant| #[trigger]
                clock::may_show(old(self).clock(), now) && final(self)@ == if old(self)@.peers.contains_key(id@) {
                    old(self)@.with_state(
                        id@,
                        old(self)@.peers[id@].failed(now, old(self)@.base_backoff),
                    )
                } else {
                    old(self)@
                },
    {
        let now = self.clock.now();
        assert(clock::may_show(self.clock(), now));
        self.mark_failure_at(id, now);
    }

    /// Remove peers whose last_seen exceeds the expiry window; returns removed ids.
    pub fn expire_at(&mut self, now: Instant) -> (r: Vec<PeerId>)
        ensures
            final(self).clock() == old(self).clock(),
            final(self)@ == old(self)@.expired(now),
            lists::views(r@) == old(self)@.overdue(now),
    {
        let ghost before = self@;
        let n: usize = self.peers.len();
        let ghost ids = self.peers.spec_keys();
        let ghost current = |id: Seq<char>| before.peers[id].is_current(now, before.expiry);
        let ghost late = |id: Seq<char>| !before.peers[id].is_current(now, before.expiry);
        let mut kept: Table<PeerState> = Table::new();
        let mut removed: Vec<PeerId> = Vec::new();
        for i in 0..n
            invariant
                n == ids.len(),
                ids == self.peers.spec_keys(),
                ids.no_duplicates(),
                self@ == before,
                before.ids == ids,
                current == |id: Seq<char>| before.peers[id].is_current(now, before.expiry),
                late == |id: Seq<char>| !before.peers[id].is_current(now, before.expiry),
                forall|j: int| 0 <= j < n ==> before.peers.contains_key(#[trigger] ids[j]),
                kept.spec_keys() == ids.subrange(0, i as int).filter(current),
                lists::views(removed@) == ids.subrange(0, i as int).filter(late),
                forall|k: Seq<char>| #[trigger]
                    kept.map().contains_key(k) ==> before.peers.contains_key(k) && current(k)
                        && kept.map()[k]@ == before.peers[k],
                forall|j: int|
                    0 <= j < i && current(ids[j]) ==> kept.map().contains_key(#[trigger] ids[j]),
        {
            let id = self.peers.key_at(i);
            let state = self.peers.value_at(i);
            let ghost key = ids[i as int];
            proof {
                assert(before.peers[key] == state@);
                let done = ids.subrange(0, i as int);
                assert(ids.subrange(0, i + 1) == done.push(key));
                done.lemma_filter_push(key, current);
                done.lemma_filter_push(key, late);
                if done.filter(current).contains(key) {
                    let w = choose|w: int|
                        0 <= w < done.filter(current).len() && done.filter(current)[w] == key;
                    done.lemma_filter_contains_rev(current, key);
                    assert(done.contains(key));
                    let j = choose|j: int| 0 <= j < done.len() && done[j] == key;
                    assert(ids[j] == key);
                }
            }
            if now.duration_since(state.last_seen).nanos <= self.expiry.nanos {
                let copy = PeerState {
                    info: state.info.clone(),
                    last_seen: state.last_seen,
                    failure_count: state.failure_count,
                    backoff_until: state.backoff_until,
                };
                assert(copy@ =~= state@);
                assert(current(key));
                kept.insert(id, copy);
            } else {
                assert(!current(key));
                removed.push(PeerId::new(id));
            }
        }
        self.peers = kept;
        proof {
            assert(ids.subrange(0, n as int) =~= ids);
            assert forall|k: Seq<char>| #[trigger]
                before.expired(now).peers.contains_key(k) implies self.peers.map().contains_key(
                k,
            ) by {
                assert(before.peers.contains_key(k));
                assert(ids.contains(k));
                let j = choose|j: int| 0 <= j < ids.len() && ids[j] == k;
                assert(current(ids[j]));
            }
            assert(self@.peers =~= before.expired(now).peers);
            assert(self@ =~= before.expired(now));
        }
        removed
    }

    /// Remove peers whose last_seen exceeds the expiry window; returns removed ids.
    pub fn expire(&mut self) -> (r: Vec<PeerId>)
        ensures
            final(self).clock() == old(self).clock(),
            exists|now: Instant| #[trigger]
                clock::may_show(old(self).clock(), now) && final(self)@ == old(self)@.expired(
                    now,
                ) && lists::views(r@)
                    == old(self)@.overdue(now),
    {
        let now = self.clock.now();
        assert(clock::may_show(self.clock(), now));
        self.expire_at(now)
    }

    /// Whether a peer is backed off from.
    pub fn is_backing_off_at(&self, id: &PeerId, now: Instant) -> (r: bool)
        ensures
            r == (self@.peers.contains_key(id@) && self@.peers[id@].backs_off(now)),
    {
        match self.peers.get(id.0.as_str()) {
            Some(state) => match state.backoff_until {
                Some(until) => until > now.nanos as u128,
                None => false,
            },
            None => false,
        }
    }

    /// Whether a peer is backed off from now.
    pub fn is_backing_off(&self, id: &PeerId) -> (r: bool)
        ensures
            exists|now: Instant| #[trigger]
                clock::may_show(self.clock(), now) && r == (self@.peers.contains_key(id@) && self@.peers[id@].backs_off(now)),
    {
        let now = self.clock.now();
        assert(clock::may_show(self.clock(), now));
        self.is_backing_off_at(id, now)
    }

    /// What is known of all the peers.
    pub fn peers(&self) -> (r: Vec<PeerInfo>)
        ensures
            lists::views(r@) == self@.infos(self@.ids),
    {
        let n: usize = self.peers.len();
        let ghost ids = self@.ids;
        let mut out: Vec<PeerInfo> = Vec::new();
        for i in 0..n
            invariant
                n == ids.len(),
                ids == self@.ids,
                ids == self.peers.spec_keys(),
                lists::views(out@) == self@.infos(ids).subrange(0, i as int),
        {
            out.push(self.peers.value_at(i).info.clone());
            assert(lists::views(out@) =~= self@.infos(ids).subrange(0, i + 1));
        }
        assert(lists::views(out@) =~= self@.infos(ids));
        out
    }

    /// What is known of the peers that are not backed off from.
    pub fn eligible_peers_at(&self, now: Instant) -> (r: Vec<PeerInfo>)
        ensures
            lists::views(r@) == self@.infos(self@.eligible(now)),
    {
        let n: usize = self.peers.len();
        let ghost ids = self@.ids;
        let ghost p = |id: Seq<char>| !self@.peers[id].backs_off(now);
        let mut out: Vec<PeerInfo> = Vec::new();
        assert(lists::views(out@) =~= self@.infos(ids.subrange(0, 0).filter(p)));
        for i in 0..n
            invariant
                n == ids.len(),
                ids == self@.ids,
                ids == self.peers.spec_keys(),
                p == |id: Seq<char>| !self@.peers[id].backs_off(now),
                lists::views(out@) == self@.infos(ids.subrange(0, i as int).filter(p)),
        {
            let state = self.peers.value_at(i);
            let ghost key = ids[i as int];
            proof {
                let done = ids.subrange(0, i as int);
                assert(ids.subrange(0, i + 1) == done.push(key));
                done.lemma_filter_push(key, p);
                assert(self@.infos(done.filter(p).push(key)) =~= self@.infos(done.filter(p)).push(
                    self@.peers[key].info,
                ));
            }
            let resting: bool = match state.backoff_until {
                Some(until) => until > now.nanos as u128,
                None => false,
            };
            if !resting {
                out.push(state.info.clone());
            }
        }
        assert(ids.subrange(0, n as int) =~= ids);
        out
    }

    /// What is known of the peers that are not backed off from now.
    pub fn eligible_peers(&self) -> (r: Vec<PeerInfo>)
        ensures
            exists|now: Instant| #[trigger]
                clock::may_show(self.clock(), now) && lists::views(r@) == self@.infos(
                    self@.eligible(now),
                ),
    {
        let now = self.clock.now();
        assert(clock::may_show(self.clock(), now));
        self.eligible_peers_at(now)
    }

    pub fn len(&self) -> (r: usize)
        ensures
            r == self@.ids.len(),
    {
        self.peers.len()
    }

    pub fn is_empty(&self) -> (r: bool)
        ensures
            r == (self@.ids.len() == 0),
    {
        self.peers.len() == 0
    }
}

/// What a handshake makes known of a peer.
pub open spec fn introduced(hello: HelloView) -> PeerView {
    PeerView { subscriptions: hello.subscriptions, ..hello.peer }
}

/// Merging a second handshake of a peer keeps one record of it, the later one.
pub proof fn second_hello_updates(
    m: MembershipView,
    first: HelloView,
    second: HelloView,
    t: Instant,
    u: Instant,
)
    requires
        first.peer.id == second.peer.id,
    ensures
        ({
            let once = m.upserted(introduced(first), t);
            let twice = once.upserted(introduced(second), u);
            &&& twice.ids == once.ids
            &&& twice.peers[second.peer.id].info == introduced(second)
            &&& first == second && t == u ==> twice == once
        }),
{
    let id = first.peer.id;
    let once = m.upserted(introduced(first), t);
    let twice = once.upserted(introduced(second), u);
    assert(once.ids.contains(id)) by {
        if !m.ids.contains(id) {
            assert(once.ids.last() == id);
        }
    }
    assert(twice.peers =~= m.peers.insert(id, PeerStateView::fresh(introduced(second), u)));
}

/// A failure backs off for at least the base, and seeing the peer ends the backoff.
pub proof fn failure_backs_off_until_seen(p: PeerStateView, now: Instant, later: Instant, base: u128)
    requires
        0 < base <= LONGEST_NANOS,
    ensures
        p.failed(now, base).backs_off(now),
        later.nanos < now.nanos + base ==> p.failed(now, base).backs_off(later),
        !p.failed(now, base).seen(later).backs_off(later),
{
    powers_grow(0, 16);
    let failures = p.failed(now, base).failure_count;
    assert(backoff_nanos(base, failures) >= base);
    assert(backoff_nanos(base, failures) <= LONGEST_NANOS);
}

/// No peer that is left after expiry is overdue, and every peer is either left or reported.
pub proof fn expiry_splits_peers(m: MembershipView, now: Instant, id: Seq<char>)
    requires
        m.peers.contains_key(id),
        m.ids.contains(id),
    ensures
        m.expired(now).peers.contains_key(id) == m.peers[id].is_current(now, m.expiry),
        m.overdue(now).contains(id) == !m.peers[id].is_current(now, m.expiry),
{
    let late = |i: Seq<char>| !m.peers[i].is_current(now, m.expiry);
    if !m.peers[id].is_current(now, m.expiry) {
        let i = choose|i: int| 0 <= i < m.ids.len() && m.ids[i] == id;
        m.ids.lemma_filter_contains(late, i);
    }
    if m.overdue(now).contains(id) {
        let w = choose|w: int| 0 <= w < m.overdue(now).len() && m.overdue(now)[w] == id;
        m.ids.lemma_filter_pred(late, w);
    }
}

}
