//! What is known of other nodes and of what they hold.

use vstd::prelude::*;

use crate::bloom;
use crate::bloom::BloomView;
use crate::clock::Instant;
use crate::membership;
use crate::membership::{MembershipView, PeerStateView};
use crate::summary;
use crate::summary::AdvertView;
use crate::swarm::{HelloView, PeerView};

verus! {

/// The time that has passed since an instant is the difference, and none if it lies ahead.
pub proof fn time_passes(now: Instant, then: Instant)
    ensures
        now.nanos >= then.nanos ==> now.since(then) == now.nanos - then.nanos,
        now.nanos <= then.nanos ==> now.since(then) == 0,
{
}

/// A handshake makes known of its sender what it says, and what it subscribes to is what the
/// handshake says, not the record in it; the sender is seen now, without failures. What is
/// known of other peers stays, and so does their order.
pub proof fn hello_makes_its_sender_known(
    m: MembershipView,
    hello: HelloView,
    now: Instant,
    other: Seq<char>,
)
    requires
        other != hello.peer.id,
    ensures
        ({
            let after = m.upserted(membership::introduced(hello), now);
            let id = hello.peer.id;
            &&& after.peers.contains_key(id)
            &&& after.peers[id].info.id == id
            &&& after.peers[id].info.subscriptions == hello.subscriptions
            &&& after.peers[id].info == (PeerView {
                subscriptions: hello.subscriptions,
                ..hello.peer
            })
            &&& after.peers[id].last_seen == now
            &&& after.peers[id].failure_count == 0
            &&& after.peers[id].backoff_until is None
            &&& after.ids.contains(id)
            &&& !m.ids.contains(id) ==> after.ids == m.ids.push(id)
            &&& m.ids.contains(id) ==> after.ids == m.ids
            &&& after.peers.get(other) == m.peers.get(other)
            &&& after.expiry == m.expiry && after.base_backoff == m.base_backoff
        }),
{
    let after = m.upserted(membership::introduced(hello), now);
    if !m.ids.contains(hello.peer.id) {
        assert(after.ids.last() == hello.peer.id);
    }
}

/// A peer is dropped exactly if it was last seen longer ago than the expiry window, and those
/// that are dropped are named.
pub proof fn peers_expire(m: MembershipView, now: Instant, id: Seq<char>)
    requires
        m.ids.contains(id) <==> m.peers.contains_key(id),
    ensures
        ({
            let is_late = now.nanos > m.peers[id].last_seen.nanos && now.nanos
                - m.peers[id].last_seen.nanos > m.expiry;
            &&& m.expired(now).peers.contains_key(id) <==> m.peers.contains_key(id) && !is_late
            &&& m.expired(now).ids.contains(id) <==> m.ids.contains(id) && !is_late
            &&& m.overdue(now).contains(id) <==> m.ids.contains(id) && is_late
            &&& m.expired(now).peers.contains_key(id) ==> m.expired(now).peers[id] == m.peers[id]
        }),
{
    let current = |x: Seq<char>| m.peers[x].is_current(now, m.expiry);
    let late = |x: Seq<char>| !m.peers[x].is_current(now, m.expiry);
    let left = m.expired(now).ids;
    let gone = m.overdue(now);
    if m.ids.contains(id) {
        let i = choose|i: int| 0 <= i < m.ids.len() && m.ids[i] == id;
        if current(id) {
            m.ids.lemma_filter_contains(current, i);
        } else {
            m.ids.lemma_filter_contains(late, i);
        }
    }
    if left.contains(id) {
        let i = choose|i: int| 0 <= i < left.len() && left[i] == id;
        m.ids.lemma_filter_pred(current, i);
        m.ids.lemma_filter_contains_rev(current, id);
    }
    if gone.contains(id) {
        let i = choose|i: int| 0 <= i < gone.len() && gone[i] == id;
        m.ids.lemma_filter_pred(late, i);
        m.ids.lemma_filter_contains_rev(late, id);
    }
}

/// A peer is left alone after a failure: for the base time after the first, for twice as long
/// after every further one, up to sixteen doublings; seeing it again ends that, and only that
/// or the end of the time does.
pub proof fn failures_double_the_rest(p: PeerStateView, now: Instant, base: u128, later: Instant)
    requires
        base <= 0xffff_ffff_ffff_ffff,
        p.failure_count < u32::MAX,
    ensures
        ({
            let once = p.failed(now, base);
            let twice = once.failed(now, base);
            &&& once.failure_count == p.failure_count + 1
            &&& once.backoff_until is Some
            &&& once.backs_off(later) <==> later.nanos < once.backoff_until->0
            &&& p.failure_count == 0 ==> once.backoff_until->0 == now.nanos + base
            &&& p.failure_count < 16 ==> twice.backoff_until->0 - now.nanos == 2 * (
            once.backoff_until->0 - now.nanos)
            &&& 16 <= p.failure_count < u32::MAX - 1 ==> twice.backoff_until == once.backoff_until
            &&& once.last_seen == p.last_seen && once.info == p.info
            &&& !once.seen(later).backs_off(now)
            &&& once.seen(later).failure_count == 0
            &&& once.seen(later).last_seen == later
            &&& once.seen(later).info == p.info
        }),
{
    let f = p.failure_count;
    if f < 16 {
        let a = membership::two_to(f as nat);
        let b = membership::two_to((f + 1) as nat);
        powers_are_bounded(f as nat);
        powers_are_bounded((f + 1) as nat);
        assert(b == 2 * a) by {
            reveal_with_fuel(membership::two_to, 2);
        }
        assert(base * b == 2 * (base * a)) by (nonlinear_arith)
            requires
                b == 2 * a,
        ;
        assert(base * b <= 0xffff_ffff_ffff_ffff * 65536) by (nonlinear_arith)
            requires
                base <= 0xffff_ffff_ffff_ffff,
                b <= 65536,
        ;
        assert(base * a >= base) by (nonlinear_arith)
            requires
                a >= 1,
        ;
        assert(base * b >= base) by (nonlinear_arith)
            requires
                b >= 1,
        ;
        assert(membership::backoff_nanos(base, (f + 1) as u32) == base * a);
        assert(membership::backoff_nanos(base, (f + 2) as u32) == base * b);
        if f == 0 {
            assert(a == 1);
            assert(base * a == base) by (nonlinear_arith)
                requires
                    a == 1,
            ;
        }
    } else {
        let a = membership::two_to(16);
        powers_are_bounded(16);
        assert(base * a <= 0xffff_ffff_ffff_ffff * 65536) by (nonlinear_arith)
            requires
                base <= 0xffff_ffff_ffff_ffff,
                a <= 65536,
        ;
        assert(base * a >= base) by (nonlinear_arith)
            requires
                a >= 1,
        ;
        assert(membership::backoff_nanos(base, (f + 1) as u32) == base * a);
    }
}

proof fn powers_are_bounded(n: nat)
    requires
        n <= 16,
    ensures
        1 <= membership::two_to(n) <= 65536,
{
    reveal_with_fuel(membership::two_to, 18);
}

/// The peers that may be called are those that are not backed off from.
pub proof fn rested_peers_are_eligible(m: MembershipView, now: Instant, id: Seq<char>)
    ensures
        m.eligible(now).contains(id) <==> m.ids.contains(id) && (m.peers[id].backoff_until is None
            || m.peers[id].backoff_until->0 <= now.nanos),
{
    let p = |x: Seq<char>| !m.peers[x].backs_off(now);
    let r = m.eligible(now);
    if m.ids.contains(id) && p(id) {
        let i = choose|i: int| 0 <= i < m.ids.len() && m.ids[i] == id;
        m.ids.lemma_filter_contains(p, i);
    }
    if r.contains(id) {
        let i = choose|i: int| 0 <= i < r.len() && r[i] == id;
        m.ids.lemma_filter_pred(p, i);
        m.ids.lemma_filter_contains_rev(p, id);
    }
}

/// An advert of a peer takes the place of those with its digest and world, and comes last; the
/// peer's other adverts stay, and it is seen now.
pub proof fn advert_takes_the_place_of_its_like(
    p: PeerStateView,
    advert: AdvertView,
    now: Instant,
    a: AdvertView,
)
    ensures
        ({
            let after = p.advertised(advert, now);
            let adverts = after.info.summary_adverts;
            &&& adverts.last() == advert
            &&& adverts.len() > 0
            &&& a.digest == advert.digest && a.world == advert.world && a != advert
                ==> !adverts.contains(a)
            &&& (a.digest != advert.digest || a.world != advert.world) ==> (adverts.contains(a)
                <==> p.info.summary_adverts.contains(a))
            &&& after.last_seen == now
            &&& after.failure_count == p.failure_count
            &&& after.backoff_until == p.backoff_until
            &&& after.info.id == p.info.id
            &&& after.info.subscriptions == p.info.subscriptions
        }),
{
    let had = p.info.summary_adverts;
    let q = |x: AdvertView| x.digest != advert.digest || x.world != advert.world;
    let kept = had.filter(q);
    let adverts = kept.push(advert);
    assert(adverts == p.advertised(advert, now).info.summary_adverts);
    if adverts.contains(a) && a != advert {
        let i = choose|i: int| 0 <= i < adverts.len() && adverts[i] == a;
        assert(kept[i] == a);
        had.lemma_filter_pred(q, i);
        had.lemma_filter_contains_rev(q, a);
    }
    if had.contains(a) && q(a) {
        let i = choose|i: int| 0 <= i < had.len() && had[i] == a;
        had.lemma_filter_contains(q, i);
        let k = choose|k: int| 0 <= k < kept.len() && kept[k] == a;
        assert(adverts[k] == a);
    }
}

/// In a catalog an advert takes the place of the first with its digest, or comes last where
/// there is none; the other adverts stay where they are.
pub proof fn catalog_replaces_by_digest(adverts: Seq<AdvertView>, advert: AdvertView, k: int)
    requires
        0 <= k <= adverts.len(),
        k < adverts.len() ==> adverts[k].digest == advert.digest,
        forall|i: int| 0 <= i < k ==> (#[trigger] adverts[i]).digest != advert.digest,
    ensures
        k < adverts.len() ==> summary::upserted(adverts, advert) == adverts.update(k, advert),
        k == adverts.len() ==> summary::upserted(adverts, advert) == adverts.push(advert),
    decreases adverts.len(),
{
    if adverts.len() > 0 && k > 0 {
        let rest = adverts.drop_first();
        assert forall|i: int| 0 <= i < k - 1 implies (#[trigger] rest[i]).digest
            != advert.digest by {
            assert(rest[i] == adverts[i + 1]);
        }
        assert(adverts[0].digest != advert.digest);
        catalog_replaces_by_digest(rest, advert, k - 1);
        if k < adverts.len() {
            assert(seq![adverts[0]] + rest.update(k - 1, advert) =~= adverts.update(k, advert));
        } else {
            assert(seq![adverts[0]] + rest.push(advert) =~= adverts.push(advert));
        }
    } else if adverts.len() == 0 {
        assert(seq![advert] =~= adverts.push(advert));
    }
}

/// An advert is put among those of its own world.
pub proof fn advert_goes_to_its_world(
    catalog: Map<Seq<char>, Seq<AdvertView>>,
    advert: AdvertView,
    other: Seq<char>,
)
    requires
        other != advert.world,
    ensures
        ({
            let after = summary::with_advert(catalog, advert);
            &&& after.contains_key(advert.world)
            &&& after[advert.world].contains(advert)
            &&& after.get(other) == catalog.get(other)
            &&& catalog.contains_key(advert.world) ==> after[advert.world] == summary::upserted(
                catalog[advert.world],
                advert,
            )
            &&& !catalog.contains_key(advert.world) ==> after[advert.world] == seq![advert]
        }),
{
    let had = summary::adverts_of(catalog, advert.world);
    upserted_contains(had, advert);
}

proof fn upserted_contains(adverts: Seq<AdvertView>, advert: AdvertView)
    ensures
        summary::upserted(adverts, advert).contains(advert),
    decreases adverts.len(),
{
    let r = summary::upserted(adverts, advert);
    if adverts.len() == 0 || adverts[0].digest == advert.digest {
        assert(r[0] == advert);
    } else {
        let rest = summary::upserted(adverts.drop_first(), advert);
        upserted_contains(adverts.drop_first(), advert);
        let i = choose|i: int| 0 <= i < rest.len() && rest[i] == advert;
        assert(r[i + 1] == advert);
    }
}

/// A filter made from some ids seems to hold each of them. It holds no more bits than their
/// positions, so an id one of whose positions is none of theirs is missing from it, and an
/// empty filter misses every id.
pub proof fn filter_holds_the_positions_of_its_ids(
    m: u32,
    k: u32,
    ids: Seq<Seq<char>>,
    id: Seq<char>,
    i: u32,
)
    requires
        k > 0,
        i < k,
    ensures
        ids.contains(id) ==> BloomView::empty(m, k).with_ids(ids).has(id),
        (forall|j: int, n: u32|
            0 <= j < ids.len() && n < k ==> #[trigger] bloom::position_of(ids[j], n, m)
                != bloom::position_of(id, i, m)) ==> !BloomView::empty(m, k).with_ids(ids).has(id),
        !BloomView::empty(m, k).has(id),
        BloomView::empty(m, k).with_ids(ids).k == k,
        BloomView::empty(m, k).with_ids(ids).m == m,
{
    let full = BloomView::empty(m, k).with_ids(ids);
    filter_keeps_its_size(BloomView::empty(m, k), ids);
    if ids.contains(id) {
        let j = choose|j: int| 0 <= j < ids.len() && ids[j] == id;
        bloom::members_are_not_missing(BloomView::empty(m, k), ids);
        let p = |x: Seq<char>| !full.has(x);
        if !full.has(id) {
            ids.lemma_filter_contains(p, j);
            assert(bloom::missing_from(full, ids).len() == 0);
        }
    }
    let p = bloom::position_of(id, i, m);
    assert(!BloomView::empty(m, k).set.contains(p as int));
    if full.has(id) {
        assert(full.set.contains(p as int));
        bits_come_from_ids(BloomView::empty(m, k), ids, p as int);
    }
}

proof fn filter_keeps_its_size(b: BloomView, ids: Seq<Seq<char>>)
    ensures
        b.with_ids(ids).k == b.k,
        b.with_ids(ids).m == b.m,
    decreases ids.len(),
{
    if ids.len() > 0 {
        filter_keeps_its_size(b, ids.drop_last());
    }
}

proof fn bits_come_from_ids(b: BloomView, ids: Seq<Seq<char>>, p: int)
    requires
        b.with_ids(ids).set.contains(p),
    ensures
        b.set.contains(p) || exists|j: int, n: u32|
            0 <= j < ids.len() && n < b.k && #[trigger] bloom::position_of(ids[j], n, b.m) == p,
    decreases ids.len(),
{
    if ids.len() > 0 {
        let rest = ids.drop_last();
        filter_keeps_its_size(b, rest);
        if b.with_ids(rest).set.contains(p) {
            bits_come_from_ids(b, rest, p);
            if !b.set.contains(p) {
                let (j, n) = choose|j: int, n: u32|
                    0 <= j < rest.len() && n < b.k && #[trigger] bloom::position_of(
                        rest[j],
                        n,
                        b.m,
                    ) == p;
                assert(ids[j] == rest[j]);
                assert(bloom::position_of(ids[j], n, b.m) == p);
            }
        } else {
            let n = choose|n: u32| n < b.k && p == #[trigger] bloom::position_of(
                ids.last(),
                n,
                b.m,
            );
            assert(bloom::position_of(ids[ids.len() - 1], n, b.m) == p);
        }
    }
}

/// The positions of an id in a filter lie within it, and start at the first hash.
pub proof fn positions_lie_within_the_filter(id: Seq<char>, i: u32, m: u32)
    requires
        m > 0,
    ensures
        bloom::position_of(id, i, m) < m,
        bloom::position_of(id, 0, m) == bloom::sip13(0, 1, vstd::utf8::encode_utf8(id)) % (m as u64),
{
    let h2 = bloom::hashes_of(id).1;
    assert(0u64.wrapping_mul(h2) == 0) by {
        assert(0 * h2 == 0) by (nonlinear_arith);
    }
}

/// Of some ids those are missing from a filter that it does not hold, in their order.
pub proof fn missing_ids_are_not_held(b: BloomView, ids: Seq<Seq<char>>, id: Seq<char>)
    ensures
        bloom::missing_from(b, ids).contains(id) <==> ids.contains(id) && exists|i: u32|
            i < b.k && !b.set.contains(#[trigger] bloom::position_of(id, i, b.m) as int),
{
    let p = |x: Seq<char>| !b.has(x);
    let r = bloom::missing_from(b, ids);
    if ids.contains(id) && !b.has(id) {
        let i = choose|i: int| 0 <= i < ids.len() && ids[i] == id;
        ids.lemma_filter_contains(p, i);
    }
    if r.contains(id) {
        let i = choose|i: int| 0 <= i < r.len() && r[i] == id;
        ids.lemma_filter_pred(p, i);
        ids.lemma_filter_contains_rev(p, id);
    }
}

/// The bits of a filter are those of its bytes, the lowest first.
pub proof fn bits_are_in_their_bytes(bits: Seq<u8>, byte: int, bit: u8)
    requires
        0 <= byte,
        bit < 8,
    ensures
        byte < bits.len() ==> (bloom::bit_at(bits, 8 * byte + bit) <==> (bits[byte] >> bit) & 1
            == 1),
        byte >= bits.len() ==> !bloom::bit_at(bits, 8 * byte + bit),
{
}

/// A filter with hash functions needs at least one bit, and bytes for all of its bits; one
/// without needs none.
pub proof fn bytes_hold_the_bits(bytes: int, k: u32, m: u32)
    ensures
        bloom::go_together(bytes, 0, m),
        k > 0 ==> (bloom::go_together(bytes, k, m) <==> m > 0 && 8 * bytes >= m),
{
}

/// The positions of an id are told apart by two hashes of it, under different keys.
pub proof fn id_has_two_hashes(id: Seq<char>)
    ensures
        bloom::hashes_of(id).0 == bloom::sip13(0, 1, vstd::utf8::encode_utf8(id)),
        bloom::hashes_of(id).1 == bloom::sip13(2, 3, vstd::utf8::encode_utf8(id)),
{
}

}
