//! Which nodes get which atoms, and which of those that arrive are taken in.

use vstd::prelude::*;
use vstd::string::*;

use crate::atom::AtomView;
use crate::clock::Instant;
use crate::ids;
use crate::message;
use crate::message::{BatchView, CarrierView, MessageView, SwarmEnvelope, SwarmMessage};
use crate::nats;
use crate::nats::{BusCall, RequestError, TransportView};
use crate::replication;
use crate::replication::{ReplayView, WorldAccessPolicy};
use crate::replicator;
use crate::replicator::ReplicatorView;
use crate::subscriptions;
use crate::subscriptions::{RecordView, SavedView, SubscriptionsView};
use crate::swarm::SwarmError;
use crate::wire::Wire;
use crate::world_events;
use crate::world_events::{AtomEventBatch, BroadcasterView, EventBatchView, EventView};

verus! {

/// A list of patterns matches a world exactly where one of them does, at whatever position;
/// so a further pattern, put first or last, never makes the list lose a world, and gains it
/// the worlds that this pattern matches. This holds of what a node wants and of what is known
/// of other nodes.
pub proof fn any_pattern_counts(
    s: ReplicatorView,
    last_seen: Instant,
    patterns: Seq<Seq<char>>,
    p: Seq<char>,
    world: Seq<char>,
    i: int,
)
    ensures
        0 <= i < patterns.len() && replication::pattern_matches(patterns[i], world)
            ==> subscriptions::one_matches(patterns, world),
        subscriptions::one_matches(patterns, world) ==> exists|j: int|
            0 <= j < patterns.len() && replication::pattern_matches(#[trigger] patterns[j], world),
        subscriptions::one_matches(patterns.push(p), world) == (subscriptions::one_matches(
            patterns,
            world,
        ) || replication::pattern_matches(p, world)),
        subscriptions::one_matches(seq![p] + patterns, world) == (subscriptions::one_matches(
            patterns,
            world,
        ) || replication::pattern_matches(p, world)),
        !subscriptions::one_matches(Seq::empty(), world),
        0 <= i < s.self_patterns.len() && replication::pattern_matches(s.self_patterns[i], world)
            ==> s.wants(world),
        (forall|j: int|
            0 <= j < s.self_patterns.len() ==> !replication::pattern_matches(
                #[trigger] s.self_patterns[j],
                world,
            )) ==> !s.wants(world),
        0 <= i < patterns.len() && replication::pattern_matches(patterns[i], world) ==> (
        RecordView { patterns, last_seen }).wants(world),
        (forall|j: int|
            0 <= j < patterns.len() ==> !replication::pattern_matches(
                #[trigger] patterns[j],
                world,
            )) ==> !(RecordView { patterns, last_seen }).wants(world),
{
    let back = patterns.push(p);
    let front = seq![p] + patterns;
    assert(back[patterns.len() as int] == p);
    assert(front[0] == p);
    if subscriptions::one_matches(patterns, world) {
        let j = choose|j: int|
            0 <= j < patterns.len() && replication::pattern_matches(#[trigger] patterns[j], world);
        assert(back[j] == patterns[j]);
        assert(front[j + 1] == patterns[j]);
    }
    if subscriptions::one_matches(back, world) {
        let j = choose|j: int|
            0 <= j < back.len() && replication::pattern_matches(#[trigger] back[j], world);
        if j < patterns.len() {
            assert(patterns[j] == back[j]);
        }
    }
    if subscriptions::one_matches(front, world) {
        let j = choose|j: int|
            0 <= j < front.len() && replication::pattern_matches(#[trigger] front[j], world);
        if j > 0 {
            assert(patterns[j - 1] == front[j]);
        }
    }
}

/// `*` matches every world; a name and `*` every world that the name starts, a colon at the
/// end of the name aside; and any other pattern the world of that name alone.
pub proof fn pattern_matches_by_its_end(name: Seq<char>, rest: Seq<char>, world: Seq<char>)
    ensures
        replication::pattern_matches("*"@, world),
        name.len() > 0 && name.last() != ':' ==> replication::pattern_matches(
            name + "*"@,
            name + rest,
        ),
        replication::pattern_matches(name + ":*"@, name + rest),
        name.len() > 0 && name.last() != '*' ==> replication::pattern_matches(name, name),
        name.len() > 0 && name.last() != '*' && world != name ==> !replication::pattern_matches(
            name,
            world,
        ),
        name.len() > 0 && name.last() != ':' && replication::pattern_matches(name + "*"@, world)
            ==> world.len() >= name.len() && world.subrange(0, name.len() as int) == name,
        replication::pattern_matches(name + ":*"@, world) ==> world.len() >= name.len()
            && world.subrange(0, name.len() as int) == name,
{
    reveal_strlit("*");
    reveal_strlit(":*");
    assert((name + rest).subrange(0, name.len() as int) =~= name);
    replication::star_pattern_matches_prefix(name, name + rest);
    replication::star_pattern_matches_prefix(name, world);
    let colon = name.push(':');
    assert(colon + "*"@ =~= name + ":*"@);
    assert(colon.drop_last() =~= name);
    replication::star_pattern_matches_prefix(colon, name + rest);
    replication::star_pattern_matches_prefix(colon, world);
    if name.len() > 0 && name.last() != '*' {
        replication::plain_pattern_matches_itself(name, name);
        replication::plain_pattern_matches_itself(name, world);
    }
    replication::star_pattern_matches_prefix(Seq::empty(), world);
    assert(Seq::<char>::empty() + "*"@ =~= "*"@);
}

/// A node that is known to subscribe to a world by one of its patterns, and said so within the
/// expiry window, gets the atoms of the world, unless it is the sender or the policy forbids
/// it; and only such nodes do.
pub proof fn subscriber_receives<P: WorldAccessPolicy>(
    s: ReplicatorView,
    policy: P,
    world: Seq<char>,
    now: Instant,
    id: Seq<char>,
)
    requires
        s.subscriptions.ids.contains(id) <==> s.subscriptions.records.contains_key(id),
    ensures
        s.receivers(policy, world, now).contains(id) <==> {
            let record = s.subscriptions.records[id];
            &&& s.subscriptions.records.contains_key(id)
            &&& now.nanos <= record.last_seen.nanos || now.nanos - record.last_seen.nanos
                <= s.subscriptions.expiry
            &&& exists|i: int|
                0 <= i < record.patterns.len() && replication::pattern_matches(
                    #[trigger] record.patterns[i],
                    world,
                )
            &&& id != s.transport.self_id
            &&& policy.sends(world, id)
        },
{
    let all = s.subscriptions;
    let t = all.pruned(now);
    let current = |x: Seq<char>| all.records[x].is_current(now, all.expiry);
    let wants = |x: Seq<char>| t.records[x].wants(world);
    let may = |x: Seq<char>| x != s.transport.self_id && policy.sends(world, x);
    let subscribers = t.ids.filter(wants);
    if s.receivers(policy, world, now).contains(id) {
        replicator::only_subscribers_receive(s, policy, world, now, id);
        all.ids.lemma_filter_contains_rev(current, id);
        let i = choose|i: int| 0 <= i < t.ids.len() && t.ids[i] == id;
        all.ids.lemma_filter_pred(current, i);
        assert(t.records.contains_key(id));
    }
    let record = all.records[id];
    if all.records.contains_key(id) && (now.nanos <= record.last_seen.nanos || now.nanos
        - record.last_seen.nanos <= all.expiry) && (exists|i: int|
        0 <= i < record.patterns.len() && replication::pattern_matches(
            #[trigger] record.patterns[i],
            world,
        )) && id != s.transport.self_id && policy.sends(world, id) {
        let i = choose|i: int| 0 <= i < all.ids.len() && all.ids[i] == id;
        all.ids.lemma_filter_contains(current, i);
        let j = choose|j: int| 0 <= j < t.ids.len() && t.ids[j] == id;
        assert(t.records[id] == record);
        t.ids.lemma_filter_contains(wants, j);
        let k = choose|k: int| 0 <= k < subscribers.len() && subscribers[k] == id;
        subscribers.lemma_filter_contains(may, k);
    }
}

/// What another node says to all that it subscribes to is what is known of it, from now on;
/// what was known of other nodes stays, and what this node says itself changes nothing.
pub proof fn heard_patterns_are_known(
    s: ReplicatorView,
    bytes: Seq<u8>,
    now: Instant,
    from: Seq<char>,
    patterns: Seq<Seq<char>>,
    other: Seq<char>,
)
    requires
        message::heard(bytes) == Some((from, MessageView::SubscriptionIntent { patterns })),
        other != from,
    ensures
        ({
            let after = s.after_hearing(bytes, now);
            &&& from != s.transport.self_id ==> after.subscriptions.records.contains_key(from)
                && after.subscriptions.records[from].patterns == patterns
                && after.subscriptions.records[from].last_seen == now
                && after.subscriptions.ids.contains(from)
            &&& from == s.transport.self_id ==> after == s
            &&& after.subscriptions.records.get(other) == s.subscriptions.records.get(other)
            &&& s.subscriptions.ids.contains(other) ==> after.subscriptions.ids.contains(other)
            &&& after.self_patterns == s.self_patterns
            &&& after.incoming == s.incoming
            &&& after.transport == s.transport
        }),
{
    let had = s.subscriptions.ids;
    let ids = s.after_hearing(bytes, now).subscriptions.ids;
    if from != s.transport.self_id {
        if !had.contains(from) {
            assert(ids.last() == from);
        }
        if had.contains(other) {
            let i = choose|i: int| 0 <= i < had.len() && had[i] == other;
            assert(ids[i] == other);
        }
    }
}

/// A batch that arrives in a new message is queued behind the others, as it was sent and with
/// its sender, exactly where one of the node's patterns matches its world and the policy lets
/// it in. A message seen before is counted and changes the queue in no way.
pub proof fn wanted_batch_is_queued<P: WorldAccessPolicy>(
    s: ReplicatorView,
    policy: P,
    e: CarrierView,
    now: Instant,
    batch: BatchView,
    n: int,
    i: int,
)
    requires
        SwarmMessage::read(e.payload) == Some((MessageView::AtomBatch(batch), n)),
        s.max_inbox > 0,
    ensures
        ({
            let (after, readable) = replicator::taken_in(s, policy, e, now);
            let new = s.replay.is_new(e.from, e.correlation_id, now);
            &&& readable
            &&& new && 0 <= i < s.self_patterns.len() && replication::pattern_matches(
                s.self_patterns[i],
                batch.world,
            ) && policy.receives(batch.world, e.from) ==> {
                &&& after.incoming.last() == (e.from, batch)
                &&& s.incoming.len() < s.max_inbox ==> after.incoming == s.incoming.push(
                    (e.from, batch),
                ) && after.dropped_inbox == s.dropped_inbox
                &&& s.incoming.len() >= s.max_inbox ==> after.incoming == s.incoming.subrange(
                    1,
                    s.incoming.len() as int,
                ).push((e.from, batch))
            }
            &&& !policy.receives(batch.world, e.from) ==> after.incoming == s.incoming
            &&& (forall|j: int|
                0 <= j < s.self_patterns.len() ==> !replication::pattern_matches(
                    #[trigger] s.self_patterns[j],
                    batch.world,
                )) ==> after.incoming == s.incoming
            &&& !new ==> after.incoming == s.incoming && after.dropped_replay
                == s.dropped_replay.wrapping_add(1)
            &&& new ==> after.dropped_replay == s.dropped_replay
            &&& after.subscriptions == s.subscriptions
            &&& after.self_patterns == s.self_patterns
        }),
{
    if s.incoming.len() > 0 {
        assert(s.incoming.drop_first() =~= s.incoming.subrange(1, s.incoming.len() as int));
    }
}

/// A message counts as seen where one with its id from its sender is remembered: of those from
/// a sender, the ones at the front that are older than the window, or more than are remembered,
/// are forgotten, and no others. One that is new is remembered with the time.
pub proof fn messages_are_remembered_for_the_window(
    r: ReplayView,
    peer: Seq<char>,
    id: Seq<char>,
    now: Instant,
    all: Seq<(Instant, Seq<char>)>,
    other: Seq<char>,
)
    requires
        r.max_entries > 0,
        other != peer,
        r.seen.contains_key(peer) ==> all == r.seen[peer],
        !r.seen.contains_key(peer) ==> all.len() == 0,
    ensures
        ({
            let left = r.pruned(all, now);
            let gone = all.len() - left.len();
            let after = r.after(peer, id, now);
            &&& 0 <= gone && left == all.subrange(gone, all.len() as int)
            &&& forall|i: int|
                0 <= i < gone ==> now.since((#[trigger] all[i]).0) > r.window || all.len() - i
                    > r.max_entries
            &&& left.len() > 0 ==> now.since(left[0].0) <= r.window && left.len() <= r.max_entries
            &&& r.is_new(peer, id, now) <==> forall|i: int|
                gone <= i < all.len() ==> (#[trigger] all[i]).1 != id
            &&& r.is_new(peer, id, now) ==> after.seen[peer].last() == (now, id)
            &&& !r.is_new(peer, id, now) ==> after.seen[peer] == left
            &&& after.seen.contains_key(peer)
            &&& after.seen.get(other) == r.seen.get(other)
            &&& after.window == r.window && after.max_entries == r.max_entries
        }),
{
    assert(all =~= r.seen_of(peer));
    pruned_is_a_suffix(r, all, now);
    let left = r.pruned(all, now);
    let gone = all.len() - left.len();
    let pushed = left.push((now, id));
    assert(pushed.last() == (now, id));
    if left.len() + 1 > r.max_entries {
        assert(pushed.drop_first().last() == pushed.last());
    }
    assert forall|i: int| gone <= i < all.len() implies (#[trigger] all[i]) == left[i - gone] by {}
    if replication::has_id(left, id) {
        let k = choose|k: int| 0 <= k < left.len() && (#[trigger] left[k]).1 == id;
        assert(all[k + gone].1 == id);
    } else {
        assert forall|i: int| gone <= i < all.len() implies (#[trigger] all[i]).1 != id by {
            assert(left[i - gone].1 != id);
        }
    }
}

proof fn pruned_is_a_suffix(r: ReplayView, all: Seq<(Instant, Seq<char>)>, now: Instant)
    ensures
        ({
            let left = r.pruned(all, now);
            let gone = all.len() - left.len();
            &&& 0 <= gone && left == all.subrange(gone, all.len() as int)
            &&& forall|i: int|
                0 <= i < gone ==> now.since((#[trigger] all[i]).0) > r.window || all.len() - i
                    > r.max_entries
            &&& left.len() > 0 ==> now.since(left[0].0) <= r.window && left.len() <= r.max_entries
        }),
    decreases all.len(),
{
    if all.len() > 0 && (now.since(all[0].0) > r.window || all.len() > r.max_entries) {
        let rest = all.drop_first();
        pruned_is_a_suffix(r, rest, now);
        let left = r.pruned(all, now);
        let gone = all.len() - left.len();
        assert(left =~= all.subrange(gone, all.len() as int));
        assert forall|i: int| 0 <= i < gone implies now.since((#[trigger] all[i]).0) > r.window
            || all.len() - i > r.max_entries by {
            if i > 0 {
                assert(rest[i - 1] == all[i]);
            }
        }
    } else {
        assert(all.subrange(0, all.len() as int) =~= all);
    }
}

/// A node says again what it subscribes to once half of the expiry window has passed, and not
/// before; so the others do not forget it while it does.
pub proof fn announcement_is_due_at_half_time(s: ReplicatorView, now: Instant)
    requires
        now.nanos >= s.last_announce.nanos,
    ensures
        2 * (now.nanos - s.last_announce.nanos) >= s.expiry ==> s.is_due(now),
        s.is_due(now) ==> 2 * (now.nanos - s.last_announce.nanos) >= s.expiry - 1,
        !s.is_due(now) ==> now.nanos - s.last_announce.nanos < s.expiry,
{
}

/// A new replicator knows its patterns, has seen nothing, queues at least one batch, and is due
/// to say what it subscribes to.
pub proof fn new_replicator_is_due(
    transport: TransportView,
    known: SubscriptionsView,
    patterns: Seq<Seq<char>>,
    expiry: u128,
    max_inbox: usize,
    window: u128,
    now: Instant,
    peer: Seq<char>,
    id: Seq<char>,
)
    requires
        expiry <= now.nanos,
    ensures
        ({
            let s = ReplicatorView::fresh(
                transport,
                known,
                patterns,
                expiry,
                max_inbox,
                window,
                now,
            );
            &&& s.is_due(now)
            &&& s.self_patterns == patterns
            &&& s.subscriptions == known
            &&& s.incoming.len() == 0
            &&& s.max_inbox >= 1 && (max_inbox > 0 ==> s.max_inbox == max_inbox)
            &&& s.replay.is_new(peer, id, now)
            &&& s.replay.window == window
            &&& s.replay.max_entries == 2048
            &&& s.dropped_inbox == 0 && s.dropped_replay == 0
        }),
{
    let s = ReplicatorView::fresh(transport, known, patterns, expiry, max_inbox, window, now);
    assert(s.replay.seen_of(peer) == Seq::<(Instant, Seq<char>)>::empty());
}

/// Sending a message either does nothing, while the limiter does not allow it or the node
/// rests, or publishes one envelope in the inbox of the receiver; and what arrives there is
/// from the sender, for the receiver, and says what was sent.
pub proof fn sent_message_arrives<F: Fn() -> bool>(
    allow: F,
    before: TransportView,
    to: Seq<char>,
    msg: MessageView,
    now: Instant,
    after: TransportView,
    r: Result<(), SwarmError>,
)
    requires
        nats::may_send(allow, before, to, msg, now, after, r),
        after.calls != before.calls,
    ensures
        before.backoff_until matches Some(until) ==> until <= now.nanos,
        call_ensures(allow, (), true),
        after.calls.len() == before.calls.len() + 1,
        after.calls.drop_last() == before.calls,
        after.self_id == before.self_id,
        after.rx == before.rx,
        after.calls.last() matches BusCall::Publish { subject, reply_to, bytes, reply } ==> {
            &&& subject == "dwbase.swarm."@ + to + ".inbox"@
            &&& reply_to is None
            &&& reply == r
            &&& message::arrived(bytes) is Some
            &&& message::arrived(bytes)->0.from == before.self_id
            &&& message::arrived(bytes)->0.to == Some(to)
            &&& SwarmMessage::read(message::arrived(bytes)->0.payload) is Some
            &&& SwarmMessage::read(message::arrived(bytes)->0.payload) matches Some(read) ==> read.0 == msg
        },
        after.calls.last() is Publish,
        r is Ok ==> after.backoff_until == before.backoff_until,
        r is Err ==> after.backoff_until == Some((now.nanos + 200_000_000) as u128),
{
    let allowed = choose|allowed: bool|
        #![trigger call_ensures(allow, (), allowed)]
        call_ensures(allow, (), allowed) && if !allowed || before.rests(now) {
            r is Ok && after == before
        } else {
            exists|e: CarrierView| #[trigger]
                e.carries(before.self_id, Some(to), msg, None) && e.is_stamped()
                    && SwarmEnvelope::fits(e) && {
                    let sent = before.published(
                        nats::inbox_of(to),
                        None,
                        SwarmEnvelope::packed(e),
                        r,
                    );
                    after == if r is Ok {
                        sent
                    } else {
                        sent.failed(now)
                    }
                }
        };
    assert(allowed && !before.rests(now));
    let e = choose|e: CarrierView| #[trigger]
        e.carries(before.self_id, Some(to), msg, None) && e.is_stamped() && SwarmEnvelope::fits(e)
            && {
            let sent = before.published(nats::inbox_of(to), None, SwarmEnvelope::packed(e), r);
            after == if r is Ok {
                sent
            } else {
                sent.failed(now)
            }
        };
    message::envelope_arrives(e);
    message::envelope_keeps_message(e, before.self_id, Some(to), msg, None);
    assert(after.calls.drop_last() =~= before.calls);
}

/// Where the limiter always allows it and the node does not rest, a message that is sent is
/// published.
pub proof fn allowed_message_is_sent<F: Fn() -> bool>(
    allow: F,
    before: TransportView,
    to: Seq<char>,
    msg: MessageView,
    now: Instant,
    after: TransportView,
    r: Result<(), SwarmError>,
)
    requires
        nats::may_send(allow, before, to, msg, now, after, r),
        !call_ensures(allow, (), false),
        before.backoff_until is None || before.backoff_until->0 <= now.nanos,
    ensures
        after.calls.len() == before.calls.len() + 1,
{
}

/// After a failure a node rests for 200 milliseconds, and no longer.
pub proof fn node_rests_after_a_failure(t: TransportView, at: Instant, now: Instant)
    ensures
        t.failed(at).rests(now) <==> now.nanos < at.nanos + 200_000_000,
        t.failed(at).calls == t.calls,
        t.failed(at).rx == t.rx,
{
}

/// An atom goes to a node in a batch of its own world, as it is and alone.
pub proof fn atom_travels_alone(atom: AtomView)
    ensures
        replicator::atom_message(atom) is AtomBatch,
        replicator::atom_message(atom)->AtomBatch_0.world == atom.world,
        replicator::atom_message(atom)->AtomBatch_0.atoms.len() == 1,
        replicator::atom_message(atom)->AtomBatch_0.atoms[0] == atom,
{
}

/// What was kept on disk of a node is known again where it is not too old, as long ago as it
/// was: the milliseconds since then count back from now. What seems to lie ahead is from now.
pub proof fn restored_record_keeps_its_age(
    expiry: u128,
    id: Seq<char>,
    saved: SavedView,
    now: Instant,
    now_ms: u64,
)
    requires
        expiry <= now.nanos,
    ensures
        ({
            let r = SubscriptionsView::restored(expiry, seq![(id, saved)], now, now_ms);
            let age = if saved.last_seen_ms <= now_ms {
                (now_ms - saved.last_seen_ms) * 1_000_000
            } else {
                0
            };
            &&& age <= expiry ==> r.records.contains_key(id) && r.records[id].patterns
                == saved.patterns && now.nanos - r.records[id].last_seen.nanos == age
                && r.ids == seq![id]
            &&& age > expiry ==> r.records.dom() =~= Set::empty() && r.ids.len() == 0
            &&& r.expiry == expiry
        }),
{
    let one = seq![(id, saved)];
    assert(one.drop_last() =~= Seq::<(Seq<char>, SavedView)>::empty());
    assert(one.last() == (id, saved));
    let none = SubscriptionsView::restored(expiry, one.drop_last(), now, now_ms);
    assert(none == SubscriptionsView::empty(expiry));
    let r = SubscriptionsView::restored(expiry, one, now, now_ms);
    if saved.age(now_ms) <= expiry {
        assert(r.ids =~= seq![id]);
    }
}

/// What is kept on disk of a node is its patterns, and the milliseconds since it was heard of
/// count back from the time of day.
pub proof fn saved_record_keeps_its_age(r: RecordView, now: Instant, now_ms: u64)
    requires
        r.last_seen.nanos <= now.nanos,
        (now.nanos - r.last_seen.nanos) / 1_000_000 <= now_ms,
    ensures
        ({
            let saved = SubscriptionsView::saved_record(r, now, now_ms);
            &&& saved.patterns == r.patterns
            &&& saved.last_seen_ms <= now_ms
            &&& (now_ms - saved.last_seen_ms) * 1_000_000 <= now.nanos - r.last_seen.nanos < (now_ms
                - saved.last_seen_ms + 1) * 1_000_000
        }),
{
}

/// Events of a world that are published together are in the bytes that are published, all of
/// them and in the order in which they came, on the subject of the world.
pub proof fn published_events_are_decoded(
    before: Seq<BusCall>,
    world: Seq<char>,
    events: Seq<EventView>,
    after: Seq<BusCall>,
    r: Result<(), SwarmError>,
)
    requires
        world_events::may_flush(before, world, events, after, r),
    ensures
        events.len() == 0 ==> after == before && r is Ok,
        events.len() > 0 ==> {
            &&& after.len() == before.len() + 1
            &&& after.drop_last() == before
            &&& after.last() is Publish
            &&& after.last() matches BusCall::Publish { subject, reply_to, bytes, reply } ==> {
                &&& subject == "dwbase.world."@ + ids::hex_of(vstd::utf8::encode_utf8(world))
                    + ".events"@
                &&& reply_to is None
                &&& reply == r
                &&& world_events::batch_in(bytes) is Some
                &&& world_events::batch_in(bytes)->0.events == events
            }
        },
{
    if events.len() > 0 {
        let batch = choose|batch: EventBatchView|
            #![trigger AtomEventBatch::packed(batch)]
            batch.events == events && ids::is_fresh::<8>(batch.batch_id) && AtomEventBatch::fits(
                batch,
            ) && after == before.push(
                BusCall::Publish {
                    subject: world_events::events_subject_of(world),
                    reply_to: None,
                    bytes: AtomEventBatch::packed(batch),
                    reply: r,
                },
            );
        world_events::encoded_batch_is_decoded(batch);
        assert(after.drop_last() =~= before);
    }
}

/// The event of an atom names its world, its sender and the time, and joins those of its world
/// that wait, behind them; they wait since the first came. They are due once there are as many
/// as a batch holds, or the first has waited for the whole time.
pub proof fn event_joins_those_that_wait(
    s: BroadcasterView,
    atom: AtomView,
    now: Instant,
    now_ms: u64,
    other: Seq<char>,
)
    requires
        other != atom.world,
    ensures
        ({
            let event = s.event(atom, now_ms);
            let w = s.joined(event, now);
            let after = s.with_waiting(atom.world, w);
            &&& event.atom == atom
            &&& event.world_key == atom.world
            &&& event.from_node == s.from_node
            &&& event.sent_at_ms == now_ms
            &&& s.waiting.contains_key(atom.world) ==> w.events
                == s.waiting[atom.world].events.push(event) && w.since
                == s.waiting[atom.world].since
            &&& !s.waiting.contains_key(atom.world) ==> w.events == seq![event] && w.since == now
            &&& s.is_due(w, now) <==> w.events.len() >= s.max_batch || now.since(w.since)
                >= s.flush_every
            &&& after.waiting.get(other) == s.waiting.get(other)
            &&& after.waiting.contains_key(atom.world) && after.waiting[atom.world] == w
            &&& s.without(atom.world).waiting.get(other) == s.waiting.get(other)
            &&& !s.without(atom.world).waiting.contains_key(atom.world)
        }),
{
}

/// Replies to a request go to a subject that names the node and the request; what a request
/// ends with is told.
pub proof fn requests_name_their_subjects(self_id: Seq<char>, id: Seq<char>, e: RequestError)
    ensures
        nats::reply_subject_of(self_id, id) == "dwbase.swarm.reply."@ + self_id + "."@ + id,
        e is BackingOff ==> e.says() == "backing off"@,
        e is Timeout ==> e.says() == "request timeout"@,
        e matches RequestError::Bus(x) ==> e.says() == x@.message(),
{
}

/// A message to some nodes is sent to each of them in turn: the transport goes through one
/// state for each, and the step to it is that of sending the message to that node.
pub proof fn message_goes_to_each_in_turn<F: Fn() -> bool>(
    allow: F,
    states: Seq<TransportView>,
    receivers: Seq<Seq<char>>,
    msg: MessageView,
    now: Instant,
    i: int,
)
    requires
        replicator::may_send_all(allow, states, receivers, msg, now),
        0 <= i < receivers.len(),
    ensures
        states.len() == receivers.len() + 1,
        exists|r: Result<(), SwarmError>| #[trigger]
            nats::may_send(allow, states[i], receivers[i], msg, now, states[i + 1], r),
{
    assert(replicator::may_send_step(
        allow,
        states[i],
        receivers[i],
        msg,
        now,
        states[i + 1],
    ));
}

/// Nothing that a node subscribed to is known of a node that was not heard of.
pub proof fn nothing_is_known_at_first(expiry: u128, now: Instant, now_ms: u64, id: Seq<char>)
    ensures
        !SubscriptionsView::restored(expiry, Seq::empty(), now, now_ms).records.contains_key(id),
        SubscriptionsView::restored(expiry, Seq::empty(), now, now_ms).ids.len() == 0,
        SubscriptionsView::restored(expiry, Seq::empty(), now, now_ms).expiry == expiry,
{
}

/// Once its events are taken, nothing waits for a world any more; the other worlds that wait
/// stay in their order.
pub proof fn taken_world_waits_no_more(s: BroadcasterView, before: int, world: Seq<char>)
    requires
        s.worlds.no_duplicates(),
        s.waiting.contains_key(world) <==> s.worlds.contains(world),
    ensures
        !s.without(world).worlds.contains(world),
        !s.waiting.contains_key(world) ==> s.without(world).worlds == s.worlds,
        0 <= before < s.worlds.len() && s.worlds[before] != world ==> s.without(
            world,
        ).worlds.contains(s.worlds[before]),
{
    let all = s.worlds;
    if all.contains(world) {
        let n = all.index_of(world);
        assert(0 <= n < all.len() && all[n] == world);
        let left = all.remove(n);
        if left.contains(world) {
            let i = choose|i: int| 0 <= i < left.len() && left[i] == world;
            assert(left[i] == if i < n { all[i] } else { all[i + 1] });
        }
        if 0 <= before < all.len() && all[before] != world {
            let j = if before < n { before } else { before - 1 };
            assert(left[j] == all[before]);
        }
    }
}

}
