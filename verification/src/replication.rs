//! Replication of atoms to the nodes that subscribe to their worlds.

use vstd::prelude::*;
use vstd::string::*;

use crate::clock::{Duration, Instant};
use crate::lists;
use crate::message;
use crate::swarm::PeerId;
use crate::table::Table;
use crate::text;

verus! {

broadcast use crate::lists::group_views;

/// Whether a pattern matches a world: `*` matches all, a pattern that ends in `*` or `:*`
/// matches the worlds that start with what is before that, and any other only itself.
pub open spec fn pattern_matches(pattern: Seq<char>, world: Seq<char>) -> bool {
    if pattern == "*"@ {
        true
    } else if text::has_suffix(pattern, ":*"@) {
        text::has_prefix(world, text::before_suffix(pattern, ":*"@))
    } else if text::has_suffix(pattern, "*"@) {
        text::has_prefix(world, text::before_suffix(pattern, "*"@))
    } else {
        pattern == world
    }
}

/// Whether a pattern matches a world.
pub fn matches_world(pattern: &str, world: &str) -> (r: bool)
    ensures
        r == pattern_matches(pattern@, world@),
{
    if text::same(pattern, "*") {
        return true;
    }
    if let Some(prefix) = text::strip_suffix(pattern, ":*") {
        return text::starts_with(world, prefix);
    }
    if let Some(prefix) = text::strip_suffix(pattern, "*") {
        return text::starts_with(world, prefix);
    }
    text::same(pattern, world)
}

/// A pattern that does not end in `*` matches only the world of that name.
pub proof fn plain_pattern_matches_itself(pattern: Seq<char>, world: Seq<char>)
    requires
        pattern.len() == 0 || pattern.last() != '*',
    ensures
        pattern_matches(pattern, world) == (pattern == world),
{
    reveal_strlit("*");
    reveal_strlit(":*");
    assert("*"@.last() == '*');
    assert(":*"@.last() == '*');
    if text::has_suffix(pattern, ":*"@) {
        assert(pattern.subrange(pattern.len() - 2, pattern.len() as int)[1] == pattern.last());
    }
    if text::has_suffix(pattern, "*"@) {
        assert(pattern.subrange(pattern.len() - 1, pattern.len() as int)[0] == pattern.last());
    }
}

/// A prefix followed by `*` matches exactly the worlds that start with the prefix, unless the
/// prefix ends in `:`; then it matches those that start with what is before the colon.
pub proof fn star_pattern_matches_prefix(prefix: Seq<char>, world: Seq<char>)
    ensures
        prefix.len() == 0 || prefix.last() != ':' ==> pattern_matches(prefix + "*"@, world)
            == text::has_prefix(world, prefix),
        prefix.len() > 0 && prefix.last() == ':' ==> pattern_matches(prefix + "*"@, world)
            == text::has_prefix(world, prefix.drop_last()),
{
    reveal_strlit("*");
    reveal_strlit(":*");
    let pattern = prefix + "*"@;
    let n = pattern.len();
    assert("*"@.len() == 1 && "*"@[0] == '*');
    assert(":*"@.len() == 2 && ":*"@[0] == ':' && ":*"@[1] == '*');
    assert(pattern.subrange(n - 1, n as int) =~= "*"@);
    assert(pattern.subrange(0, n - 1) =~= prefix);
    if prefix.len() == 0 {
        assert(pattern =~= "*"@);
        assert(world.subrange(0, 0) =~= prefix);
    } else {
        assert(pattern.len() > 1);
        if prefix.last() == ':' {
            assert(pattern.subrange(n - 2, n as int) =~= ":*"@);
            assert(pattern.subrange(0, n - 2) =~= prefix.drop_last());
        } else if text::has_suffix(pattern, ":*"@) {
            assert(pattern.subrange(n - 2, n as int)[0] == prefix.last());
        }
    }
}

/// Controls which worlds a node will replicate to/from peers.
///
/// This is intentionally a small, inspectable hook; what a policy says is a function of the
/// world and the peer. A policy that does not spell out this function leaves it open.
pub trait WorldAccessPolicy {
    /// Whether atoms of a world may be sent to a peer.
    closed spec fn sends(&self, world: Seq<char>, to: Seq<char>) -> bool {
        arbitrary()
    }

    /// Whether atoms of a world may be received from a peer.
    closed spec fn receives(&self, world: Seq<char>, from: Seq<char>) -> bool {
        arbitrary()
    }

    fn can_send_world(&self, world: &str, to: &PeerId) -> (r: bool)
        ensures
            r == self.sends(world@, to@),
    ;

    fn can_receive_world(&self, world: &str, from: &PeerId) -> (r: bool)
        ensures
            r == self.receives(world@, from@),
    ;
}

/// Allows all worlds.
#[derive(Clone, Copy, Debug)]
pub struct AllowAllWorldAccess;

impl Default for AllowAllWorldAccess {
    fn default() -> (r: Self)
        ensures
            r == AllowAllWorldAccess,
    {
        AllowAllWorldAccess
    }
}

impl WorldAccessPolicy for AllowAllWorldAccess {
    open spec fn sends(&self, world: Seq<char>, to: Seq<char>) -> bool {
        true
    }

    open spec fn receives(&self, world: Seq<char>, from: Seq<char>) -> bool {
        true
    }

    fn can_send_world(&self, world: &str, to: &PeerId) -> (r: bool) {
        true
    }

    fn can_receive_world(&self, world: &str, from: &PeerId) -> (r: bool) {
        true
    }
}

/// Messages that were seen of late, by sender, the oldest first.
#[derive(Debug)]
pub struct ReplayGuard {
    seen: Table<Vec<(Instant, String)>>,
    window: Duration,
    max_entries: usize,
}

/// Model of a list of seen messages.
pub open spec fn seen_view(q: Seq<(Instant, String)>) -> Seq<(Instant, Seq<char>)> {
    Seq::new(q.len(), |i: int| (q[i].0, q[i].1@))
}

/// Model of the messages that were seen of late.
#[verifier::ext_equal]
pub ghost struct ReplayView {
    pub seen: Map<Seq<char>, Seq<(Instant, Seq<char>)>>,
    pub window: u128,
    pub max_entries: nat,
}

impl View for ReplayGuard {
    type V = ReplayView;

    closed spec fn view(&self) -> ReplayView {
        ReplayView {
            seen: self.seen.map().map_values(|q: Vec<(Instant, String)>| seen_view(q@)),
            window: self.window.nanos,
            max_entries: self.max_entries as nat,
        }
    }
}

/// Whether a message with an id is in a list.
pub open spec fn has_id(q: Seq<(Instant, Seq<char>)>, id: Seq<char>) -> bool {
    exists|i: int| 0 <= i < q.len() && (#[trigger] q[i]).1 == id
}

impl ReplayView {
    /// What was seen of a sender.
    pub open spec fn seen_of(self, peer: Seq<char>) -> Seq<(Instant, Seq<char>)> {
        if self.seen.contains_key(peer) {
            self.seen[peer]
        } else {
            Seq::empty()
        }
    }

    /// A list without the messages at its front that are too old or too many.
    pub open spec fn pruned(
        self,
        q: Seq<(Instant, Seq<char>)>,
        now: Instant,
    ) -> Seq<(Instant, Seq<char>)>
        decreases q.len(),
    {
        if q.len() > 0 && (now.since(q[0].0) > self.window || q.len() > self.max_entries) {
            self.pruned(q.drop_first(), now)
        } else {
            q
        }
    }

    /// Whether a message is new.
    pub open spec fn is_new(self, peer: Seq<char>, id: Seq<char>, now: Instant) -> bool {
        !has_id(self.pruned(self.seen_of(peer), now), id)
    }

    /// What is seen after a message.
    pub open spec fn after(self, peer: Seq<char>, id: Seq<char>, now: Instant) -> ReplayView {
        let q = self.pruned(self.seen_of(peer), now);
        let next = if has_id(q, id) {
            q
        } else if q.len() + 1 > self.max_entries {
            q.push((now, id)).drop_first()
        } else {
            q.push((now, id))
        };
        ReplayView { seen: self.seen.insert(peer, next), ..self }
    }
}

impl ReplayGuard {
    pub fn new(window: Duration, max_entries: usize) -> (r: Self)
        ensures
            r@ == (ReplayView {
                seen: Map::empty(),
                window: window.nanos,
                max_entries: max_entries as nat,
            }),
    {
        let r = ReplayGuard { seen: Table::new(), window, max_entries };
        assert(r@.seen =~= Map::empty());
        r
    }

    /// Whether a message is new; it is remembered.
    pub fn should_accept(&mut self, peer: &PeerId, correlation_id: &str, now: Instant) -> (r: bool)
        ensures
            r == old(self)@.is_new(peer@, correlation_id@, now),
            final(self)@ == old(self)@.after(peer@, correlation_id@, now),
    {
        let ghost before = self@;
        let mut q: Vec<(Instant, String)> = Vec::new();
        if let Some(kept) = self.seen.get(peer.0.as_str()) {
            for i in 0..kept.len()
                invariant
                    seen_view(q@) == seen_view(kept@).subrange(0, i as int),
            {
                let ghost short = q@;
                q.push((kept[i].0, kept[i].1.clone()));
                assert(seen_view(q@) =~= seen_view(short).push(seen_view(kept@)[i as int]));
                assert(seen_view(q@) =~= seen_view(kept@).subrange(0, i + 1));
            }
            assert(seen_view(q@) =~= seen_view(kept@));
        }
        assert(seen_view(q@) =~= before.seen_of(peer@));
        while q.len() > 0 && (now.duration_since(q[0].0).nanos > self.window.nanos || q.len()
            > self.max_entries)
            invariant
                self@ == before,
                before.pruned(seen_view(q@), now) == before.pruned(before.seen_of(peer@), now),
            ensures
                seen_view(q@) == before.pruned(before.seen_of(peer@), now),
            decreases q@.len(),
        {
            let ghost full = q@;
            let _ = q.remove(0);
            assert(seen_view(q@) =~= seen_view(full).drop_first());
        }
        let mut known: bool = false;
        for i in 0..q.len()
            invariant
                known == exists|j: int|
                    0 <= j < i && (#[trigger] seen_view(q@)[j]).1 == correlation_id@,
        {
            assert(seen_view(q@)[i as int].1 == q@[i as int].1@);
            if text::same(q[i].1.as_str(), correlation_id) {
                known = true;
            }
        }
        assert(known == has_id(seen_view(q@), correlation_id@));
        if !known {
            let ghost short = q@;
            q.push((now, correlation_id.to_owned()));
            assert(seen_view(q@) =~= seen_view(short).push((now, correlation_id@)));
            if q.len() > self.max_entries {
                let ghost full = q@;
                let _ = q.remove(0);
                assert(seen_view(q@) =~= seen_view(full).drop_first());
            }
        }
        let ghost next = seen_view(q@);
        self.seen.insert(peer.0.as_str(), q);
        assert(self@.seen =~= before.seen.insert(peer@, next));
        assert(self@ =~= before.after(peer@, correlation_id@, now));
        !known
    }
}

/// Pruning keeps the last message of a list while it is not too old.
proof fn pruning_keeps_last(r: ReplayView, q: Seq<(Instant, Seq<char>)>, now: Instant)
    requires
        q.len() > 0,
        now.since(q.last().0) <= r.window,
        r.max_entries > 0,
    ensures
        r.pruned(q, now).len() > 0,
        r.pruned(q, now).last() == q.last(),
    decreases q.len(),
{
    if now.since(q[0].0) > r.window || q.len() > r.max_entries {
        assert(q.len() > 1);
        assert(q.drop_first().last() == q.last());
        pruning_keeps_last(r, q.drop_first(), now);
    }
}

/// A message that comes again within the window, with nothing else from its sender between, is
/// not new.
pub proof fn repeated_message_is_not_new(
    r: ReplayView,
    peer: Seq<char>,
    id: Seq<char>,
    first: Instant,
    again: Instant,
)
    requires
        r.is_new(peer, id, first),
        again.since(first) <= r.window,
        r.max_entries > 0,
    ensures
        !r.after(peer, id, first).is_new(peer, id, again),
{
    let next = r.after(peer, id, first);
    let q = next.seen_of(peer);
    assert(q.last() == (first, id));
    pruning_keeps_last(next, q, again);
    let kept = next.pruned(q, again);
    assert(kept[kept.len() - 1].1 == id);
}

/// What came from one sender does not make a message from another known.
pub proof fn senders_are_apart(
    r: ReplayView,
    peer: Seq<char>,
    id: Seq<char>,
    at: Instant,
    other: Seq<char>,
    other_id: Seq<char>,
    now: Instant,
)
    requires
        peer != other,
    ensures
        r.after(peer, id, at).is_new(other, other_id, now) == r.is_new(other, other_id, now),
{
    assert(r.after(peer, id, at).seen_of(other) == r.seen_of(other));
    same_pruning(r, r.after(peer, id, at), r.seen_of(other), now);
}

proof fn same_pruning(a: ReplayView, b: ReplayView, q: Seq<(Instant, Seq<char>)>, now: Instant)
    requires
        a.window == b.window,
        a.max_entries == b.max_entries,
    ensures
        a.pruned(q, now) == b.pruned(q, now),
    decreases q.len(),
{
    if q.len() > 0 {
        same_pruning(a, b, q.drop_first(), now);
    }
}

}
