//! Events of a world, published in batches.

use vstd::prelude::*;
use vstd::string::*;

use crate::atom::{Atom, AtomView};
use crate::clock::{Duration, Instant};
use crate::ids;
use crate::ids::{encode_hex, new_batch_id};
use crate::lists;
use crate::lists::{duplicate_all, Duplicate};
use crate::nats::{BusCall, SwarmBus};
use crate::swarm::{SwarmError, SwarmErrorView};
use crate::table::Table;
use crate::text;
use crate::wire;
use crate::wire::{from_bytes, to_bytes, Many, Wire};

verus! {

broadcast use crate::lists::group_views;

/// A world's name as one token of a subject: its bytes in hexadecimal.
pub open spec fn token_of(world_key: Seq<char>) -> Seq<char> {
    ids::hex_of(vstd::utf8::encode_utf8(world_key))
}

/// The subject of the events of a world.
pub open spec fn events_subject_of(world_key: Seq<char>) -> Seq<char> {
    "dwbase.world."@ + token_of(world_key) + ".events"@
}

/// A world's name as one token of a subject, safe even if it holds '.', '/', etc.
fn world_token(world_key: &str) -> (r: String)
    ensures
        r@ == token_of(world_key@),
{
    encode_hex(world_key.as_bytes())
}

/// The subject of the events of a world.
pub fn world_events_subject(world_key: &str) -> (r: String)
    ensures
        r@ == events_subject_of(world_key@),
{
    text::joined3("dwbase.world.", world_token(world_key).as_str(), ".events")
}

/// No two worlds share a subject.
pub proof fn subjects_differ(a: Seq<char>, b: Seq<char>)
    requires
        events_subject_of(a) == events_subject_of(b),
    ensures
        a == b,
{
    let (p, q) = ("dwbase.world."@, ".events"@);
    let (s, t) = (token_of(a), token_of(b));
    assert((p + s + q).len() == p.len() + s.len() + q.len());
    assert((p + t + q).len() == p.len() + t.len() + q.len());
    assert(s =~= (p + s + q).subrange(p.len() as int, (p.len() + s.len()) as int));
    assert(t =~= (p + t + q).subrange(p.len() as int, (p.len() + t.len()) as int));
    ids::hex_is_injective(vstd::utf8::encode_utf8(a), vstd::utf8::encode_utf8(b));
    vstd::utf8::encode_utf8_decode_utf8(a);
    vstd::utf8::encode_utf8_decode_utf8(b);
}

/// A new atom of a world.
#[derive(Debug)]
pub struct AtomEvent {
    pub world_key: String,
    pub from_node: String,
    pub sent_at_ms: u64,
    pub atom: Atom,
}

/// Model of a new atom of a world.
#[verifier::ext_equal]
pub ghost struct EventView {
    pub world_key: Seq<char>,
    pub from_node: Seq<char>,
    pub sent_at_ms: u64,
    pub atom: AtomView,
}

impl View for AtomEvent {
    type V = EventView;

    open spec fn view(&self) -> EventView {
        EventView {
            world_key: self.world_key@,
            from_node: self.from_node@,
            sent_at_ms: self.sent_at_ms,
            atom: self.atom@,
        }
    }
}

impl Clone for AtomEvent {
    fn clone(&self) -> (r: Self)
        ensures
            r@ == self@,
    {
        AtomEvent {
            world_key: self.world_key.clone(),
            from_node: self.from_node.clone(),
            sent_at_ms: self.sent_at_ms,
            atom: self.atom.clone(),
        }
    }
}

impl Duplicate for AtomEvent {
    fn duplicate(&self) -> (r: Self) {
        self.clone()
    }
}

/// The fields of an event in the order in which they are written.
type EventParts = (String, (String, (u64, Atom)));

impl EventView {
    /// The fields of the event in the order in which they are written.
    pub open spec fn parts(self) -> (Seq<char>, (Seq<char>, (u64, AtomView))) {
        (self.world_key, (self.from_node, (self.sent_at_ms, self.atom)))
    }
}

impl Wire for AtomEvent {
    open spec fn fits(v: EventView) -> bool {
        EventParts::fits(v.parts())
    }

    open spec fn packed(v: EventView) -> Seq<u8> {
        EventParts::packed(v.parts())
    }

    open spec fn read(b: Seq<u8>) -> Option<(EventView, int)> {
        match EventParts::read(b) {
            Some(((world_key, (from_node, (sent_at_ms, atom))), n)) => Some(
                (EventView { world_key, from_node, sent_at_ms, atom }, n),
            ),
            None => None,
        }
    }

    proof fn reads_back(v: EventView, rest: Seq<u8>) {
        EventParts::reads_back(v.parts(), rest);
    }

    proof fn reads_within(b: Seq<u8>) {
        EventParts::reads_within(b);
    }

    fn put(&self, out: &mut Vec<u8>) {
        let parts = (
            self.world_key.clone(),
            (self.from_node.clone(), (self.sent_at_ms, self.atom.clone())),
        );
        parts.put(out);
    }

    fn take(b: &[u8]) -> (r: Option<(AtomEvent, usize)>) {
        match EventParts::take(b) {
            Some(((world_key, (from_node, (sent_at_ms, atom))), n)) => Some(
                (AtomEvent { world_key, from_node, sent_at_ms, atom }, n),
            ),
            None => None,
        }
    }
}

/// Several events that are published together.
#[derive(Debug)]
pub struct AtomEventBatch {
    pub batch_id: String,
    pub events: Vec<AtomEvent>,
}

/// Model of several events that are published together.
#[verifier::ext_equal]
pub ghost struct EventBatchView {
    pub batch_id: Seq<char>,
    pub events: Seq<EventView>,
}

impl View for AtomEventBatch {
    type V = EventBatchView;

    open spec fn view(&self) -> EventBatchView {
        EventBatchView { batch_id: self.batch_id@, events: lists::views(self.events@) }
    }
}

/// The fields of a batch in the order in which they are written.
type EventBatchParts = (String, Many<AtomEvent>);

impl Wire for AtomEventBatch {
    open spec fn fits(v: EventBatchView) -> bool {
        EventBatchParts::fits((v.batch_id, v.events))
    }

    open spec fn packed(v: EventBatchView) -> Seq<u8> {
        EventBatchParts::packed((v.batch_id, v.events))
    }

    open spec fn read(b: Seq<u8>) -> Option<(EventBatchView, int)> {
        match EventBatchParts::read(b) {
            Some(((batch_id, events), n)) => Some((EventBatchView { batch_id, events }, n)),
            None => None,
        }
    }

    proof fn reads_back(v: EventBatchView, rest: Seq<u8>) {
        EventBatchParts::reads_back((v.batch_id, v.events), rest);
    }

    proof fn reads_within(b: Seq<u8>) {
        EventBatchParts::reads_within(b);
    }

    fn put(&self, out: &mut Vec<u8>) {
        (self.batch_id.clone(), Many(duplicate_all(self.events.as_slice()))).put(out);
    }

    fn take(b: &[u8]) -> (r: Option<(AtomEventBatch, usize)>) {
        match EventBatchParts::take(b) {
            Some(((batch_id, events), n)) => Some(
                (AtomEventBatch { batch_id, events: events.0 }, n),
            ),
            None => None,
        }
    }
}

/// The batch in bytes; writing to memory does not fail.
pub fn encode_event_batch(batch: &AtomEventBatch) -> (r: Result<Vec<u8>, SwarmError>)
    ensures
        r is Ok,
        r matches Ok(b) ==> b@ == AtomEventBatch::packed(batch@) && AtomEventBatch::fits(batch@)
            && batch_in(b@) == Some(batch@),
{
    let b = to_bytes(batch);
    proof {
        wire::bytes_give_value_back::<AtomEventBatch>(batch@);
    }
    Ok(b)
}

/// The batch in some bytes, if there is one.
pub open spec fn batch_in(b: Seq<u8>) -> Option<EventBatchView> {
    match AtomEventBatch::read(b) {
        Some((batch, _)) => Some(batch),
        None => None,
    }
}

/// The batch in some bytes.
pub fn decode_event_batch(bytes: &[u8]) -> (r: Result<AtomEventBatch, SwarmError>)
    ensures
        r is Ok <==> batch_in(bytes@) is Some,
        r matches Ok(batch) ==> batch_in(bytes@) == Some(batch@),
        r matches Err(e) ==> e@ == SwarmErrorView::Decode("decode event batch"@),
{
    match from_bytes::<AtomEventBatch>(bytes) {
        Some(batch) => Ok(batch),
        None => Err(SwarmError::Decode("decode event batch".to_owned())),
    }
}

/// Decoding an encoded batch gives the batch.
pub proof fn encoded_batch_is_decoded(batch: EventBatchView)
    requires
        AtomEventBatch::fits(batch),
    ensures
        batch_in(AtomEventBatch::packed(batch)) == Some(batch),
{
    wire::bytes_give_value_back::<AtomEventBatch>(batch);
}

/// Events of a world that wait to be published, since when the first of them waits.
#[derive(Debug)]
pub struct Waiting {
    pub since: Instant,
    pub events: Vec<AtomEvent>,
}

/// Model of the events of a world that wait to be published.
#[verifier::ext_equal]
pub ghost struct WaitingView {
    pub since: Instant,
    pub events: Seq<EventView>,
}

impl View for Waiting {
    type V = WaitingView;

    open spec fn view(&self) -> WaitingView {
        WaitingView { since: self.since, events: lists::views(self.events@) }
    }
}

/// Publishes the events of worlds with rate limiting and opportunistic batching.
pub struct WorldEventBroadcaster<B> {
    pub bus: B,
    pub from_node: String,
    pub flush_every: Duration,
    pub max_batch: usize,
    pub waiting: Table<Waiting>,
}

/// Model of a broadcaster: the events that wait, by world, and the worlds in the order of
/// their latest events.
#[verifier::ext_equal]
pub ghost struct BroadcasterView {
    pub from_node: Seq<char>,
    pub flush_every: u128,
    pub max_batch: usize,
    pub worlds: Seq<Seq<char>>,
    pub waiting: Map<Seq<char>, WaitingView>,
    pub calls: Seq<BusCall>,
}

impl<B: SwarmBus> View for WorldEventBroadcaster<B> {
    type V = BroadcasterView;

    open spec fn view(&self) -> BroadcasterView {
        BroadcasterView {
            from_node: self.from_node@,
            flush_every: self.flush_every.nanos,
            max_batch: self.max_batch,
            worlds: self.waiting.spec_keys(),
            waiting: self.waiting.map().map_values(|w: Waiting| w@),
            calls: self.bus.history(),
        }
    }
}

impl BroadcasterView {
    /// The events of a world that wait, with one more.
    pub open spec fn joined(self, event: EventView, now: Instant) -> WaitingView {
        let world = event.world_key;
        if self.waiting.contains_key(world) {
            WaitingView {
                events: self.waiting[world].events.push(event),
                ..self.waiting[world]
            }
        } else {
            WaitingView { since: now, events: seq![event] }
        }
    }

    /// Whether events are to be published: there are enough, or they have waited long enough.
    pub open spec fn is_due(self, w: WaitingView, now: Instant) -> bool {
        w.events.len() >= self.max_batch || now.since(w.since) >= self.flush_every
    }

    /// The broadcaster without the events that wait for a world.
    pub open spec fn without(self, world: Seq<char>) -> BroadcasterView {
        BroadcasterView {
            worlds: if self.waiting.contains_key(world) {
                self.worlds.remove(self.worlds.index_of(world))
            } else {
                self.worlds
            },
            waiting: self.waiting.remove(world),
            ..self
        }
    }

    /// The broadcaster with other events that wait for a world.
    pub open spec fn with_waiting(self, world: Seq<char>, w: WaitingView) -> BroadcasterView {
        BroadcasterView {
            worlds: self.without(world).worlds.push(world),
            waiting: self.waiting.insert(world, w),
            ..self
        }
    }

    /// The event for an atom.
    pub open spec fn event(self, atom: AtomView, now_ms: u64) -> EventView {
        EventView {
            world_key: atom.world,
            from_node: self.from_node,
            sent_at_ms: now_ms,
            atom,
        }
    }
}

/// Whether publishing events of a world may lead from some calls on the bus to others, and to
/// such a result: where there are events, a batch of them is published on the world's subject,
/// once and with nothing besides.
pub open spec fn may_flush(
    before: Seq<BusCall>,
    world: Seq<char>,
    events: Seq<EventView>,
    after: Seq<BusCall>,
    r: Result<(), SwarmError>,
) -> bool {
    if events.len() == 0 {
        r is Ok && after == before
    } else {
        exists|batch: EventBatchView|
            #![trigger AtomEventBatch::packed(batch)]
            batch.events == events && ids::is_fresh::<8>(batch.batch_id)
                && AtomEventBatch::fits(batch) && after == before.push(
                BusCall::Publish {
                    subject: events_subject_of(world),
                    reply_to: None,
                    bytes: AtomEventBatch::packed(batch),
                    reply: r,
                },
            )
    }
}

/// Whether publishing all that waits, world by world, may have such results, up to the first
/// failure, and such a result in all; `calls` holds the calls on the bus before each world,
/// and at the end.
pub open spec fn may_flush_all(
    s: BroadcasterView,
    calls: Seq<Seq<BusCall>>,
    replies: Seq<Result<(), SwarmError>>,
    r: Result<(), SwarmError>,
) -> bool {
    &&& replies.len() <= s.worlds.len()
    &&& calls.len() == replies.len() + 1
    &&& calls[0] == s.calls
    &&& forall|i: int|
        0 <= i < replies.len() ==> may_flush(
            calls[i],
            s.worlds[i],
            s.waiting[s.worlds[i]].events,
            calls[i + 1],
            #[trigger] replies[i],
        )
    &&& forall|i: int| 0 <= i < replies.len() - 1 ==> (#[trigger] replies[i]) is Ok
    &&& r is Ok ==> replies.len() == s.worlds.len() && (replies.len() > 0 ==> replies.last() is Ok)
    &&& r is Err ==> replies.len() > 0 && replies.last() == r
}

impl<B: SwarmBus> WorldEventBroadcaster<B> {
    /// A broadcaster that publishes batches of 32, or every 50 milliseconds.
    pub fn new(bus: B, from_node: String) -> (r: Self)
        ensures
            r@ == (BroadcasterView {
                from_node: from_node@,
                flush_every: 50_000_000,
                max_batch: 32,
                worlds: Seq::empty(),
                waiting: Map::empty(),
                calls: bus.history(),
            }),
    {
        let r = WorldEventBroadcaster {
            bus,
            from_node,
            flush_every: Duration::from_millis(50),
            max_batch: 32,
            waiting: Table::new(),
        };
        assert(r@.waiting =~= Map::empty());
        r
    }

    /// Publishes events of a world.
    fn flush(&mut self, world_key: &str, events: Vec<AtomEvent>) -> (r: Result<(), SwarmError>)
        ensures
            may_flush(
                old(self)@.calls,
                world_key@,
                lists::views(events@),
                final(self)@.calls,
                r,
            ),
            final(self)@ == (BroadcasterView { calls: final(self)@.calls, ..old(self)@ }),
    {
        if events.len() == 0 {
            return Ok(());
        }
        let ghost models = lists::views(events@);
        let name = world_events_subject(world_key);
        let batch = AtomEventBatch { batch_id: new_batch_id(), events };
        let bytes = encode_event_batch(&batch)?;
        let r = self.bus.publish(name.as_str(), None, bytes);
        proof {
            let packed = AtomEventBatch::packed(batch@);
            assert(batch@.events == models);
        }
        r
    }

    /// Takes in an atom, unless the limiter does not allow it; publishes the events of its
    /// world if they are due.
    pub fn publish_atom<F: Fn() -> bool>(
        &mut self,
        atom: Atom,
        now: Instant,
        now_ms: u64,
        allow: &F,
    ) -> (r: Result<(), SwarmError>)
        requires
            call_requires(*allow, ()),
        ensures
            exists|allowed: bool|
                #![trigger call_ensures(*allow, (), allowed)]
                call_ensures(*allow, (), allowed) && if !allowed {
                    r is Ok && final(self)@ == old(self)@
                } else {
                    let w = old(self)@.joined(old(self)@.event(atom@, now_ms), now);
                    if old(self)@.is_due(w, now) {
                        final(self)@ == (BroadcasterView {
                            calls: final(self)@.calls,
                            ..old(self)@.without(atom@.world)
                        }) && may_flush(
                            old(self)@.calls,
                            atom@.world,
                            w.events,
                            final(self)@.calls,
                            r,
                        )
                    } else {
                        r is Ok && final(self)@ == old(self)@.with_waiting(atom@.world, w)
                    }
                },
    {
        let ghost before = *self;
        let ghost model = atom@;
        let allowed: bool = allow();
        if !allowed {
            return Ok(());
        }
        let world = atom.world().0.clone();
        let event = AtomEvent {
            world_key: world.clone(),
            from_node: self.from_node.clone(),
            sent_at_ms: now_ms,
            atom,
        };
        let ghost added = event@;
        assert(added == before@.event(model, now_ms));
        let w = match self.waiting.remove(world.as_str()) {
            Some(mut w) => {
                w.events.push(event);
                w
            },
            None => {
                let mut events: Vec<AtomEvent> = Vec::new();
                events.push(event);
                assert(lists::views(events@) =~= seq![added]);
                Waiting { since: now, events }
            },
        };
        assert(w@ == before@.joined(added, now));
        if w.events.len() >= self.max_batch || now.duration_since(w.since).nanos
            >= self.flush_every.nanos {
            assert(self@ =~= before@.without(model.world));
            return self.flush(world.as_str(), w.events);
        }
        let ghost kept = w@;
        self.waiting.insert(world.as_str(), w);
        assert(self@.waiting =~= before@.waiting.insert(model.world, kept));
        assert(self@ =~= before@.with_waiting(model.world, kept));
        Ok(())
    }

    /// Publishes all that waits, up to the first failure; nothing waits any more.
    pub fn flush_all(&mut self) -> (r: Result<(), SwarmError>)
        ensures
            final(self)@ == (BroadcasterView {
                worlds: Seq::empty(),
                waiting: Map::empty(),
                calls: final(self)@.calls,
                ..old(self)@
            }),
            exists|calls: Seq<Seq<BusCall>>, replies: Seq<Result<(), SwarmError>>| #[trigger]
                may_flush_all(old(self)@, calls, replies, r) && calls.last() == final(self)@.calls,
    {
        let ghost before = *self;
        let mut table: Table<Waiting> = Table::new();
        std::mem::swap(&mut self.waiting, &mut table);
        assert(self@.waiting =~= Map::empty());
        let ghost mut replies: Seq<Result<(), SwarmError>> = Seq::empty();
        let ghost mut calls: Seq<Seq<BusCall>> = seq![self@.calls];
        let n: usize = table.len();
        for i in 0..n
            invariant
                n == table.spec_keys().len(),
                before == *old(self),
                table == before.waiting,
                self@ == (BroadcasterView {
                    worlds: Seq::empty(),
                    waiting: Map::empty(),
                    calls: self@.calls,
                    ..before@
                }),
                replies.len() == i,
                calls.len() == i + 1,
                calls[0] == before@.calls,
                calls.last() == self@.calls,
                forall|j: int| 0 <= j < i ==> (#[trigger] replies[j]) is Ok,
                forall|j: int|
                    0 <= j < i ==> may_flush(
                        calls[j],
                        before@.worlds[j],
                        before@.waiting[before@.worlds[j]].events,
                        calls[j + 1],
                        #[trigger] replies[j],
                    ),
        {
            let world = table.key_at(i);
            let w = table.value_at(i);
            assert(before@.worlds[i as int] == world@);
            assert(before@.waiting[world@] == w@);
            let ghost earlier_calls = calls;
            let ghost earlier = replies;
            let reply = self.flush(world, duplicate_all(w.events.as_slice()));
            proof {
                replies = earlier.push(reply);
                calls = earlier_calls.push(self@.calls);
                assert forall|j: int| 0 <= j < replies.len() implies may_flush(
                    calls[j],
                    before@.worlds[j],
                    before@.waiting[before@.worlds[j]].events,
                    calls[j + 1],
                    #[trigger] replies[j],
                ) by {
                    if j < i {
                        assert(replies[j] == earlier[j]);
                        assert(calls[j] == earlier_calls[j] && calls[j + 1]
                            == earlier_calls[j + 1]);
                    }
                }
            }
            if let Err(e) = reply {
                assert(may_flush_all(before@, calls, replies, Err(e)));
                return Err(e);
            }
        }
        assert(may_flush_all(before@, calls, replies, Ok(())));
        Ok(())
    }
}

/// Every event is published: it waits, unless the events of its world are due.
pub proof fn event_waits_until_due(s: BroadcasterView, atom: AtomView, now: Instant, now_ms: u64)
    ensures
        ({
            let w = s.joined(s.event(atom, now_ms), now);
            &&& w.events.last().atom == atom
            &&& s.with_waiting(atom.world, w).waiting[atom.world] == w
            &&& s.with_waiting(atom.world, w).worlds.contains(atom.world)
        }),
{
    let w = s.joined(s.event(atom, now_ms), now);
    assert(s.with_waiting(atom.world, w).worlds.last() == atom.world);
}

}
