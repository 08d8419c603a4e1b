//! Point-to-point messages over a publish/subscribe bus.
//!
//! Each node has an inbox subject. The bus hands what arrives on a subject to whoever
//! subscribed to it, by `deliver`. What a bus replies to a call is not known beforehand: the
//! model of a transport holds the calls made on the bus, with their replies, and a contract
//! says which calls are made and what follows from each possible reply.

use vstd::prelude::*;
use vstd::string::*;

use crate::clock::{Duration, Instant};
use crate::ids;
use crate::ids::new_batch_id;
use crate::lists;
use crate::message;
use crate::message::{CarrierView, MessageView, SwarmEnvelope, SwarmMessage};
use crate::swarm::{PeerId, SwarmError};
use crate::text;
use crate::wire::{from_bytes, Wire};

verus! {

broadcast use crate::lists::group_views;

/// The subject of messages for all nodes.
pub const SUBJECT_BROADCAST: &'static str = "dwbase.swarm.broadcast";

/// How long to rest after a failure: 200 milliseconds.
pub const FAILURE_REST_NANOS: u128 = 200_000_000;

/// How long to wait between two looks for a reply: 5 milliseconds.
pub const REPLY_POLL_NANOS: u128 = 5_000_000;

/// The inbox subject of a node.
pub open spec fn inbox_of(node_id: Seq<char>) -> Seq<char> {
    "dwbase.swarm."@ + node_id + ".inbox"@
}

/// The inbox subject of a node.
pub fn inbox_subject(node_id: &str) -> (r: String)
    ensures
        r@ == inbox_of(node_id@),
{
    text::joined3("dwbase.swarm.", node_id, ".inbox")
}

/// No two nodes share an inbox.
pub proof fn inboxes_differ(a: Seq<char>, b: Seq<char>)
    requires
        inbox_of(a) == inbox_of(b),
    ensures
        a == b,
{
    let (p, q) = ("dwbase.swarm."@, ".inbox"@);
    assert((p + a + q).len() == p.len() + a.len() + q.len());
    assert((p + b + q).len() == p.len() + b.len() + q.len());
    assert(a =~= (p + a + q).subrange(p.len() as int, (p.len() + a.len()) as int));
    assert(b =~= (p + b + q).subrange(p.len() as int, (p.len() + b.len()) as int));
}

/// A call on a bus.
pub ghost enum BusCall {
    Publish {
        subject: Seq<char>,
        reply_to: Option<Seq<char>>,
        bytes: Seq<u8>,
        reply: Result<(), SwarmError>,
    },
    Subscribe { subject: Seq<char>, reply: Result<(), SwarmError> },
}

/// A bus that carries messages between nodes.
pub trait SwarmBus {
    /// The calls made so far; each implementation says where it keeps them.
    closed spec fn history(&self) -> Seq<BusCall> {
        arbitrary()
    }

    /// Hands bytes to all who subscribed to a subject.
    fn publish(&mut self, subject: &str, reply_to: Option<&str>, bytes: Vec<u8>) -> (r: Result<
        (),
        SwarmError,
    >)
        ensures
            final(self).history() == old(self).history().push(
                BusCall::Publish {
                    subject: subject@,
                    reply_to: lists::opt_view(reply_to),
                    bytes: bytes@,
                    reply: r,
                },
            ),
    ;

    /// Asks for what arrives on a subject.
    fn subscribe(&mut self, subject: &str) -> (r: Result<(), SwarmError>)
        ensures
            final(self).history() == old(self).history().push(
                BusCall::Subscribe { subject: subject@, reply: r },
            ),
    ;
}

/// Whether a bus has replied so to being asked for what arrives on a subject.
pub open spec fn has_replied<B: SwarmBus>(
    bus: B,
    subject: Seq<char>,
    reply: Result<(), SwarmError>,
) -> bool {
    exists|b: &mut B, s: &str|
        *b == bus && s@ == subject && #[trigger] call_ensures(B::subscribe, (b, s), reply)
}

/// A node's end of the bus.
pub struct NatsSwarmTransport<B> {
    pub bus: B,
    pub self_id: PeerId,
    pub backoff_until: Option<u128>,
    pub rx: Vec<(String, SwarmEnvelope)>,
}

/// Model of a node's end of the bus: until when it rests, in nanoseconds on the clock, what
/// has arrived, each envelope with the subject for replies, and the calls made on the bus.
#[verifier::ext_equal]
pub ghost struct TransportView {
    pub self_id: Seq<char>,
    pub backoff_until: Option<u128>,
    pub rx: Seq<(Seq<char>, CarrierView)>,
    pub calls: Seq<BusCall>,
}

impl<B: SwarmBus> View for NatsSwarmTransport<B> {
    type V = TransportView;

    open spec fn view(&self) -> TransportView {
        TransportView {
            self_id: self.self_id@,
            backoff_until: self.backoff_until,
            rx: lists::views(self.rx@),
            calls: self.bus.history(),
        }
    }
}

impl TransportView {
    /// The transport after one more call on the bus.
    pub open spec fn with_call(self, call: BusCall) -> TransportView {
        TransportView { calls: self.calls.push(call), ..self }
    }

    /// The transport after bytes were published, with such a reply.
    pub open spec fn published(
        self,
        subject: Seq<char>,
        reply_to: Option<Seq<char>>,
        bytes: Seq<u8>,
        reply: Result<(), SwarmError>,
    ) -> TransportView {
        self.with_call(BusCall::Publish { subject, reply_to, bytes, reply })
    }

    /// The transport after a subject was asked for, with such a reply.
    pub open spec fn subscribed(
        self,
        subject: Seq<char>,
        reply: Result<(), SwarmError>,
    ) -> TransportView {
        self.with_call(BusCall::Subscribe { subject, reply })
    }

    /// Whether the node rests after a failure.
    pub open spec fn rests(self, now: Instant) -> bool {
        self.backoff_until matches Some(until) && until > now.nanos
    }

    /// The transport after a failure.
    pub open spec fn failed(self, now: Instant) -> TransportView {
        TransportView {
            backoff_until: Some((now.nanos + FAILURE_REST_NANOS) as u128),
            ..self
        }
    }

    /// The transport after bytes have arrived for the node.
    pub open spec fn delivered(self, bytes: Seq<u8>, reply_to: Option<Seq<char>>) -> TransportView {
        match message::arrived(bytes) {
            Some(e) => TransportView {
                rx: self.rx.push(
                    (
                        match reply_to {
                            Some(s) => s,
                            None => Seq::empty(),
                        },
                        e,
                    ),
                ),
                ..self
            },
            None => self,
        }
    }
}

/// Whether sending a message to a node may lead from one transport to another, and to such a
/// result: nothing happens while the limiter does not allow it or the node rests; else an
/// envelope for the message is published on the receiver's inbox, once and with nothing
/// besides, and a failure is remembered.
pub open spec fn may_send<F: Fn() -> bool>(
    allow: F,
    before: TransportView,
    to: Seq<char>,
    msg: MessageView,
    now: Instant,
    after: TransportView,
    r: Result<(), SwarmError>,
) -> bool {
    exists|allowed: bool|
        #![trigger call_ensures(allow, (), allowed)]
        call_ensures(allow, (), allowed) && if !allowed || before.rests(now) {
            r is Ok && after == before
        } else {
            exists|e: CarrierView| #[trigger]
                e.carries(before.self_id, Some(to), msg, None) && e.is_stamped()
                    && SwarmEnvelope::fits(e) && {
                    let sent = before.published(inbox_of(to), None, SwarmEnvelope::packed(e), r);
                    after == if r is Ok {
                        sent
                    } else {
                        sent.failed(now)
                    }
                }
        }
}

/// Why a request got no reply.
#[derive(Debug)]
pub enum RequestError {
    BackingOff,
    Timeout,
    Bus(SwarmError),
}

impl RequestError {
    /// What the error says.
    pub open spec fn says(self) -> Seq<char> {
        match self {
            RequestError::BackingOff => "backing off"@,
            RequestError::Timeout => "request timeout"@,
            RequestError::Bus(e) => e@.message(),
        }
    }

    /// What the error says.
    pub fn message(&self) -> (r: String)
        ensures
            r@ == self.says(),
    {
        match self {
            RequestError::BackingOff => "backing off".to_owned(),
            RequestError::Timeout => "request timeout".to_owned(),
            RequestError::Bus(e) => e.message(),
        }
    }
}

/// A request that waits for its reply.
#[derive(Debug)]
pub struct PendingRequest {
    pub reply_subject: String,
    pub started: Instant,
    pub timeout: Duration,
    pub replies: Vec<SwarmEnvelope>,
}

/// What to do about a request that waits for its reply.
#[derive(Debug)]
pub enum RequestStep {
    Reply(SwarmEnvelope),
    Wait(Duration),
    Failed(RequestError),
}

impl PendingRequest {
    /// Bytes have arrived on the subject for replies.
    pub fn deliver(&mut self, bytes: &[u8])
        ensures
            final(self).reply_subject == old(self).reply_subject,
            final(self).started == old(self).started,
            final(self).timeout == old(self).timeout,
            lists::views(final(self).replies@) == match SwarmEnvelope::read(bytes@) {
                Some((e, _)) => lists::views(old(self).replies@).push(e),
                None => lists::views(old(self).replies@),
            },
    {
        if let Some(e) = from_bytes::<SwarmEnvelope>(bytes) {
            self.replies.push(e);
        }
    }

    /// Whether the time for a reply has not run out.
    pub open spec fn is_open(self, now: Instant) -> bool {
        now.since(self.started) < self.timeout.nanos
    }
}

/// Whether a subject for replies is one of the node.
pub open spec fn is_reply_subject(subject: Seq<char>, self_id: Seq<char>) -> bool {
    exists|id: Seq<char>|
        ids::is_fresh::<8>(id) && subject == #[trigger] reply_subject_of(self_id, id)
}

/// The subject for the replies to a request.
pub open spec fn reply_subject_of(self_id: Seq<char>, id: Seq<char>) -> Seq<char> {
    "dwbase.swarm.reply."@ + self_id + "."@ + id
}

impl<B: SwarmBus> NatsSwarmTransport<B> {
    /// A node's end of the bus; asks for what arrives in its inbox.
    pub fn new(bus: B, self_id: PeerId) -> (r: Result<Self, SwarmError>)
        ensures
            exists|reply: Result<(), SwarmError>| #[trigger]
                has_replied(bus, inbox_of(self_id@), reply) && match reply {
                    Ok(_) => r matches Ok(t) && t@ == (TransportView {
                        self_id: self_id@,
                        backoff_until: None,
                        rx: Seq::empty(),
                        calls: bus.history(),
                    }).subscribed(inbox_of(self_id@), reply),
                    Err(e) => r matches Err(x) && x == e,
                },
    {
        let inbox = inbox_subject(self_id.0.as_str());
        let subject = inbox.as_str();
        let mut bus = bus;
        let ghost given = bus;
        let reply = bus.subscribe(subject);
        assert(has_replied(given, inbox_of(self_id@), reply));
        match reply {
            Ok(_) => Ok(NatsSwarmTransport { bus, self_id, backoff_until: None, rx: Vec::new() }),
            Err(e) => Err(e),
        }
    }

    /// Bytes have arrived in the inbox.
    pub fn deliver(&mut self, bytes: &[u8], reply_to: Option<String>)
        ensures
            final(self).bus == old(self).bus,
            final(self)@ == old(self)@.delivered(bytes@, lists::opt_view(reply_to)),
    {
        if let Some(e) = SwarmEnvelope::from_inbox_bytes(bytes) {
            let subject = match reply_to {
                Some(s) => s,
                None => String::new(),
            };
            self.rx.push((subject, e));
        }
    }

    /// Whether the node rests after a failure.
    pub fn is_backing_off(&self, now: Instant) -> (r: bool)
        ensures
            r == self@.rests(now),
    {
        match self.backoff_until {
            Some(until) => until > now.nanos as u128,
            None => false,
        }
    }

    /// Remembers a failure.
    pub fn mark_failure(&mut self, now: Instant)
        ensures
            final(self).bus == old(self).bus,
            final(self)@ == old(self)@.failed(now),
    {
        self.backoff_until = Some(now.nanos as u128 + FAILURE_REST_NANOS);
    }

    /// Sends a message to a node, unless the limiter does not allow it or the node rests.
    pub fn send_direct<F: Fn() -> bool>(
        &mut self,
        to: PeerId,
        msg: SwarmMessage,
        now: Instant,
        allow: &F,
    ) -> (r: Result<(), SwarmError>)
        requires
            call_requires(*allow, ()),
        ensures
            may_send(*allow, old(self)@, to@, msg@, now, final(self)@, r),
    {
        let ghost before = *self;
        let allowed: bool = allow();
        if !allowed {
            return Ok(());
        }
        if self.is_backing_off(now) {
            return Ok(());
        }
        let ghost model = msg@;
        let dest = inbox_subject(to.0.as_str());
        let ghost receiver = to@;
        let env = SwarmEnvelope::new(self.self_id.clone(), Some(to), msg, None)?;
        let bytes = env.to_inbox_bytes();
        let reply = self.bus.publish(dest.as_str(), None, bytes);
        proof {
            assert(env@.carries(before@.self_id, Some(receiver), model, None));
            assert(self@ =~= before@.published(
                inbox_of(receiver),
                None,
                SwarmEnvelope::packed(env@),
                reply,
            ));
        }
        if reply.is_err() {
            self.mark_failure(now);
        }
        reply
    }

    /// Sends a message to a node and asks for what arrives on a subject for replies.
    pub fn request(&mut self, to: PeerId, msg: SwarmMessage, timeout: Duration, now: Instant) -> (r:
        Result<PendingRequest, RequestError>)
        ensures
            old(self)@.rests(now) ==> final(self)@ == old(self)@ && r == Err::<PendingRequest, _>(
                RequestError::BackingOff,
            ),
            !old(self)@.rests(now) ==> exists|subject: Seq<char>, reply: Result<(), SwarmError>|
                #![trigger old(self)@.subscribed(subject, reply)]
                is_reply_subject(subject, old(self)@.self_id) && match reply {
                    Err(e) => final(self)@ == old(self)@.subscribed(subject, reply) && r == Err::<
                        PendingRequest,
                        _,
                    >(RequestError::Bus(e)),
                    Ok(_) => exists|e: CarrierView, sent: Result<(), SwarmError>|
                        #![trigger old(self)@.subscribed(subject, reply).published(
                            inbox_of(to@),
                            Some(subject),
                            SwarmEnvelope::packed(e),
                            sent,
                        )]
                        e.carries(old(self)@.self_id, Some(to@), msg@, Some(subject))
                            && e.is_stamped() && final(self)@ == old(self)@.subscribed(subject, reply).published(
                            inbox_of(to@),
                            Some(subject),
                            SwarmEnvelope::packed(e),
                            sent,
                        ) && match sent {
                            Err(e) => r == Err::<PendingRequest, _>(RequestError::Bus(e)),
                            Ok(_) => r matches Ok(p) && p.reply_subject@ == subject && p.started
                                == now && p.timeout == timeout && p.replies@.len() == 0,
                        },
                },
    {
        let ghost before = *self;
        if self.is_backing_off(now) {
            return Err(RequestError::BackingOff);
        }
        let id = new_batch_id();
        let mut reply_subject = text::joined3("dwbase.swarm.reply.", self.self_id.0.as_str(), ".");
        reply_subject.append(id.as_str());
        let subject = reply_subject.as_str();
        let ghost subject_model = subject@;
        assert(subject@ == reply_subject_of(self@.self_id, id@));
        assert(is_reply_subject(subject@, self@.self_id));
        let reply = self.bus.subscribe(subject);
        let ghost replied = reply;
        assert(self@ =~= before@.subscribed(subject_model, replied));
        if let Err(e) = reply {
            return Err(RequestError::Bus(e));
        }
        let dest = inbox_subject(to.0.as_str());
        let ghost receiver = to@;
        let ghost model = msg@;
        let env = match SwarmEnvelope::new(
            self.self_id.clone(),
            Some(to),
            msg,
            Some(reply_subject.clone()),
        ) {
            Ok(env) => env,
            Err(e) => {
                return Err(RequestError::Bus(e));
            },
        };
        let bytes = env.to_inbox_bytes();
        let sent = self.bus.publish(dest.as_str(), Some(subject), bytes);
        assert(self@ =~= before@.subscribed(subject_model, replied).published(
            inbox_of(receiver),
            Some(subject_model),
            SwarmEnvelope::packed(env@),
            sent,
        ));
        match sent {
            Ok(_) => Ok(
                PendingRequest { reply_subject, started: now, timeout, replies: Vec::new() },
            ),
            Err(e) => Err(RequestError::Bus(e)),
        }
    }

    /// Looks for the reply to a request: while there is time, the latest one that has arrived;
    /// after that the request has failed, and the node rests.
    pub fn poll_reply(&mut self, pending: &mut PendingRequest, now: Instant) -> (r: RequestStep)
        ensures
            final(self).bus == old(self).bus,
            final(pending).reply_subject == old(pending).reply_subject,
            final(pending).started == old(pending).started,
            final(pending).timeout == old(pending).timeout,
            !old(pending).is_open(now) ==> r == RequestStep::Failed(RequestError::Timeout)
                && final(self)@ == old(self)@.failed(now) && final(pending).replies@
                == old(pending).replies@,
            old(pending).is_open(now) ==> *final(self) == *old(self),
            old(pending).is_open(now) && old(pending).replies@.len() > 0 ==> (r
                matches RequestStep::Reply(e) && e == old(pending).replies@.last())
                && final(pending).replies@ == old(pending).replies@.drop_last(),
            old(pending).is_open(now) && old(pending).replies@.len() == 0 ==> (r
                matches RequestStep::Wait(d) && d.nanos == REPLY_POLL_NANOS)
                && final(pending).replies@ == old(pending).replies@,
    {
        if now.duration_since(pending.started).nanos < pending.timeout.nanos {
            match pending.replies.pop() {
                Some(e) => RequestStep::Reply(e),
                None => RequestStep::Wait(Duration { nanos: REPLY_POLL_NANOS }),
            }
        } else {
            self.mark_failure(now);
            RequestStep::Failed(RequestError::Timeout)
        }
    }

    /// The latest envelope that has arrived, with the subject for replies.
    pub fn poll(&mut self) -> (r: Option<(String, SwarmEnvelope)>)
        ensures
            final(self).bus == old(self).bus,
            old(self)@.rx.len() == 0 ==> r is None && final(self)@ == old(self)@,
            old(self)@.rx.len() > 0 ==> (r matches Some((s, e)) && (s@, e@)
                == old(self)@.rx.last()) && final(self)@ == (TransportView {
                rx: old(self)@.rx.drop_last(),
                ..old(self)@
            }),
    {
        let ghost before = self.rx@;
        let r = self.rx.pop();
        proof {
            if before.len() > 0 {
                assert(lists::views(before.drop_last()) =~= lists::views(before).drop_last());
                assert(lists::views(before).last() == before.last().view());
            }
        }
        r
    }

    /// Replies to a request.
    pub fn respond(&mut self, reply_to: &str, msg: SwarmMessage, correlation_id: String) -> (r:
        Result<(), SwarmError>)
        ensures
            exists|e: CarrierView|
                #![trigger SwarmEnvelope::packed(e)]
                e.kind == msg@.name() && e.from == old(self)@.self_id && e.to is None && e.reply_to
                    is None && e.correlation_id == correlation_id@
                    && message::is_reading_ms(e.sent_at_ms) && e.payload
                    == SwarmMessage::packed(msg@) && final(self)@ == old(self)@.published(
                    reply_to@,
                    None,
                    SwarmEnvelope::packed(e),
                    r,
                ),
    {
        let ghost before = *self;
        let mut env = SwarmEnvelope::new(self.self_id.clone(), None, msg, None)?;
        env.correlation_id = correlation_id;
        let bytes = env.to_inbox_bytes();
        let r = self.bus.publish(reply_to, None, bytes);
        assert(self@ =~= before@.published(reply_to@, None, SwarmEnvelope::packed(env@), r));
        r
    }
}

}
