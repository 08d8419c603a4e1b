//! Messages between the peers of a swarm.

use vstd::prelude::*;
use vstd::string::*;

use crate::codec;
use crate::lists;
use crate::lists::Duplicate;
use crate::single::Single;
use crate::summary::SummaryAdvert;
use crate::summary::AdvertView;
use crate::text;

verus! {

broadcast use crate::lists::group_views;

/// Errors surfaced by the swarm.
#[derive(Debug, PartialEq, Eq)]
pub enum SwarmError {
    Io(String),
    Encode(String),
    Decode(String),
    Oversize(usize, usize),
}

/// Model of a swarm error.
pub ghost enum SwarmErrorView {
    Io(Seq<char>),
    Encode(Seq<char>),
    Decode(Seq<char>),
    Oversize(usize, usize),
}

impl View for SwarmError {
    type V = SwarmErrorView;

    open spec fn view(&self) -> SwarmErrorView {
        match self {
            SwarmError::Io(s) => SwarmErrorView::Io(s@),
            SwarmError::Encode(s) => SwarmErrorView::Encode(s@),
            SwarmError::Decode(s) => SwarmErrorView::Decode(s@),
            SwarmError::Oversize(n, max) => SwarmErrorView::Oversize(*n, *max),
        }
    }
}

impl SwarmErrorView {
    /// What the error says.
    pub open spec fn message(self) -> Seq<char> {
        match self {
            SwarmErrorView::Io(s) => "io error: "@ + s,
            SwarmErrorView::Encode(s) => "encode error: "@ + s,
            SwarmErrorView::Decode(s) => "decode error: "@ + s,
            SwarmErrorView::Oversize(n, max) => "datagram too large ("@ + text::decimal(n as nat)
                + " > "@ + text::decimal(max as nat) + ")"@,
        }
    }
}

impl SwarmError {
    /// What the error says.
    pub fn message(&self) -> (r: String)
        ensures
            r@ == self@.message(),
    {
        match self {
            SwarmError::Io(s) => text::joined("io error: ", s.as_str()),
            SwarmError::Encode(s) => text::joined("encode error: ", s.as_str()),
            SwarmError::Decode(s) => text::joined("decode error: ", s.as_str()),
            SwarmError::Oversize(n, max) => {
                let mut out = text::joined(
                    "datagram too large (",
                    text::decimal_of(*n as u64).as_str(),
                );
                out.append(" > ");
                out.append(text::decimal_of(*max as u64).as_str());
                out.append(")");
                out
            },
        }
    }
}

/// Identifier for a peer in the swarm.
#[derive(Debug, PartialEq, Eq, Hash)]
pub struct PeerId(pub String);

impl View for PeerId {
    type V = Seq<char>;

    open spec fn view(&self) -> Seq<char> {
        self.0@
    }
}

impl Clone for PeerId {
    fn clone(&self) -> (r: Self)
        ensures
            r@ == self@,
    {
        PeerId(self.0.clone())
    }
}

impl Duplicate for PeerId {
    fn duplicate(&self) -> (r: Self) {
        self.clone()
    }
}

impl PeerId {
    pub fn new(s: &str) -> (r: Self)
        ensures
            r@ == s@,
    {
        PeerId(s.to_owned())
    }
}

/// What a peer is interested in.
#[derive(Clone, Copy, Debug, PartialEq, Eq, Structural)]
pub enum InterestKind {
    Atoms,
    Summaries,
}

/// A peer's subscription intent for a world (or pattern).
#[derive(Debug, PartialEq)]
pub struct WorldSubscription {
    pub world_pattern: String,
    pub kinds: Vec<InterestKind>,
}

/// Model of a subscription.
#[verifier::ext_equal]
pub ghost struct SubscriptionView {
    pub world_pattern: Seq<char>,
    pub kinds: Seq<InterestKind>,
}

impl View for WorldSubscription {
    type V = SubscriptionView;

    open spec fn view(&self) -> SubscriptionView {
        SubscriptionView { world_pattern: self.world_pattern@, kinds: self.kinds@ }
    }
}

impl Clone for WorldSubscription {
    fn clone(&self) -> (r: Self)
        ensures
            r@ == self@,
    {
        let mut kinds: Vec<InterestKind> = Vec::new();
        for i in 0..self.kinds.len()
            invariant
                kinds@ == self.kinds@.subrange(0, i as int),
        {
            kinds.push(self.kinds[i]);
        }
        assert(kinds@ == self.kinds@);
        WorldSubscription { world_pattern: self.world_pattern.clone(), kinds }
    }
}

impl Duplicate for WorldSubscription {
    fn duplicate(&self) -> (r: Self) {
        self.clone()
    }
}

/// Metadata describing a peer; the address is written as `host:port`.
#[derive(Debug, PartialEq)]
pub struct PeerInfo {
    pub id: PeerId,
    pub addr: String,
    pub trust_score: Single,
    pub worlds: Vec<String>,
    pub subscriptions: Vec<WorldSubscription>,
    pub summary_adverts: Vec<SummaryAdvert>,
}

/// Model of peer metadata.
#[verifier::ext_equal]
pub ghost struct PeerView {
    pub id: Seq<char>,
    pub addr: Seq<char>,
    pub trust_score: Single,
    pub worlds: Seq<Seq<char>>,
    pub subscriptions: Seq<SubscriptionView>,
    pub summary_adverts: Seq<AdvertView>,
}

impl View for PeerInfo {
    type V = PeerView;

    open spec fn view(&self) -> PeerView {
        PeerView {
            id: self.id@,
            addr: self.addr@,
            trust_score: self.trust_score,
            worlds: lists::views(self.worlds@),
            subscriptions: lists::views(self.subscriptions@),
            summary_adverts: lists::views(self.summary_adverts@),
        }
    }
}

impl Clone for PeerInfo {
    fn clone(&self) -> (r: Self)
        ensures
            r@ == self@,
    {
        PeerInfo {
            id: self.id.clone(),
            addr: self.addr.clone(),
            trust_score: self.trust_score,
            worlds: lists::duplicate_all(self.worlds.as_slice()),
            subscriptions: lists::duplicate_all(self.subscriptions.as_slice()),
            summary_adverts: lists::duplicate_all(self.summary_adverts.as_slice()),
        }
    }
}

impl Duplicate for PeerInfo {
    fn duplicate(&self) -> (r: Self) {
        self.clone()
    }
}

/// Initial handshake: declares identity, served worlds, and subscription intents.
#[derive(Debug, PartialEq)]
pub struct Hello {
    pub peer: PeerInfo,
    pub subscriptions: Vec<WorldSubscription>,
}

/// Model of a handshake.
#[verifier::ext_equal]
pub ghost struct HelloView {
    pub peer: PeerView,
    pub subscriptions: Seq<SubscriptionView>,
}

impl View for Hello {
    type V = HelloView;

    open spec fn view(&self) -> HelloView {
        HelloView { peer: self.peer@, subscriptions: lists::views(self.subscriptions@) }
    }
}

impl Clone for Hello {
    fn clone(&self) -> (r: Self)
        ensures
            r@ == self@,
    {
        Hello {
            peer: self.peer.clone(),
            subscriptions: lists::duplicate_all(self.subscriptions.as_slice()),
        }
    }
}

/// Basic envelope category marker.
#[derive(Debug, PartialEq, Eq)]
pub enum EnvelopeKind {
    Ping,
    Membership,
    Hello,
    SummaryAdvert,
    BloomOffer,
    MissingRequest,
    AtomBatch,
    Gossip,
    Custom(String),
}

/// Model of an envelope category.
pub ghost enum KindView {
    Ping,
    Membership,
    Hello,
    SummaryAdvert,
    BloomOffer,
    MissingRequest,
    AtomBatch,
    Gossip,
    Custom(Seq<char>),
}

impl View for EnvelopeKind {
    type V = KindView;

    open spec fn view(&self) -> KindView {
        match self {
            EnvelopeKind::Ping => KindView::Ping,
            EnvelopeKind::Membership => KindView::Membership,
            EnvelopeKind::Hello => KindView::Hello,
            EnvelopeKind::SummaryAdvert => KindView::SummaryAdvert,
            EnvelopeKind::BloomOffer => KindView::BloomOffer,
            EnvelopeKind::MissingRequest => KindView::MissingRequest,
            EnvelopeKind::AtomBatch => KindView::AtomBatch,
            EnvelopeKind::Gossip => KindView::Gossip,
            EnvelopeKind::Custom(s) => KindView::Custom(s@),
        }
    }
}

impl Clone for EnvelopeKind {
    fn clone(&self) -> (r: Self)
        ensures
            r@ == self@,
    {
        match self {
            EnvelopeKind::Ping => EnvelopeKind::Ping,
            EnvelopeKind::Membership => EnvelopeKind::Membership,
            EnvelopeKind::Hello => EnvelopeKind::Hello,
            EnvelopeKind::SummaryAdvert => EnvelopeKind::SummaryAdvert,
            EnvelopeKind::BloomOffer => EnvelopeKind::BloomOffer,
            EnvelopeKind::MissingRequest => EnvelopeKind::MissingRequest,
            EnvelopeKind::AtomBatch => EnvelopeKind::AtomBatch,
            EnvelopeKind::Gossip => EnvelopeKind::Gossip,
            EnvelopeKind::Custom(s) => EnvelopeKind::Custom(s.clone()),
        }
    }
}

impl KindView {
    /// The name of the category, as it is written.
    pub open spec fn name(self) -> Seq<char> {
        match self {
            KindView::Ping => "Ping"@,
            KindView::Membership => "Membership"@,
            KindView::Hello => "Hello"@,
            KindView::SummaryAdvert => "SummaryAdvert"@,
            KindView::BloomOffer => "BloomOffer"@,
            KindView::MissingRequest => "MissingRequest"@,
            KindView::AtomBatch => "AtomBatch"@,
            KindView::Gossip => "Gossip"@,
            KindView::Custom(_) => "Custom"@,
        }
    }
}

/// The category with a name, other than a custom one.
pub open spec fn kind_named(name: Seq<char>) -> Option<KindView> {
    if name == "Ping"@ {
        Some(KindView::Ping)
    } else if name == "Membership"@ {
        Some(KindView::Membership)
    } else if name == "Hello"@ {
        Some(KindView::Hello)
    } else if name == "SummaryAdvert"@ {
        Some(KindView::SummaryAdvert)
    } else if name == "BloomOffer"@ {
        Some(KindView::BloomOffer)
    } else if name == "MissingRequest"@ {
        Some(KindView::MissingRequest)
    } else if name == "AtomBatch"@ {
        Some(KindView::AtomBatch)
    } else if name == "Gossip"@ {
        Some(KindView::Gossip)
    } else {
        None
    }
}

/// A category other than a custom one is the one with its name.
pub proof fn kind_has_its_name(kind: KindView)
    requires
        !(kind is Custom),
    ensures
        kind_named(kind.name()) == Some(kind),
{
    reveal_strlit("Ping");
    reveal_strlit("Membership");
    reveal_strlit("Hello");
    reveal_strlit("SummaryAdvert");
    reveal_strlit("BloomOffer");
    reveal_strlit("MissingRequest");
    reveal_strlit("AtomBatch");
    reveal_strlit("Gossip");
    assert("Ping"@.len() == 4);
    assert("Hello"@.len() == 5);
    assert("Gossip"@.len() == 6);
    assert("AtomBatch"@.len() == 9);
    assert("Membership"@.len() == 10);
    assert("BloomOffer"@.len() == 10);
    assert("Membership"@[0] == 'M');
    assert("BloomOffer"@[0] == 'B');
    assert("SummaryAdvert"@.len() == 13);
    assert("MissingRequest"@.len() == 14);
}

/// The name of a category.
fn kind_name(kind: &EnvelopeKind) -> (r: &'static str)
    ensures
        r@ == kind@.name(),
{
    match kind {
        EnvelopeKind::Ping => "Ping",
        EnvelopeKind::Membership => "Membership",
        EnvelopeKind::Hello => "Hello",
        EnvelopeKind::SummaryAdvert => "SummaryAdvert",
        EnvelopeKind::BloomOffer => "BloomOffer",
        EnvelopeKind::MissingRequest => "MissingRequest",
        EnvelopeKind::AtomBatch => "AtomBatch",
        EnvelopeKind::Gossip => "Gossip",
        EnvelopeKind::Custom(_) => "Custom",
    }
}

/// The category with a name, other than a custom one.
fn kind_from_name(name: &str) -> (r: Option<EnvelopeKind>)
    ensures
        lists::opt_view(r) == kind_named(name@),
{
    if text::same(name, "Ping") {
        Some(EnvelopeKind::Ping)
    } else if text::same(name, "Membership") {
        Some(EnvelopeKind::Membership)
    } else if text::same(name, "Hello") {
        Some(EnvelopeKind::Hello)
    } else if text::same(name, "SummaryAdvert") {
        Some(EnvelopeKind::SummaryAdvert)
    } else if text::same(name, "BloomOffer") {
        Some(EnvelopeKind::BloomOffer)
    } else if text::same(name, "MissingRequest") {
        Some(EnvelopeKind::MissingRequest)
    } else if text::same(name, "AtomBatch") {
        Some(EnvelopeKind::AtomBatch)
    } else if text::same(name, "Gossip") {
        Some(EnvelopeKind::Gossip)
    } else {
        None
    }
}

/// Envelope wire format exchanged between peers; `sent_at` is the time since the unix
/// epoch, in seconds and nanoseconds.
#[derive(Debug, PartialEq)]
pub struct Envelope {
    pub kind: EnvelopeKind,
    pub from: PeerId,
    pub to: Option<PeerId>,
    pub payload_bytes: Vec<u8>,
    pub sent_at: (u64, u32),
}

/// Model of an envelope.
#[verifier::ext_equal]
pub ghost struct EnvelopeView {
    pub kind: KindView,
    pub from: Seq<char>,
    pub to: Option<Seq<char>>,
    pub payload_bytes: Seq<u8>,
    pub sent_at: (u64, u32),
}

impl View for Envelope {
    type V = EnvelopeView;

    open spec fn view(&self) -> EnvelopeView {
        EnvelopeView {
            kind: self.kind@,
            from: self.from@,
            to: lists::opt_view(self.to),
            payload_bytes: self.payload_bytes@,
            sent_at: self.sent_at,
        }
    }
}

impl EnvelopeView {
    /// Whether all the lengths in the envelope fit in 32 bits.
    pub open spec fn fits(self) -> bool {
        &&& self.kind matches KindView::Custom(s) ==> codec::text_fits(s)
        &&& codec::text_fits(self.from)
        &&& self.to matches Some(to) ==> codec::text_fits(to)
        &&& self.payload_bytes.len() <= u32::MAX
    }
}

/// `std::time::SystemTime`, a reading of the operating system's clock.
#[verifier::external_type_specification]
#[verifier::external_body]
pub struct ExSystemTime(std::time::SystemTime);

/// `std::time::SystemTime::now` reads the operating system's clock; nothing is said of the
/// reading.
#[verifier::external_body]
fn read_system_clock() -> std::time::SystemTime {
    std::time::SystemTime::now()
}

/// `std::time::SystemTime::duration_since` gives the time from the unix epoch to a reading, if
/// the reading is not before it; nothing is said of how long that is.
#[verifier::external_body]
fn since_epoch(reading: &std::time::SystemTime) -> Option<std::time::Duration> {
    reading.duration_since(std::time::UNIX_EPOCH).ok()
}

/// `std::time::Duration::as_secs` gives the whole seconds of a span; nothing is said of how
/// many there are.
#[verifier::external_body]
fn whole_secs(span: &std::time::Duration) -> u64 {
    span.as_secs()
}

/// `std::time::Duration::subsec_nanos` gives the nanoseconds of a span beyond its whole
/// seconds: fewer than make a second.
#[verifier::external_body]
fn further_nanos(span: &std::time::Duration) -> (r: u32)
    ensures
        r < 1_000_000_000,
{
    span.subsec_nanos()
}

/// Whether a reading of the system clock is so far from the unix epoch, if it is not before it.
spec fn is_since_epoch(span: Option<std::time::Duration>) -> bool {
    exists|reading: std::time::SystemTime| #[trigger]
        call_ensures(read_system_clock, (), reading) && call_ensures(
            since_epoch,
            (&reading,),
            span,
        )
}

/// Whether a span has so many whole seconds, and so many nanoseconds beyond them.
spec fn has_parts(span: std::time::Duration, time: (u64, u32)) -> bool {
    call_ensures(whole_secs, (&span,), time.0) && call_ensures(further_nanos, (&span,), time.1)
}

/// Whether a time is a reading of the system clock: seconds and nanoseconds since the unix
/// epoch, none where the clock is before it.
pub closed spec fn is_reading(time: (u64, u32)) -> bool {
    exists|span: Option<std::time::Duration>| #[trigger]
        is_since_epoch(span) && match span {
            Some(span) => has_parts(span, time),
            None => time == (0u64, 0u32),
        }
}

/// The seconds and nanoseconds since the unix epoch; none, where the clock is before it.
pub(crate) fn system_time() -> (r: (u64, u32))
    ensures
        is_reading(r),
{
    let reading = read_system_clock();
    assert(call_ensures(read_system_clock, (), reading));
    let span = since_epoch(&reading);
    assert(is_since_epoch(span));
    match span {
        Some(span) => {
            let time: (u64, u32) = (whole_secs(&span), further_nanos(&span));
            assert(has_parts(span, time));
            time
        },
        None => (0, 0),
    }
}

/// What an envelope with a named category is encoded as, or why it is not.
pub uninterp spec fn named_packed(
    kind: Seq<char>,
    from: Seq<char>,
    to: Option<Seq<char>>,
    payload: Seq<u8>,
    sent_at: (u64, u32),
) -> Result<Seq<u8>, Seq<char>>;

/// The envelope with a named category that some bytes encode, or why they encode none.
pub uninterp spec fn named_unpacked(b: Seq<u8>) -> Result<
    (Seq<char>, Seq<char>, Option<Seq<char>>, Seq<u8>, (u64, u32)),
    Seq<char>,
>;

/// What an envelope with a category that carries a text is encoded as, or why it is not.
pub uninterp spec fn tagged_packed(
    tag: Seq<char>,
    text: Seq<char>,
    from: Seq<char>,
    to: Option<Seq<char>>,
    payload: Seq<u8>,
    sent_at: (u64, u32),
) -> Result<Seq<u8>, Seq<char>>;

/// The envelope with a category that carries texts that some bytes encode, or why they
/// encode none.
pub uninterp spec fn tagged_unpacked(b: Seq<u8>) -> Result<
    (Seq<(Seq<char>, Seq<char>)>, Seq<char>, Option<Seq<char>>, Seq<u8>, (u64, u32)),
    Seq<char>,
>;

/// `rmp_serde::to_vec` of the name of a category, the sender, the receiver, the payload and
/// the time as a tuple is a function of them; where the lengths fit in 32 bits,
/// `rmp_serde::from_slice` reads them back.
#[verifier::external_body]
fn pack_named(
    kind: &str,
    from: &str,
    to: &Option<String>,
    payload: &Vec<u8>,
    sent_at: (u64, u32),
) -> (b: Result<Vec<u8>, String>)
    ensures
        b is Ok <==> named_packed(kind@, from@, lists::opt_view(*to), payload@, sent_at) is Ok,
        b matches Ok(v) ==> named_packed(
            kind@,
            from@,
            lists::opt_view(*to),
            payload@,
            sent_at,
        )->Ok_0 == v@,
        b matches Ok(v) ==> codec::text_fits(kind@) && codec::text_fits(from@) && (*to
            matches Some(t) ==> codec::text_fits(t@)) && payload@.len() <= u32::MAX
            ==> named_unpacked(v@) is Ok && named_unpacked(v@)->Ok_0 == (
            kind@,
            from@,
            lists::opt_view(*to),
            payload@,
            sent_at,
        ),
        b matches Err(e) ==> named_packed(
            kind@,
            from@,
            lists::opt_view(*to),
            payload@,
            sent_at,
        )->Err_0 == e@,
{
    rmp_serde::to_vec(&(kind, from, to, payload, sent_at)).map_err(|e| e.to_string())
}

/// `rmp_serde::from_slice` into a text, a sender, a receiver, a payload and a time is a
/// function of the bytes.
#[verifier::external_body]
fn unpack_named(b: &[u8]) -> (r: Result<
    (String, String, Option<String>, Vec<u8>, (u64, u32)),
    String,
>)
    ensures
        r is Ok <==> named_unpacked(b@) is Ok,
        r matches Ok(e) ==> named_unpacked(b@)->Ok_0 == (
            e.0@,
            e.1@,
            lists::opt_view(e.2),
            e.3@,
            e.4,
        ),
        r matches Err(e) ==> named_unpacked(b@)->Err_0 == e@,
{
    rmp_serde::from_slice(b).map_err(|e| e.to_string())
}

/// `rmp_serde::to_vec` of a map with one text, the sender, the receiver, the payload and the
/// time as a tuple is a function of them. It is not read as an envelope with a named category
/// and, where the lengths fit in 32 bits, `rmp_serde::from_slice` reads the parts back.
#[verifier::external_body]
fn pack_tagged(
    tag: &str,
    text: &str,
    from: &str,
    to: &Option<String>,
    payload: &Vec<u8>,
    sent_at: (u64, u32),
) -> (b: Result<Vec<u8>, String>)
    ensures
        b is Ok <==> tagged_packed(
            tag@,
            text@,
            from@,
            lists::opt_view(*to),
            payload@,
            sent_at,
        ) is Ok,
        b matches Ok(v) ==> tagged_packed(
            tag@,
            text@,
            from@,
            lists::opt_view(*to),
            payload@,
            sent_at,
        )->Ok_0 == v@ && named_unpacked(v@) is Err,
        b matches Ok(v) ==> codec::text_fits(tag@) && codec::text_fits(text@) && codec::text_fits(
            from@,
        ) && (*to matches Some(t) ==> codec::text_fits(t@)) && payload@.len() <= u32::MAX
            ==> tagged_unpacked(v@) is Ok && tagged_unpacked(v@)->Ok_0 == (
            seq![(tag@, text@)],
            from@,
            lists::opt_view(*to),
            payload@,
            sent_at,
        ),
        b matches Err(e) ==> tagged_packed(
            tag@,
            text@,
            from@,
            lists::opt_view(*to),
            payload@,
            sent_at,
        )->Err_0 == e@,
{
    let kind = std::collections::BTreeMap::from([(tag, text)]);
    rmp_serde::to_vec(&(kind, from, to, payload, sent_at)).map_err(|e| e.to_string())
}

/// `rmp_serde::from_slice` into a map of texts, a sender, a receiver, a payload and a time is
/// a function of the bytes.
#[verifier::external_body]
fn unpack_tagged(b: &[u8]) -> (r: Result<
    (Vec<(String, String)>, String, Option<String>, Vec<u8>, (u64, u32)),
    String,
>)
    ensures
        r is Ok <==> tagged_unpacked(b@) is Ok,
        r matches Ok(e) ==> tagged_unpacked(b@)->Ok_0 == (
            lists::views(e.0@),
            e.1@,
            lists::opt_view(e.2),
            e.3@,
            e.4,
        ),
        r matches Err(e) ==> tagged_unpacked(b@)->Err_0 == e@,
{
    rmp_serde::from_slice::<(std::collections::BTreeMap<String, String>, _, _, _, _)>(b).map(
        |(kind, from, to, payload, at)| (kind.into_iter().collect(), from, to, payload, at),
    ).map_err(|e| e.to_string())
}

/// What an envelope is encoded as, or why it is not.
pub open spec fn envelope_packed(e: EnvelopeView) -> Result<Seq<u8>, Seq<char>> {
    match e.kind {
        KindView::Custom(s) => tagged_packed(
            "Custom"@,
            s,
            e.from,
            e.to,
            e.payload_bytes,
            e.sent_at,
        ),
        kind => named_packed(kind.name(), e.from, e.to, e.payload_bytes, e.sent_at),
    }
}

/// The categories, as they are listed where none of them is meant.
pub const CATEGORIES: &'static str = "`Ping`, `Membership`, `Hello`, `SummaryAdvert`, `BloomOffer`, `MissingRequest`, `AtomBatch`, `Gossip`, `Custom`";

/// What is said of bytes that encode an envelope of no known category.
pub open spec fn unknown_category(name: Seq<char>) -> Seq<char> {
    "unknown variant `"@ + name + "`, expected one of "@ + CATEGORIES@
}

/// What is said of a name that stands alone and is not that of a category without a text.
pub open spec fn no_category(name: Seq<char>) -> Seq<char> {
    if name == "Custom"@ {
        "invalid type: unit variant, expected newtype variant"@
    } else {
        unknown_category(name)
    }
}

/// What is said of bytes that encode an envelope of no known category.
fn unknown_category_text(name: &str) -> (r: String)
    ensures
        r@ == unknown_category(name@),
{
    let mut out = text::joined3("unknown variant `", name, "`, expected one of ");
    out.append(CATEGORIES);
    out
}

/// What is said of a name that stands alone and is not that of a category without a text.
fn no_category_text(name: &str) -> (r: String)
    ensures
        r@ == no_category(name@),
{
    if text::same(name, "Custom") {
        "invalid type: unit variant, expected newtype variant".to_owned()
    } else {
        unknown_category_text(name)
    }
}

/// The envelope that some bytes encode, or why they encode none.
pub open spec fn envelope_unpacked(b: Seq<u8>) -> Result<EnvelopeView, Seq<char>> {
    match named_unpacked(b) {
        Ok((name, from, to, payload_bytes, sent_at)) => match kind_named(name) {
            Some(kind) => Ok(EnvelopeView { kind, from, to, payload_bytes, sent_at }),
            None => Err(no_category(name)),
        },
        Err(e) => match tagged_unpacked(b) {
            Ok((tags, from, to, payload_bytes, sent_at)) => if tags.len() == 1 && tags[0].0
                == "Custom"@ {
                Ok(
                    EnvelopeView {
                        kind: KindView::Custom(tags[0].1),
                        from,
                        to,
                        payload_bytes,
                        sent_at,
                    },
                )
            } else if tags.len() == 1 && kind_named(tags[0].0) is None {
                Err(unknown_category(tags[0].0))
            } else {
                Err(e)
            },
            Err(_) => Err(e),
        },
    }
}

/// The text of an optional peer.
fn peer_text(peer: &Option<PeerId>) -> (r: Option<String>)
    ensures
        lists::opt_view(r) == lists::opt_view(*peer),
{
    match peer {
        Some(p) => Some(p.0.clone()),
        None => None,
    }
}

impl Envelope {
    /// An envelope sent now.
    pub fn new(
        kind: EnvelopeKind,
        from: PeerId,
        to: Option<PeerId>,
        payload_bytes: Vec<u8>,
    ) -> (r: Self)
        ensures
            r@.kind == kind@,
            r@.from == from@,
            r@.to == lists::opt_view(to),
            r@.payload_bytes == payload_bytes@,
            is_reading(r@.sent_at),
    {
        Envelope { kind, from, to, payload_bytes, sent_at: system_time() }
    }

    /// The envelope in bytes.
    pub fn encode(&self) -> (r: Result<Vec<u8>, SwarmError>)
        ensures
            r matches Ok(b) ==> envelope_packed(self@) == Ok::<Seq<u8>, Seq<char>>(b@),
            r matches Err(e) ==> envelope_packed(self@) is Err && e@ == SwarmErrorView::Encode(
                envelope_packed(self@)->Err_0,
            ),
            r matches Ok(b) ==> self@.fits() ==> envelope_unpacked(b@) == Ok::<
                EnvelopeView,
                Seq<char>,
            >(self@),
    {
        let to = peer_text(&self.to);
        let packed = match &self.kind {
            EnvelopeKind::Custom(s) => {
                proof {
                    reveal_strlit("Custom");
                    short_text_fits("Custom"@);
                }
                pack_tagged(
                    "Custom",
                    s.as_str(),
                    self.from.0.as_str(),
                    &to,
                    &self.payload_bytes,
                    self.sent_at,
                )
            },
            _ => {
                proof {
                    kind_has_its_name(self@.kind);
                    kind_name_fits(self@.kind);
                }
                pack_named(
                    kind_name(&self.kind),
                    self.from.0.as_str(),
                    &to,
                    &self.payload_bytes,
                    self.sent_at,
                )
            },
        };
        match packed {
            Ok(b) => {
                proof {
                    if self@.fits() {
                        assert(envelope_unpacked(b@)->Ok_0 =~= self@);
                    }
                }
                Ok(b)
            },
            Err(e) => Err(SwarmError::Encode(e)),
        }
    }

    /// The envelope that some bytes encode.
    pub fn decode(bytes: &[u8]) -> (r: Result<Self, SwarmError>)
        ensures
            r matches Ok(e) ==> envelope_unpacked(bytes@) == Ok::<EnvelopeView, Seq<char>>(e@),
            r matches Err(e) ==> envelope_unpacked(bytes@) is Err && e@
                == SwarmErrorView::Decode(envelope_unpacked(bytes@)->Err_0),
    {
        match unpack_named(bytes) {
            Ok((name, from, to, payload_bytes, sent_at)) => match kind_from_name(name.as_str()) {
                Some(kind) => Ok(
                    Envelope {
                        kind,
                        from: PeerId(from),
                        to: match to {
                            Some(t) => Some(PeerId(t)),
                            None => None,
                        },
                        payload_bytes,
                        sent_at,
                    },
                ),
                None => Err(SwarmError::Decode(no_category_text(name.as_str()))),
            },
            Err(e) => match unpack_tagged(bytes) {
                Ok((tags, from, to, payload_bytes, sent_at)) => {
                    assert(tags@.len() == 1 ==> lists::views(tags@)[0] == tags@[0]@);
                    if tags.len() == 1 && text::same(tags[0].0.as_str(), "Custom") {
                        Ok(
                            Envelope {
                                kind: EnvelopeKind::Custom(tags[0].1.clone()),
                                from: PeerId(from),
                                to: match to {
                                    Some(t) => Some(PeerId(t)),
                                    None => None,
                                },
                                payload_bytes,
                                sent_at,
                            },
                        )
                    } else if tags.len() == 1 && kind_from_name(tags[0].0.as_str()).is_none() {
                        Err(SwarmError::Decode(unknown_category_text(tags[0].0.as_str())))
                    } else {
                        Err(SwarmError::Decode(e))
                    }
                },
                Err(_) => Err(SwarmError::Decode(e)),
            },
        }
    }
}

/// A text of a few characters fits in 32 bits.
proof fn short_text_fits(s: Seq<char>)
    requires
        s.len() <= 32,
    ensures
        codec::text_fits(s),
{
    encoded_length(s);
}

proof fn encoded_length(s: Seq<char>)
    ensures
        vstd::utf8::encode_utf8(s).len() <= 4 * s.len(),
    decreases s.len(),
{
    if s.len() > 0 {
        encoded_length(s.drop_first());
    }
}

proof fn kind_name_fits(kind: KindView)
    ensures
        codec::text_fits(kind.name()),
{
    reveal_strlit("Ping");
    reveal_strlit("Membership");
    reveal_strlit("Hello");
    reveal_strlit("SummaryAdvert");
    reveal_strlit("BloomOffer");
    reveal_strlit("MissingRequest");
    reveal_strlit("AtomBatch");
    reveal_strlit("Gossip");
    reveal_strlit("Custom");
    assert(kind.name().len() <= 32);
    short_text_fits(kind.name());
}

/// Whether a datagram may be sent.
pub fn check_datagram(len: usize, max: usize) -> (r: Result<(), SwarmError>)
    ensures
        len <= max ==> r is Ok,
        len > max ==> (r matches Err(e) && e@ == SwarmErrorView::Oversize(len, max)),
{
    if len > max {
        Err(SwarmError::Oversize(len, max))
    } else {
        Ok(())
    }
}

}
