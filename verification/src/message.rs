//! Messages between nodes that share a bus, and the envelopes they travel in.

use vstd::prelude::*;
use vstd::string::*;

use crate::atom;
use crate::atom::{Atom, AtomId, AtomKind, AtomView, Importance, Link, LinkKind, LinkView};
use crate::atom::{Timestamp, WorkerKey, WorldKey};
use crate::bloom;
use crate::bloom::{AtomBatch, BloomFilter, BloomOffer, MissingRequest};
use crate::codec;
use crate::ids;
use crate::ids::new_correlation_id;
use crate::keys::copy_bytes;
use crate::lists;
use crate::lists::{duplicate_all, duplicate_opt};
use crate::model::{SummaryWindow, TimeWindow};
use crate::single::Single;
use crate::summary::{AdvertView, SummaryAdvert};
use crate::swarm;
use crate::swarm::{system_time, PeerId, SwarmError, SwarmErrorView};
use crate::wire;
use crate::wire::{from_bytes, to_bytes, Blob, Many, Maybe, Wire};

verus! {

broadcast use crate::lists::group_views;

impl Wire for Link {
    open spec fn fits(v: LinkView) -> bool {
        <(String, LinkKind)>::fits((v.target, v.kind))
    }

    open spec fn packed(v: LinkView) -> Seq<u8> {
        <(String, LinkKind)>::packed((v.target, v.kind))
    }

    open spec fn read(b: Seq<u8>) -> Option<(LinkView, int)> {
        match <(String, LinkKind)>::read(b) {
            Some(((target, kind), n)) => Some((LinkView { target, kind }, n)),
            None => None,
        }
    }

    proof fn reads_back(v: LinkView, rest: Seq<u8>) {
        <(String, LinkKind)>::reads_back((v.target, v.kind), rest);
    }

    proof fn reads_within(b: Seq<u8>) {
        <(String, LinkKind)>::reads_within(b);
    }

    fn put(&self, out: &mut Vec<u8>) {
        (self.target.0.clone(), self.kind).put(out);
    }

    fn take(b: &[u8]) -> (r: Option<(Link, usize)>) {
        match <(String, LinkKind)>::take(b) {
            Some(((target, kind), n)) => Some((Link { target: AtomId(target), kind }, n)),
            None => None,
        }
    }
}

impl View for SummaryWindow {
    type V = SummaryWindow;

    open spec fn view(&self) -> SummaryWindow {
        *self
    }
}

impl Wire for SummaryWindow {
    open spec fn fits(v: SummaryWindow) -> bool {
        true
    }

    open spec fn packed(v: SummaryWindow) -> Seq<u8> {
        <(i64, i64)>::packed((v.start_ms, v.end_ms))
    }

    open spec fn read(b: Seq<u8>) -> Option<(SummaryWindow, int)> {
        match <(i64, i64)>::read(b) {
            Some(((start_ms, end_ms), n)) => Some((SummaryWindow { start_ms, end_ms }, n)),
            None => None,
        }
    }

    proof fn reads_back(v: SummaryWindow, rest: Seq<u8>) {
        <(i64, i64)>::reads_back((v.start_ms, v.end_ms), rest);
    }

    proof fn reads_within(b: Seq<u8>) {
        <(i64, i64)>::reads_within(b);
    }

    fn put(&self, out: &mut Vec<u8>) {
        (self.start_ms, self.end_ms).put(out);
    }

    fn take(b: &[u8]) -> (r: Option<(SummaryWindow, usize)>) {
        match <(i64, i64)>::take(b) {
            Some(((start_ms, end_ms), n)) => Some((SummaryWindow { start_ms, end_ms }, n)),
            None => None,
        }
    }
}

/// The fields of an atom in the order in which they are written.
type AtomParts = (
    String,
    (
        String,
        (
            String,
            (
                AtomKind,
                (
                    String,
                    (
                        Single,
                        (String, (Maybe<Many<Single>>, (Many<String>, (Many<String>, Many<Link>)))),
                    ),
                ),
            ),
        ),
    ),
);

/// Model of the fields of an atom.
type AtomPartsView = (
    Seq<char>,
    (
        Seq<char>,
        (
            Seq<char>,
            (
                AtomKind,
                (
                    Seq<char>,
                    (
                        Single,
                        (
                            Seq<char>,
                            (
                                Option<Seq<Single>>,
                                (Seq<Seq<char>>, (Seq<Seq<char>>, Seq<LinkView>)),
                            ),
                        ),
                    ),
                ),
            ),
        ),
    ),
);

/// The fields of an atom in the order in which they are written.
pub open spec fn parts_of(a: AtomView) -> AtomPartsView {
    (
        a.id,
        (
            a.world,
            (
                a.worker,
                (
                    a.kind,
                    (
                        a.timestamp,
                        (
                            a.importance.value(),
                            (a.payload_json, (a.vector, (a.flags, (a.labels, a.links)))),
                        ),
                    ),
                ),
            ),
        ),
    )
}

/// The score with a value.
pub open spec fn score_of(value: Single) -> Importance {
    choose|i: Importance| i.value() == value
}

/// The atom with the given fields.
pub open spec fn atom_of(p: AtomPartsView) -> AtomView {
    let (id, (world, (worker, (kind, (timestamp, (value, rest)))))) = p;
    let (payload_json, (vector, (flags, (labels, links)))) = rest;
    AtomView {
        id,
        world,
        worker,
        kind,
        timestamp,
        importance: score_of(value),
        payload_json,
        vector,
        flags,
        labels,
        links,
    }
}

/// A score is the one with its value.
proof fn score_is_determined(i: Importance)
    ensures
        score_of(i.value()) == i,
{
    atom::value_determines(score_of(i.value()), i);
}

/// An atom is the one with its fields.
proof fn parts_determine_atom(a: AtomView)
    ensures
        atom_of(parts_of(a)) == a,
{
    score_is_determined(a.importance);
}

/// The model of a list of numbers is the list.
proof fn singles_are_their_model(s: Seq<Single>)
    ensures
        lists::views(s) == s,
{
    assert(lists::views(s) =~= s);
}

/// The fields of an atom.
fn atom_parts(a: &Atom) -> (r: AtomParts)
    ensures
        r.view() == parts_of(a@),
{
    let vector = match a.vector() {
        Some(v) => {
            let mut out: Vec<Single> = Vec::new();
            for i in 0..v.len()
                invariant
                    out@ == v@.subrange(0, i as int),
            {
                out.push(v[i]);
            }
            assert(out@ =~= v@);
            proof {
                singles_are_their_model(out@);
            }
            Maybe(Some(Many(out)))
        },
        None => Maybe(None),
    };
    let rest = (
        a.payload_json().to_owned(),
        (
            vector,
            (
                Many(duplicate_all(a.flags())),
                (Many(duplicate_all(a.labels())), Many(duplicate_all(a.links()))),
            ),
        ),
    );
    (
        a.id().0.clone(),
        (
            a.world().0.clone(),
            (
                a.worker().0.clone(),
                (*a.kind(), (a.timestamp().0.clone(), (a.importance().get(), rest))),
            ),
        ),
    )
}

/// The atom with some fields.
fn atom_from_parts(p: AtomParts) -> (r: Atom)
    ensures
        r@ == atom_of(p.view()),
{
    let ghost model = p.view();
    let (id, (world, (worker, (kind, (timestamp, (value, rest)))))) = p;
    let (payload_json, (vector, (flags, (labels, links)))) = rest;
    let vector = match vector.0 {
        Some(v) => {
            proof {
                singles_are_their_model(v.0@);
            }
            Some(v.0)
        },
        None => None,
    };
    let importance = Importance::recorded(value);
    proof {
        score_is_determined(importance);
    }
    Atom::new(
        AtomId(id),
        WorldKey(world),
        WorkerKey(worker),
        kind,
        Timestamp(timestamp),
        importance,
        payload_json,
        vector,
        flags.0,
        labels.0,
        links.0,
    )
}

impl Wire for Atom {
    open spec fn fits(v: AtomView) -> bool {
        AtomParts::fits(parts_of(v))
    }

    open spec fn packed(v: AtomView) -> Seq<u8> {
        AtomParts::packed(parts_of(v))
    }

    open spec fn read(b: Seq<u8>) -> Option<(AtomView, int)> {
        match AtomParts::read(b) {
            Some((p, n)) => Some((atom_of(p), n)),
            None => None,
        }
    }

    proof fn reads_back(v: AtomView, rest: Seq<u8>) {
        AtomParts::reads_back(parts_of(v), rest);
        parts_determine_atom(v);
    }

    proof fn reads_within(b: Seq<u8>) {
        AtomParts::reads_within(b);
    }

    fn put(&self, out: &mut Vec<u8>) {
        atom_parts(self).put(out);
    }

    fn take(b: &[u8]) -> (r: Option<(Atom, usize)>) {
        match AtomParts::take(b) {
            Some((p, n)) => Some((atom_from_parts(p), n)),
            None => None,
        }
    }
}

impl Wire for AtomId {
    open spec fn fits(v: Seq<char>) -> bool {
        String::fits(v)
    }

    open spec fn packed(v: Seq<char>) -> Seq<u8> {
        String::packed(v)
    }

    open spec fn read(b: Seq<u8>) -> Option<(Seq<char>, int)> {
        String::read(b)
    }

    proof fn reads_back(v: Seq<char>, rest: Seq<u8>) {
        String::reads_back(v, rest);
    }

    proof fn reads_within(b: Seq<u8>) {
        String::reads_within(b);
    }

    fn put(&self, out: &mut Vec<u8>) {
        self.0.put(out);
    }

    fn take(b: &[u8]) -> (r: Option<(AtomId, usize)>) {
        match String::take(b) {
            Some((s, n)) => Some((AtomId(s), n)),
            None => None,
        }
    }
}

/// A message between nodes.
#[derive(Debug)]
pub enum SwarmMessage {
    Ping { nonce: u64 },
    SubscriptionIntent { patterns: Vec<String> },
    SummaryAdvert(SummaryAdvert),
    BloomOffer(BloomOffer),
    MissingRequest(MissingRequest),
    AtomBatch(AtomBatch),
}

/// Model of an offer: the bits of the filter as bytes, and the numbers of hash functions and
/// of bits.
#[verifier::ext_equal]
pub ghost struct OfferView {
    pub world: Seq<char>,
    pub window: TimeWindow,
    pub bits: Seq<u8>,
    pub k: u32,
    pub m: u32,
}

/// Model of a request for atoms.
#[verifier::ext_equal]
pub ghost struct RequestView {
    pub world: Seq<char>,
    pub atom_ids: Seq<Seq<char>>,
}

/// Model of a batch of atoms.
#[verifier::ext_equal]
pub ghost struct BatchView {
    pub world: Seq<char>,
    pub atoms: Seq<AtomView>,
}

impl View for BloomOffer {
    type V = OfferView;

    open spec fn view(&self) -> OfferView {
        OfferView {
            world: self.world@,
            window: self.window,
            bits: self.bloom.raw().0,
            k: self.bloom.raw().1,
            m: self.bloom.raw().2,
        }
    }
}

impl View for MissingRequest {
    type V = RequestView;

    open spec fn view(&self) -> RequestView {
        RequestView { world: self.world@, atom_ids: lists::views(self.atom_ids@) }
    }
}

impl View for AtomBatch {
    type V = BatchView;

    open spec fn view(&self) -> BatchView {
        BatchView { world: self.world@, atoms: lists::views(self.atoms@) }
    }
}

/// Model of a message.
pub ghost enum MessageView {
    Ping { nonce: u64 },
    SubscriptionIntent { patterns: Seq<Seq<char>> },
    SummaryAdvert(AdvertView),
    BloomOffer(OfferView),
    MissingRequest(RequestView),
    AtomBatch(BatchView),
}

impl View for SwarmMessage {
    type V = MessageView;

    open spec fn view(&self) -> MessageView {
        match self {
            SwarmMessage::Ping { nonce } => MessageView::Ping { nonce: *nonce },
            SwarmMessage::SubscriptionIntent { patterns } => MessageView::SubscriptionIntent {
                patterns: lists::views(patterns@),
            },
            SwarmMessage::SummaryAdvert(a) => MessageView::SummaryAdvert(a@),
            SwarmMessage::BloomOffer(o) => MessageView::BloomOffer(o@),
            SwarmMessage::MissingRequest(q) => MessageView::MissingRequest(q@),
            SwarmMessage::AtomBatch(b) => MessageView::AtomBatch(b@),
        }
    }
}

impl Clone for AtomBatch {
    fn clone(&self) -> (r: Self)
        ensures
            r@ == self@,
    {
        AtomBatch { world: self.world.clone(), atoms: duplicate_all(self.atoms.as_slice()) }
    }
}

impl MessageView {
    /// The name of the message's variant.
    pub open spec fn name(self) -> Seq<char> {
        match self {
            MessageView::Ping { .. } => "Ping"@,
            MessageView::SubscriptionIntent { .. } => "SubscriptionIntent"@,
            MessageView::SummaryAdvert(_) => "SummaryAdvert"@,
            MessageView::BloomOffer(_) => "BloomOffer"@,
            MessageView::MissingRequest(_) => "MissingRequest"@,
            MessageView::AtomBatch(_) => "AtomBatch"@,
        }
    }

    /// The index of the message's variant.
    pub open spec fn index(self) -> u32 {
        match self {
            MessageView::Ping { .. } => 0,
            MessageView::SubscriptionIntent { .. } => 1,
            MessageView::SummaryAdvert(_) => 2,
            MessageView::BloomOffer(_) => 3,
            MessageView::MissingRequest(_) => 4,
            MessageView::AtomBatch(_) => 5,
        }
    }

    /// Whether the lengths in the message can be written, and a filter's parts go together.
    pub open spec fn body_fits(self) -> bool {
        match self {
            MessageView::Ping { nonce } => true,
            MessageView::SubscriptionIntent { patterns } => Many::<String>::fits(patterns),
            MessageView::SummaryAdvert(a) => AdvertParts::fits((a.world, (a.windows, a.digest))),
            MessageView::BloomOffer(o) => o.is_sound() && OfferParts::fits(o.parts()),
            MessageView::MissingRequest(q) => RequestParts::fits((q.world, q.atom_ids)),
            MessageView::AtomBatch(b) => BatchParts::fits((b.world, b.atoms)),
        }
    }

    /// What the fields of the message are written as.
    pub open spec fn body_packed(self) -> Seq<u8> {
        match self {
            MessageView::Ping { nonce } => u64::packed(nonce),
            MessageView::SubscriptionIntent { patterns } => Many::<String>::packed(patterns),
            MessageView::SummaryAdvert(a) => AdvertParts::packed((a.world, (a.windows, a.digest))),
            MessageView::BloomOffer(o) => OfferParts::packed(o.parts()),
            MessageView::MissingRequest(q) => RequestParts::packed((q.world, q.atom_ids)),
            MessageView::AtomBatch(b) => BatchParts::packed((b.world, b.atoms)),
        }
    }
}

/// The fields of an advert in the order in which they are written.
type AdvertParts = (String, (Many<SummaryWindow>, String));

/// The fields of an offer in the order in which they are written.
type OfferParts = (String, ((i64, i64), (Blob, (u32, u32))));

/// The fields of a request in the order in which they are written.
type RequestParts = (String, Many<AtomId>);

/// The fields of a batch in the order in which they are written.
type BatchParts = (String, Many<Atom>);

impl OfferView {
    /// The fields of the offer in the order in which they are written.
    pub open spec fn parts(self) -> (Seq<char>, ((i64, i64), (Seq<u8>, (u32, u32)))) {
        (self.world, ((self.window.start_ms, self.window.end_ms), (self.bits, (self.k, self.m))))
    }

    /// Whether the parts of the filter go together.
    pub open spec fn is_sound(self) -> bool {
        bloom::go_together(self.bits.len() as int, self.k, self.m)
    }
}

/// The fields of a message behind the index of its variant.
pub open spec fn body_read(index: u32, b: Seq<u8>, c: int) -> Option<(MessageView, int)> {
    match index {
        0 => match wire::read_next::<u64>(b, c) {
            Some((nonce, n)) => Some((MessageView::Ping { nonce }, n)),
            None => None,
        },
        1 => match wire::read_next::<Many<String>>(b, c) {
            Some((patterns, n)) => Some((MessageView::SubscriptionIntent { patterns }, n)),
            None => None,
        },
        2 => match wire::read_next::<AdvertParts>(b, c) {
            Some(((world, (windows, digest)), n)) => Some(
                (MessageView::SummaryAdvert(AdvertView { world, windows, digest }), n),
            ),
            None => None,
        },
        3 => match wire::read_next::<OfferParts>(b, c) {
            Some(((world, ((start_ms, end_ms), (bits, (k, m)))), n)) => {
                let offer = OfferView {
                    world,
                    window: TimeWindow { start_ms, end_ms },
                    bits,
                    k,
                    m,
                };
                if offer.is_sound() {
                    Some((MessageView::BloomOffer(offer), n))
                } else {
                    None
                }
            },
            None => None,
        },
        4 => match wire::read_next::<RequestParts>(b, c) {
            Some(((world, atom_ids), n)) => Some(
                (MessageView::MissingRequest(RequestView { world, atom_ids }), n),
            ),
            None => None,
        },
        5 => match wire::read_next::<BatchParts>(b, c) {
            Some(((world, atoms), n)) => Some(
                (MessageView::AtomBatch(BatchView { world, atoms }), n),
            ),
            None => None,
        },
        _ => None,
    }
}

/// The model of a list of windows is the list.
proof fn windows_are_their_model(s: Seq<SummaryWindow>)
    ensures
        lists::views(s) == s,
{
    assert(lists::views(s) =~= s);
}

/// A message that was written is read back.
proof fn body_reads_back(v: MessageView, b: Seq<u8>, c: int, rest: Seq<u8>)
    requires
        v.body_fits(),
        0 <= c <= b.len(),
        b.subrange(c, b.len() as int) == v.body_packed() + rest,
    ensures
        body_read(v.index(), b, c) == Some((v, c + v.body_packed().len())),
{
    match v {
        MessageView::Ping { nonce } => u64::reads_back(nonce, rest),
        MessageView::SubscriptionIntent { patterns } => Many::<String>::reads_back(patterns, rest),
        MessageView::SummaryAdvert(a) => AdvertParts::reads_back(
            (a.world, (a.windows, a.digest)),
            rest,
        ),
        MessageView::BloomOffer(o) => OfferParts::reads_back(o.parts(), rest),
        MessageView::MissingRequest(q) => RequestParts::reads_back((q.world, q.atom_ids), rest),
        MessageView::AtomBatch(a) => BatchParts::reads_back((a.world, a.atoms), rest),
    }
}

/// No more bytes of a message are read than there are.
proof fn body_reads_within(index: u32, b: Seq<u8>, c: int)
    requires
        0 <= c <= b.len(),
    ensures
        body_read(index, b, c) matches Some((v, n)) ==> c <= n <= b.len(),
{
    let rest = b.subrange(c, b.len() as int);
    u64::reads_within(rest);
    Many::<String>::reads_within(rest);
    AdvertParts::reads_within(rest);
    OfferParts::reads_within(rest);
    RequestParts::reads_within(rest);
    BatchParts::reads_within(rest);
}

impl SwarmMessage {
    /// Writes the fields of the message.
    fn put_body(&self, out: &mut Vec<u8>)
        ensures
            self@.body_fits(),
            final(out)@ == old(out)@ + self@.body_packed(),
    {
        match self {
            SwarmMessage::Ping { nonce } => nonce.put(out),
            SwarmMessage::SubscriptionIntent { patterns } => Many(
                duplicate_all(patterns.as_slice()),
            ).put(out),
            SwarmMessage::SummaryAdvert(a) => {
                let a = a.clone();
                proof {
                    windows_are_their_model(a.windows@);
                }
                (a.world.0, (Many(a.windows), a.digest)).put(out)
            },
            SwarmMessage::BloomOffer(o) => {
                let (bits, k, m) = o.bloom.parts();
                let parts = (
                    o.world.0.clone(),
                    ((o.window.start_ms, o.window.end_ms), (Blob(copy_bytes(bits)), (k, m))),
                );
                parts.put(out)
            },
            SwarmMessage::MissingRequest(q) => (
                q.world.0.clone(),
                Many(duplicate_all(q.atom_ids.as_slice())),
            ).put(out),
            SwarmMessage::AtomBatch(b) => (
                b.world.0.clone(),
                Many(duplicate_all(b.atoms.as_slice())),
            ).put(out),
        }
    }

    /// Reads the fields of a message behind the index of its variant.
    fn take_body(index: u32, b: &[u8], c: usize) -> (r: Option<(SwarmMessage, usize)>)
        requires
            c <= b@.len(),
        ensures
            r is Some <==> body_read(index, b@, c as int) is Some,
            r matches Some((x, n)) ==> body_read(index, b@, c as int) == Some((x@, n as int)),
    {
        let rest = vstd::slice::slice_subrange(b, c, b.len());
        proof {
            body_reads_within(index, b@, c as int);
            u64::reads_within(rest@);
            Many::<String>::reads_within(rest@);
            AdvertParts::reads_within(rest@);
            OfferParts::reads_within(rest@);
            RequestParts::reads_within(rest@);
            BatchParts::reads_within(rest@);
        }
        match index {
            0 => match u64::take(rest) {
                Some((nonce, n)) => Some((SwarmMessage::Ping { nonce }, c + n)),
                None => None,
            },
            1 => match Many::<String>::take(rest) {
                Some((patterns, n)) => Some(
                    (SwarmMessage::SubscriptionIntent { patterns: patterns.0 }, c + n),
                ),
                None => None,
            },
            2 => match AdvertParts::take(rest) {
                Some(((world, (windows, digest)), n)) => {
                    proof {
                        windows_are_their_model(windows.0@);
                    }
                    Some(
                        (
                            SwarmMessage::SummaryAdvert(
                                SummaryAdvert {
                                    world: WorldKey(world),
                                    windows: windows.0,
                                    digest,
                                },
                            ),
                            c + n,
                        ),
                    )
                },
                None => None,
            },
            3 => match OfferParts::take(rest) {
                Some(((world, ((start_ms, end_ms), (bits, (k, m)))), n)) => {
                    match BloomFilter::from_parts(bits.0, k, m) {
                        Some(bloom) => Some(
                            (
                                SwarmMessage::BloomOffer(
                                    BloomOffer {
                                        world: WorldKey(world),
                                        window: TimeWindow { start_ms, end_ms },
                                        bloom,
                                    },
                                ),
                                c + n,
                            ),
                        ),
                        None => None,
                    }
                },
                None => None,
            },
            4 => match RequestParts::take(rest) {
                Some(((world, atom_ids), n)) => Some(
                    (
                        SwarmMessage::MissingRequest(
                            MissingRequest { world: WorldKey(world), atom_ids: atom_ids.0 },
                        ),
                        c + n,
                    ),
                ),
                None => None,
            },
            5 => match BatchParts::take(rest) {
                Some(((world, atoms), n)) => Some(
                    (
                        SwarmMessage::AtomBatch(
                            AtomBatch { world: WorldKey(world), atoms: atoms.0 },
                        ),
                        c + n,
                    ),
                ),
                None => None,
            },
            _ => None,
        }
    }
}

impl Wire for SwarmMessage {
    open spec fn fits(v: MessageView) -> bool {
        v.body_fits()
    }

    open spec fn packed(v: MessageView) -> Seq<u8> {
        u32::packed(v.index()) + v.body_packed()
    }

    open spec fn read(b: Seq<u8>) -> Option<(MessageView, int)> {
        match wire::short_read(b) {
            Some((index, c)) => body_read(index, b, c),
            None => None,
        }
    }

    proof fn reads_back(v: MessageView, rest: Seq<u8>) {
        let (p, q) = (u32::packed(v.index()), v.body_packed());
        let b = (p + q) + rest;
        u32::reads_back(v.index(), q + rest);
        assert(b =~= p + (q + rest));
        assert(b.subrange(p.len() as int, b.len() as int) =~= q + rest);
        body_reads_back(v, b, p.len() as int, rest);
    }

    proof fn reads_within(b: Seq<u8>) {
        u32::reads_within(b);
        if let Some((index, c)) = wire::short_read(b) {
            body_reads_within(index, b, c);
        }
    }

    fn put(&self, out: &mut Vec<u8>) {
        let ghost before = out@;
        let index: u32 = match self {
            SwarmMessage::Ping { .. } => 0,
            SwarmMessage::SubscriptionIntent { .. } => 1,
            SwarmMessage::SummaryAdvert(_) => 2,
            SwarmMessage::BloomOffer(_) => 3,
            SwarmMessage::MissingRequest(_) => 4,
            SwarmMessage::AtomBatch(_) => 5,
        };
        index.put(out);
        self.put_body(out);
        assert(out@ =~= before + (u32::packed(index) + self@.body_packed()));
    }

    fn take(b: &[u8]) -> (r: Option<(SwarmMessage, usize)>) {
        match u32::take(b) {
            Some((index, c)) => {
                proof {
                    u32::reads_within(b@);
                }
                SwarmMessage::take_body(index, b, c)
            },
            None => None,
        }
    }
}

/// An envelope that carries a message.
#[derive(Debug, PartialEq)]
pub struct SwarmEnvelope {
    pub kind: String,
    pub from: String,
    pub to: Option<String>,
    pub correlation_id: String,
    pub reply_to: Option<String>,
    pub payload: Vec<u8>,
    pub sent_at_ms: u64,
}

/// Model of an envelope that carries a message.
#[verifier::ext_equal]
pub ghost struct CarrierView {
    pub kind: Seq<char>,
    pub from: Seq<char>,
    pub to: Option<Seq<char>>,
    pub correlation_id: Seq<char>,
    pub reply_to: Option<Seq<char>>,
    pub payload: Seq<u8>,
    pub sent_at_ms: u64,
}

impl View for SwarmEnvelope {
    type V = CarrierView;

    open spec fn view(&self) -> CarrierView {
        CarrierView {
            kind: self.kind@,
            from: self.from@,
            to: lists::opt_view(self.to),
            correlation_id: self.correlation_id@,
            reply_to: lists::opt_view(self.reply_to),
            payload: self.payload@,
            sent_at_ms: self.sent_at_ms,
        }
    }
}

impl Clone for SwarmEnvelope {
    fn clone(&self) -> (r: Self)
        ensures
            r@ == self@,
    {
        SwarmEnvelope {
            kind: self.kind.clone(),
            from: self.from.clone(),
            to: duplicate_opt(&self.to),
            correlation_id: self.correlation_id.clone(),
            reply_to: duplicate_opt(&self.reply_to),
            payload: copy_bytes(self.payload.as_slice()),
            sent_at_ms: self.sent_at_ms,
        }
    }
}

/// The fields of an envelope in the order in which they are written.
type CarrierParts = (
    String,
    (String, (Maybe<String>, (String, (Maybe<String>, (Blob, u64))))),
);

impl CarrierView {
    /// The fields of the envelope in the order in which they are written.
    pub open spec fn parts(self) -> (
        Seq<char>,
        (Seq<char>, (Option<Seq<char>>, (Seq<char>, (Option<Seq<char>>, (Seq<u8>, u64))))),
    ) {
        (
            self.kind,
            (
                self.from,
                (
                    self.to,
                    (self.correlation_id, (self.reply_to, (self.payload, self.sent_at_ms))),
                ),
            ),
        )
    }

    /// Whether all the lengths in the envelope fit in 32 bits.
    pub open spec fn is_short(self) -> bool {
        &&& codec::text_fits(self.kind)
        &&& codec::text_fits(self.from)
        &&& self.to matches Some(to) ==> codec::text_fits(to)
        &&& codec::text_fits(self.correlation_id)
        &&& self.reply_to matches Some(to) ==> codec::text_fits(to)
        &&& self.payload.len() <= u32::MAX
    }

    /// Whether the identifier was taken at random and the time read from the system clock.
    pub open spec fn is_stamped(self) -> bool {
        ids::is_fresh::<16>(self.correlation_id) && is_reading_ms(self.sent_at_ms)
    }

    /// Whether this is an envelope for a message, with an identifier of its own.
    pub open spec fn carries(
        self,
        from: Seq<char>,
        to: Option<Seq<char>>,
        message: MessageView,
        reply_to: Option<Seq<char>>,
    ) -> bool {
        &&& self.kind == message.name()
        &&& self.from == from
        &&& self.to == to
        &&& ids::is_hex_of_len(self.correlation_id, 16)
        &&& self.reply_to == reply_to
        &&& self.payload == SwarmMessage::packed(message)
        &&& SwarmMessage::fits(message)
    }
}

impl Wire for SwarmEnvelope {
    open spec fn fits(v: CarrierView) -> bool {
        CarrierParts::fits(v.parts())
    }

    open spec fn packed(v: CarrierView) -> Seq<u8> {
        CarrierParts::packed(v.parts())
    }

    open spec fn read(b: Seq<u8>) -> Option<(CarrierView, int)> {
        match CarrierParts::read(b) {
            Some((p, n)) => {
                let (kind, (from, (to, (correlation_id, (reply_to, (payload, sent_at_ms)))))) = p;
                Some(
                    (
                        CarrierView {
                            kind,
                            from,
                            to,
                            correlation_id,
                            reply_to,
                            payload,
                            sent_at_ms,
                        },
                        n,
                    ),
                )
            },
            None => None,
        }
    }

    proof fn reads_back(v: CarrierView, rest: Seq<u8>) {
        CarrierParts::reads_back(v.parts(), rest);
    }

    proof fn reads_within(b: Seq<u8>) {
        CarrierParts::reads_within(b);
    }

    fn put(&self, out: &mut Vec<u8>) {
        let parts = (
            self.kind.clone(),
            (
                self.from.clone(),
                (
                    Maybe(duplicate_opt(&self.to)),
                    (
                        self.correlation_id.clone(),
                        (
                            Maybe(duplicate_opt(&self.reply_to)),
                            (Blob(copy_bytes(self.payload.as_slice())), self.sent_at_ms),
                        ),
                    ),
                ),
            ),
        );
        assert(parts.view() == self@.parts());
        parts.put(out);
    }

    fn take(b: &[u8]) -> (r: Option<(SwarmEnvelope, usize)>) {
        match CarrierParts::take(b) {
            Some((p, n)) => {
                let (kind, (from, (to, (correlation_id, (reply_to, (payload, sent_at_ms)))))) = p;
                Some(
                    (
                        SwarmEnvelope {
                            kind,
                            from,
                            to: to.0,
                            correlation_id,
                            reply_to: reply_to.0,
                            payload: payload.0,
                            sent_at_ms,
                        },
                        n,
                    ),
                )
            },
            None => None,
        }
    }
}

/// What an envelope for all nodes is encoded as, or why it is not.
pub uninterp spec fn carrier_packed(e: CarrierView) -> Result<Seq<u8>, Seq<char>>;

/// The envelope for all nodes that some bytes encode, or why they encode none.
pub uninterp spec fn carrier_unpacked(b: Seq<u8>) -> Result<CarrierView, Seq<char>>;

/// `rmp_serde::to_vec` of the fields of an envelope as a tuple is a function of them. It starts
/// with the mark of a list of seven, and a text of fewer than 32 bytes with a mark that holds
/// its length. Where the lengths fit in 32 bits, `rmp_serde::from_slice` reads them back.
#[verifier::external_body]
fn pack_carrier(e: &SwarmEnvelope) -> (b: Result<Vec<u8>, String>)
    ensures
        b is Ok <==> carrier_packed(e@) is Ok,
        b matches Ok(v) ==> carrier_packed(e@)->Ok_0 == v@,
        b matches Ok(v) ==> v@.len() >= 2 && v@[0] == 0x97,
        b matches Ok(v) ==> vstd::utf8::encode_utf8(e@.kind).len() < 32 ==> v@[1] == 0xa0
            + vstd::utf8::encode_utf8(e@.kind).len(),
        b matches Ok(v) ==> e@.is_short() ==> carrier_unpacked(v@) is Ok && carrier_unpacked(
            v@,
        )->Ok_0 == e@,
        b matches Err(s) ==> carrier_packed(e@)->Err_0 == s@,
{
    let (from, id) = (&e.from, &e.correlation_id);
    rmp_serde::to_vec(&(&e.kind, from, &e.to, id, &e.reply_to, &e.payload, e.sent_at_ms)).map_err(
        |e| e.to_string(),
    )
}

/// `rmp_serde::from_slice` into the fields of an envelope is a function of the bytes. They
/// stand in a list, as they are written; a map of named values is not read.
#[verifier::external_body]
fn unpack_carrier(b: &[u8]) -> (r: Result<SwarmEnvelope, String>)
    ensures
        r is Ok <==> carrier_unpacked(b@) is Ok,
        r matches Ok(e) ==> carrier_unpacked(b@)->Ok_0 == e@,
        r matches Err(s) ==> carrier_unpacked(b@)->Err_0 == s@,
{
    rmp_serde::from_slice(b).map(|(kind, from, to, correlation_id, reply_to, payload, sent_at_ms)| {
        SwarmEnvelope { kind, from, to, correlation_id, reply_to, payload, sent_at_ms }
    }).map_err(|e| e.to_string())
}

/// The envelope in some bytes that arrived for this node, in either of the two formats.
pub open spec fn arrived(b: Seq<u8>) -> Option<CarrierView> {
    match SwarmEnvelope::read(b) {
        Some((e, _)) => Some(e),
        None => match carrier_unpacked(b) {
            Ok(e) => Some(e),
            Err(_) => None,
        },
    }
}

/// What a message for all nodes says, and who sent it.
pub open spec fn heard(b: Seq<u8>) -> Option<(Seq<char>, MessageView)> {
    match carrier_unpacked(b) {
        Ok(e) => match SwarmMessage::read(e.payload) {
            Some((m, _)) => Some((e.from, m)),
            None => None,
        },
        Err(_) => None,
    }
}

/// Bytes that start like an envelope for all nodes are not an envelope for one node.
proof fn formats_differ(b: Seq<u8>)
    requires
        b.len() >= 2,
        b[0] == 0x97,
        0xa0 <= b[1] <= 0xbf,
    ensures
        SwarmEnvelope::read(b) is None,
{
    if wire::text_is_whole(b) {
        let part = wire::text_part(b);
        assert(part[0] == b[1]);
        assert(!vstd::utf8::valid_first_scalar(part));
    }
    assert(String::read(b) is None);
}

/// The milliseconds of a time in seconds and nanoseconds, at most what 64 bits hold.
pub open spec fn millis(time: (u64, u32)) -> int {
    let n = time.0 * 1000 + time.1 / 1_000_000;
    if n <= u64::MAX {
        n
    } else {
        u64::MAX as int
    }
}

/// Whether a number is a reading of the system clock in milliseconds.
pub open spec fn is_reading_ms(ms: u64) -> bool {
    exists|time: (u64, u32)| #[trigger] swarm::is_reading(time) && ms == millis(time)
}

/// The milliseconds of a time in seconds and nanoseconds, at most what 64 bits hold.
pub fn millis_of(secs: u64, nanos: u32) -> (r: u64)
    ensures
        r == millis((secs, nanos)),
{
    let millis: u128 = secs as u128 * 1000 + (nanos / 1_000_000) as u128;
    if millis <= u64::MAX as u128 {
        millis as u64
    } else {
        u64::MAX
    }
}

/// The time since the unix epoch in milliseconds.
pub fn now_ms() -> (r: u64)
    ensures
        is_reading_ms(r),
{
    let (secs, nanos) = system_time();
    assert(swarm::is_reading((secs, nanos)));
    millis_of(secs, nanos)
}

impl SwarmMessage {
    /// The name of the message's variant.
    pub fn name(&self) -> (r: &'static str)
        ensures
            r@ == self@.name(),
    {
        match self {
            SwarmMessage::Ping { .. } => "Ping",
            SwarmMessage::SubscriptionIntent { .. } => "SubscriptionIntent",
            SwarmMessage::SummaryAdvert(_) => "SummaryAdvert",
            SwarmMessage::BloomOffer(_) => "BloomOffer",
            SwarmMessage::MissingRequest(_) => "MissingRequest",
            SwarmMessage::AtomBatch(_) => "AtomBatch",
        }
    }
}

impl SwarmEnvelope {
    /// An envelope for a message, sent now; writing the message does not fail.
    pub fn new(
        from: PeerId,
        to: Option<PeerId>,
        message: SwarmMessage,
        reply_to: Option<String>,
    ) -> (r: Result<Self, SwarmError>)
        ensures
            r is Ok,
            r matches Ok(e) ==> e@.carries(
                from@,
                lists::opt_view(to),
                message@,
                lists::opt_view(reply_to),
            ) && e@.is_stamped(),
    {
        let payload = to_bytes(&message);
        Ok(
            SwarmEnvelope {
                kind: message.name().to_owned(),
                from: from.0,
                to: match to {
                    Some(p) => Some(p.0),
                    None => None,
                },
                correlation_id: new_correlation_id(),
                reply_to,
                payload,
                sent_at_ms: now_ms(),
            },
        )
    }

    /// The message in the envelope.
    pub fn decode_message(&self) -> (r: Result<SwarmMessage, SwarmError>)
        ensures
            r is Ok <==> SwarmMessage::read(self@.payload) is Some,
            r matches Ok(m) ==> SwarmMessage::read(self@.payload)->Some_0.0 == m@,
            r matches Err(e) ==> e@ == SwarmErrorView::Decode("decode swarm message"@),
    {
        match from_bytes::<SwarmMessage>(self.payload.as_slice()) {
            Some(m) => Ok(m),
            None => Err(SwarmError::Decode("decode swarm message".to_owned())),
        }
    }

    /// The envelope in bytes, for one node.
    pub fn to_inbox_bytes(&self) -> (r: Vec<u8>)
        ensures
            r@ == SwarmEnvelope::packed(self@),
            SwarmEnvelope::fits(self@),
            arrived(r@) == Some(self@),
    {
        let r = to_bytes(self);
        proof {
            wire::bytes_give_value_back::<SwarmEnvelope>(self@);
        }
        r
    }

    /// The envelope in bytes, for all nodes.
    pub fn to_broadcast_bytes(&self) -> (r: Result<Vec<u8>, SwarmError>)
        ensures
            r is Ok <==> carrier_packed(self@) is Ok,
            r matches Ok(b) ==> carrier_packed(self@)->Ok_0 == b@,
            r matches Ok(b) ==> self@.is_short() ==> carrier_unpacked(b@)
                == Ok::<CarrierView, Seq<char>>(self@),
            r matches Ok(b) ==> self@.is_short() && vstd::utf8::encode_utf8(self@.kind).len() < 32
                ==> arrived(b@) == Some(self@),
            r matches Err(e) ==> e@ == SwarmErrorView::Encode(carrier_packed(self@)->Err_0),
    {
        match pack_carrier(self) {
            Ok(b) => {
                proof {
                    if vstd::utf8::encode_utf8(self@.kind).len() < 32 {
                        formats_differ(b@);
                    }
                }
                Ok(b)
            },
            Err(e) => Err(SwarmError::Encode(e)),
        }
    }

    /// The envelope in some bytes that arrived for this node.
    pub fn from_inbox_bytes(b: &[u8]) -> (r: Option<SwarmEnvelope>)
        ensures
            r is Some <==> arrived(b@) is Some,
            r matches Some(e) ==> arrived(b@) == Some(e@),
    {
        match from_bytes::<SwarmEnvelope>(b) {
            Some(e) => Some(e),
            None => match unpack_carrier(b) {
                Ok(e) => Some(e),
                Err(_) => None,
            },
        }
    }

    /// Who sent a message for all nodes, and what it says.
    pub fn hear(b: &[u8]) -> (r: Option<(String, SwarmMessage)>)
        ensures
            r is Some <==> heard(b@) is Some,
            r matches Some((from, m)) ==> heard(b@) == Some((from@, m@)),
    {
        match unpack_carrier(b) {
            Ok(e) => match e.decode_message() {
                Ok(m) => Some((e.from, m)),
                Err(_) => None,
            },
            Err(_) => None,
        }
    }
}

/// The message that was put into an envelope is the one that is read from it.
pub proof fn envelope_keeps_message(
    e: CarrierView,
    from: Seq<char>,
    to: Option<Seq<char>>,
    message: MessageView,
    reply_to: Option<Seq<char>>,
)
    requires
        e.carries(from, to, message, reply_to),
    ensures
        SwarmMessage::read(e.payload) matches Some((m, _)) && m == message,
{
    wire::bytes_give_value_back::<SwarmMessage>(message);
}

/// An envelope that was written for one node arrives as it was.
pub proof fn envelope_arrives(e: CarrierView)
    requires
        SwarmEnvelope::fits(e),
    ensures
        arrived(SwarmEnvelope::packed(e)) == Some(e),
{
    wire::bytes_give_value_back::<SwarmEnvelope>(e);
}

}
