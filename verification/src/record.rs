//! The bytes of stored atoms: MessagePack, a list of eleven fields.
//!
//! The texts and the lists of texts are written with `rmp_serde`. What holds single-precision
//! numbers is put together here from their bit patterns: the mark of such a number and its
//! four bytes, the highest first.

use vstd::bytes::*;
use vstd::prelude::*;
use vstd::slice::slice_subrange;
use vstd::string::*;

use crate::codec;
use crate::codec::{AtomRecord, RecordView};
use crate::lists;

verus! {

broadcast use crate::lists::group_views;

/// The mark of a list of eleven items.
pub const ELEVEN: u8 = 0x9b;

/// The mark of an absent value.
pub const NIL: u8 = 0xc0;

/// The mark of a single-precision number.
pub const NUMBER: u8 = 0xca;

/// What a list of texts is encoded as, or why it is not.
pub uninterp spec fn texts_packed(s: Seq<Seq<char>>) -> Result<Seq<u8>, Seq<char>>;

/// The list of texts at the front of some bytes and the number of bytes it takes, or why
/// there is none.
pub uninterp spec fn texts_read(b: Seq<u8>) -> Result<(Seq<Seq<char>>, int), Seq<char>>;

/// `rmp_serde::to_vec` of a list of texts is a function of the texts. It starts with the mark
/// of a list; that of a short list holds its length. Where all lengths fit in 32 bits,
/// `rmp_serde` reads the texts back from these bytes and takes no others.
#[verifier::external_body]
fn pack_texts(s: &Vec<String>) -> (b: Result<Vec<u8>, String>)
    ensures
        b is Ok <==> texts_packed(lists::views(s@)) is Ok,
        b matches Ok(v) ==> texts_packed(lists::views(s@))->Ok_0 == v@ && v@.len() > 0,
        b matches Ok(v) ==> s@.len() < 16 ==> v@[0] == 0x90 + s@.len(),
        b matches Ok(v) ==> codec::texts_fit(lists::views(s@)) ==> forall|rest: Seq<u8>|
            #[trigger] texts_read(v@ + rest) is Ok && texts_read(v@ + rest)->Ok_0 == (
                lists::views(s@),
                v@.len() as int,
            ),
        b matches Err(e) ==> texts_packed(lists::views(s@))->Err_0 == e@,
{
    rmp_serde::to_vec(s).map_err(|e| e.to_string())
}

/// A `rmp_serde::Deserializer` reads a list of texts from the front of some bytes, which is a
/// function of the bytes, and its `position` tells how many it took. The mark of a short list
/// holds its length.
#[verifier::external_body]
fn unpack_texts(b: &[u8]) -> (r: Result<(Vec<String>, usize), String>)
    ensures
        r is Ok <==> texts_read(b@) is Ok,
        r matches Ok((s, n)) ==> texts_read(b@)->Ok_0 == (lists::views(s@), n as int),
        r matches Ok((s, n)) ==> 0 < n <= b@.len() && (0x90 <= b@[0] < 0xa0 ==> s@.len() == b@[0]
            - 0x90),
        r matches Err(e) ==> texts_read(b@)->Err_0 == e@,
{
    let mut d = rmp_serde::Deserializer::new(std::io::Cursor::new(b));
    serde::Deserialize::deserialize(&mut d).map(|s| (s, d.position() as usize)).map_err(
        |e: rmp_serde::decode::Error| e.to_string(),
    )
}

/// The four bytes of a bit pattern, the highest first.
pub open spec fn high_first(n: u32) -> Seq<u8> {
    spec_u32_to_le_bytes(n).reverse()
}

/// A single-precision number, by its bit pattern.
pub open spec fn number_bytes(bits: u32) -> Seq<u8> {
    seq![NUMBER] + high_first(bits)
}

/// Whether there is a single-precision number at a place in some bytes.
pub open spec fn is_number_at(b: Seq<u8>, at: int) -> bool {
    at + 5 <= b.len() && b[at] == NUMBER
}

/// The bit pattern of the single-precision number at a place in some bytes.
pub open spec fn number_at(b: Seq<u8>, at: int) -> u32 {
    spec_u32_from_le_bytes(b.subrange(at + 1, at + 5).reverse())
}

/// Whether some bytes have a single-precision number at the n-th place for one.
pub open spec fn has_nth(b: Seq<u8>, n: int) -> bool {
    is_number_at(b, 5 * n)
}

/// The bit pattern of the single-precision number at the n-th place for one.
pub open spec fn nth(b: Seq<u8>, n: int) -> u32 {
    number_at(b, 5 * n)
}

/// Single-precision numbers one after the other, by their bit patterns.
pub open spec fn numbers_packed(v: Seq<u32>) -> Seq<u8>
    decreases v.len(),
{
    if v.len() == 0 {
        Seq::empty()
    } else {
        numbers_packed(v.drop_last()) + number_bytes(v.last())
    }
}

/// The bit patterns of so many single-precision numbers at the front of some bytes, if there
/// are as many.
pub open spec fn numbers_read(b: Seq<u8>, n: int) -> Option<Seq<u32>> {
    if forall|i: int| 0 <= i < n ==> #[trigger] has_nth(b, i) {
        Some(Seq::new(n as nat, |i: int| nth(b, i)))
    } else {
        None
    }
}

/// The mark of a list, by its length.
pub open spec fn list_mark(n: u32) -> Seq<u8> {
    if n < 16 {
        seq![(0x90 + n) as u8]
    } else if n <= u16::MAX {
        seq![0xdcu8] + spec_u16_to_le_bytes(n as u16).reverse()
    } else {
        seq![0xddu8] + high_first(n)
    }
}

/// The length that the mark of a list at the front of some bytes gives and the number of bytes
/// the mark takes, if there is one.
pub open spec fn mark_read(b: Seq<u8>) -> Option<(u32, int)> {
    if b.len() >= 1 && 0x90 <= b[0] < 0xa0 {
        Some(((b[0] - 0x90) as u32, 1))
    } else if b.len() >= 3 && b[0] == 0xdc {
        Some((spec_u16_from_le_bytes(b.subrange(1, 3).reverse()) as u32, 3))
    } else if b.len() >= 5 && b[0] == 0xdd {
        Some((spec_u32_from_le_bytes(b.subrange(1, 5).reverse()), 5))
    } else {
        None
    }
}

/// A vector that may be absent, by its bit patterns.
pub open spec fn vector_packed(v: Option<Seq<u32>>) -> Seq<u8> {
    match v {
        Some(v) => list_mark(v.len() as u32) + numbers_packed(v),
        None => seq![NIL],
    }
}

/// The vector that may be absent at the front of some bytes and the number of bytes it takes,
/// if there is one.
pub open spec fn vector_read(b: Seq<u8>) -> Option<(Option<Seq<u32>>, int)> {
    if b.len() >= 1 && b[0] == NIL {
        Some((None, 1))
    } else {
        match mark_read(b) {
            Some((n, c)) => match numbers_read(b.skip(c), n as int) {
                Some(v) => Some((Some(v), c + 5 * n)),
                None => None,
            },
            None => None,
        }
    }
}

/// What links are encoded as, one after the other, or why they are not.
pub open spec fn links_packed(links: Seq<(Seq<char>, Seq<char>)>) -> Result<Seq<u8>, Seq<char>>
    decreases links.len(),
{
    if links.len() == 0 {
        Ok(Seq::empty())
    } else {
        match links_packed(links.drop_last()) {
            Ok(before) => match texts_packed(seq![links.last().0, links.last().1]) {
                Ok(b) => Ok(before + b),
                Err(e) => Err(e),
            },
            Err(e) => Err(e),
        }
    }
}

/// So many links at the front of some bytes and the number of bytes they take, or why there
/// are not as many.
pub open spec fn links_read(b: Seq<u8>, n: nat) -> Result<
    (Seq<(Seq<char>, Seq<char>)>, int),
    Seq<char>,
>
    decreases n,
{
    if n == 0 {
        Ok((Seq::empty(), 0))
    } else {
        match links_read(b, (n - 1) as nat) {
            Ok((before, at)) => match texts_read(b.skip(at)) {
                Ok((s, c)) => if s.len() == 2 {
                    Ok((before.push((s[0], s[1])), at + c))
                } else {
                    Err("a link is a target and a kind"@)
                },
                Err(e) => Err(e),
            },
            Err(e) => Err(e),
        }
    }
}

/// The texts at the front of some bytes, in front of which a mark is put, and the number of
/// bytes they take, or why there are none.
pub open spec fn texts_under(mark: u8, b: Seq<u8>) -> Result<(Seq<Seq<char>>, int), Seq<char>> {
    match texts_read(seq![mark] + b) {
        Ok((s, n)) => Ok((s, n - 1)),
        Err(e) => Err(e),
    }
}

/// The texts that a record starts with.
pub open spec fn heading(r: RecordView) -> Seq<Seq<char>> {
    seq![r.id, r.world, r.worker, r.kind, r.timestamp]
}

/// What the flags, labels and links of a record are encoded as, or why they are not.
pub open spec fn tail_packed(r: RecordView) -> Result<Seq<u8>, Seq<char>> {
    match texts_packed(r.flags) {
        Ok(flags) => match texts_packed(r.labels) {
            Ok(labels) => match links_packed(r.links) {
                Ok(links) => Ok(flags + (labels + (list_mark(r.links.len() as u32) + links))),
                Err(e) => Err(e),
            },
            Err(e) => Err(e),
        },
        Err(e) => Err(e),
    }
}

/// What a record is encoded as, or why it is not.
#[verifier::opaque]
pub open spec fn record_packed(r: RecordView) -> Result<Seq<u8>, Seq<char>> {
    match texts_packed(heading(r)) {
        Ok(heading) => match texts_packed(seq![r.payload_json]) {
            Ok(payload) => match tail_packed(r) {
                Ok(tail) => Ok(
                    seq![ELEVEN] + (heading.skip(1) + (number_bytes(r.importance) + (payload.skip(
                        1,
                    ) + (vector_packed(r.vector) + tail)))),
                ),
                Err(e) => Err(e),
            },
            Err(e) => Err(e),
        },
        Err(e) => Err(e),
    }
}

/// The flags, labels and links at the front of some bytes, or why there are none.
pub open spec fn tail_unpacked(b: Seq<u8>) -> Result<
    (Seq<Seq<char>>, Seq<Seq<char>>, Seq<(Seq<char>, Seq<char>)>),
    Seq<char>,
> {
    match texts_read(b) {
        Ok((flags, n)) => match texts_read(b.skip(n)) {
            Ok((labels, m)) => match mark_read(b.skip(n).skip(m)) {
                Some((count, c)) => match links_read(b.skip(n).skip(m).skip(c), count as nat) {
                    Ok((links, _)) => Ok((flags, labels, links)),
                    Err(e) => Err(e),
                },
                None => Err("no list of links"@),
            },
            Err(e) => Err(e),
        },
        Err(e) => Err(e),
    }
}

/// The record that some bytes encode, or why they encode none. What follows the record is
/// ignored.
#[verifier::opaque]
pub open spec fn record_unpacked(b: Seq<u8>) -> Result<RecordView, Seq<char>> {
    if !(b.len() >= 1 && b[0] == ELEVEN) {
        Err("no list of eleven fields"@)
    } else {
        match texts_under(0x95, b.skip(1)) {
            Ok((heading, n)) => {
                let b2 = b.skip(1).skip(n);
                if !is_number_at(b2, 0) {
                    Err("no importance"@)
                } else {
                    match texts_under(0x91, b2.skip(5)) {
                        Ok((payload, m)) => match vector_read(b2.skip(5).skip(m)) {
                            Some((vector, k)) => match tail_unpacked(b2.skip(5).skip(m).skip(k)) {
                                Ok((flags, labels, links)) => Ok(
                                    RecordView {
                                        id: heading[0],
                                        world: heading[1],
                                        worker: heading[2],
                                        kind: heading[3],
                                        timestamp: heading[4],
                                        importance: number_at(b2, 0),
                                        payload_json: payload[0],
                                        vector,
                                        flags,
                                        labels,
                                        links,
                                    },
                                ),
                                Err(e) => Err(e),
                            },
                            None => Err("no vector"@),
                        },
                        Err(e) => Err(e),
                    }
                }
            },
            Err(e) => Err(e),
        }
    }
}

/// Whether a list of texts is encoded, and read back if its lengths fit.
pub open spec fn is_packed(s: Seq<Seq<char>>) -> bool {
    &&& texts_packed(s) is Ok
    &&& texts_packed(s)->Ok_0.len() > 0
    &&& s.len() < 16 ==> texts_packed(s)->Ok_0[0] == 0x90 + s.len()
    &&& codec::texts_fit(s) ==> forall|rest: Seq<u8>| #[trigger]
        texts_read(texts_packed(s)->Ok_0 + rest) is Ok && texts_read(
            texts_packed(s)->Ok_0 + rest,
        )->Ok_0 == (s, texts_packed(s)->Ok_0.len() as int)
}

/// Encodes a list of texts behind some bytes; its mark is left out if need be.
fn put_texts(out: &mut Vec<u8>, s: &Vec<String>, with_mark: bool) -> (r: Result<(), String>)
    ensures
        r is Ok <==> texts_packed(lists::views(s@)) is Ok,
        r is Ok ==> is_packed(lists::views(s@)) && final(out)@ == old(out)@ + (if with_mark {
            texts_packed(lists::views(s@))->Ok_0
        } else {
            texts_packed(lists::views(s@))->Ok_0.skip(1)
        }),
        r matches Err(e) ==> texts_packed(lists::views(s@))->Err_0 == e@,
{
    match pack_texts(s) {
        Ok(b) => {
            let first: usize = if with_mark {
                0
            } else {
                1
            };
            let ghost before = out@;
            for i in first..b.len()
                invariant
                    first <= b@.len(),
                    out@ == before + b@.subrange(first as int, i as int),
            {
                out.push(b[i]);
                assert(b@.subrange(first as int, i + 1) =~= b@.subrange(
                    first as int,
                    i as int,
                ).push(b@[i as int]));
            }
            assert(b@.subrange(0, b@.len() as int) =~= b@);
            Ok(())
        },
        Err(e) => Err(e),
    }
}

/// Puts bytes in reverse behind some others.
fn put_reversed(out: &mut Vec<u8>, b: &Vec<u8>)
    ensures
        final(out)@ == old(out)@ + b@.reverse(),
{
    let ghost before = out@;
    let n: usize = b.len();
    for i in 0..n
        invariant
            n == b@.len(),
            out@ == before + b@.reverse().subrange(0, i as int),
    {
        out.push(b[n - 1 - i]);
        assert(b@.reverse().subrange(0, i + 1) =~= b@.reverse().subrange(0, i as int).push(
            b@[n - 1 - i],
        ));
    }
    assert(b@.reverse().subrange(0, n as int) =~= b@.reverse());
}

/// Encodes a single-precision number behind some bytes.
fn put_number(out: &mut Vec<u8>, bits: u32)
    ensures
        final(out)@ == old(out)@ + number_bytes(bits),
{
    let ghost before = out@;
    out.push(NUMBER);
    put_reversed(out, &u32_to_le_bytes(bits));
    assert(out@ =~= before + number_bytes(bits));
}

/// Encodes the mark of a list behind some bytes.
fn put_list_mark(out: &mut Vec<u8>, n: u32)
    ensures
        final(out)@ == old(out)@ + list_mark(n),
{
    let ghost before = out@;
    if n < 16 {
        out.push((0x90 + n) as u8);
    } else if n <= 0xffff {
        out.push(0xdc);
        put_reversed(out, &u16_to_le_bytes(n as u16));
    } else {
        out.push(0xdd);
        put_reversed(out, &u32_to_le_bytes(n));
    }
    assert(out@ =~= before + list_mark(n));
}

/// Encodes a vector that may be absent behind some bytes.
fn put_vector(out: &mut Vec<u8>, v: &Option<Vec<u32>>)
    ensures
        final(out)@ == old(out)@ + vector_packed(lists::opt_view(*v)),
{
    let ghost before = out@;
    match v {
        Some(v) => {
            put_list_mark(out, v.len() as u32);
            let ghost marked = out@;
            assert(marked =~= marked + numbers_packed(v@.subrange(0, 0)));
            for i in 0..v.len()
                invariant
                    out@ == marked + numbers_packed(v@.subrange(0, i as int)),
            {
                put_number(out, v[i]);
                proof {
                    let done = v@.subrange(0, i + 1);
                    assert(done.drop_last() =~= v@.subrange(0, i as int));
                    assert(done.last() == v@[i as int]);
                    assert(out@ =~= marked + numbers_packed(done));
                }
            }
            assert(v@.subrange(0, v@.len() as int) =~= v@);
            assert(out@ =~= before + vector_packed(Some(v@)));
        },
        None => {
            out.push(NIL);
            assert(out@ =~= before + vector_packed(None));
        },
    }
}

/// Encodes links behind some bytes.
fn put_links(out: &mut Vec<u8>, links: &Vec<(String, String)>) -> (r: Result<(), String>)
    ensures
        r is Ok <==> links_packed(lists::views(links@)) is Ok,
        r is Ok ==> final(out)@ == old(out)@ + links_packed(lists::views(links@))->Ok_0,
        r is Ok ==> forall|i: int|
            0 <= i < links@.len() ==> is_packed(
                seq![(#[trigger] links@[i]).0@, links@[i].1@],
            ),
        r matches Err(e) ==> links_packed(lists::views(links@)) is Err && links_packed(
            lists::views(links@),
        )->Err_0 == e@,
{
    let ghost before = out@;
    let ghost models = lists::views(links@);
    assert(models.subrange(0, 0) =~= Seq::empty());
    assert(before + Seq::<u8>::empty() =~= before);
    for i in 0..links.len()
        invariant
            models == lists::views(links@),
            links_packed(models.subrange(0, i as int)) is Ok,
            out@ == before + links_packed(models.subrange(0, i as int))->Ok_0,
            forall|j: int|
                0 <= j < i ==> is_packed(seq![(#[trigger] links@[j]).0@, links@[j].1@]),
    {
        let mut pair: Vec<String> = Vec::new();
        pair.push(links[i].0.clone());
        pair.push(links[i].1.clone());
        proof {
            let done = models.subrange(0, i + 1);
            assert(done.drop_last() =~= models.subrange(0, i as int));
            assert(done.last() == links@[i as int]@);
            assert(lists::views(pair@) =~= seq![links@[i as int].0@, links@[i as int].1@]);
        }
        let ghost had = out@;
        match put_texts(out, &pair, true) {
            Ok(_) => {
                proof {
                    let done = models.subrange(0, i + 1);
                    assert(out@ =~= before + links_packed(done)->Ok_0);
                }
            },
            Err(e) => {
                proof {
                    links_fault_stays(models, (i + 1) as int);
                }
                return Err(e);
            },
        }
    }
    assert(models.subrange(0, models.len() as int) =~= models);
    Ok(())
}

proof fn links_fault_stays(links: Seq<(Seq<char>, Seq<char>)>, n: int)
    requires
        0 <= n <= links.len(),
        links_packed(links.subrange(0, n)) is Err,
    ensures
        links_packed(links) == links_packed(links.subrange(0, n)),
    decreases links.len() - n,
{
    if n == links.len() {
        assert(links.subrange(0, n) =~= links);
    } else {
        assert(links.subrange(0, n + 1).drop_last() =~= links.subrange(0, n));
        links_fault_stays(links, n + 1);
    }
}

/// Encodes a record.
pub fn pack_record(r: &AtomRecord) -> (b: Result<Vec<u8>, String>)
    ensures
        b is Ok <==> record_packed(r@) is Ok,
        b matches Ok(v) ==> record_packed(r@)->Ok_0 == v@ && v@.len() > 0 && v@[0] == ELEVEN,
        b matches Ok(v) ==> r@.fits() ==> record_unpacked(v@) == Ok::<RecordView, Seq<char>>(r@),
        b matches Err(e) ==> record_packed(r@)->Err_0 == e@,
{
    reveal(record_packed);
    let mut out: Vec<u8> = Vec::new();
    out.push(ELEVEN);
    let mut texts: Vec<String> = Vec::new();
    texts.push(r.id.clone());
    texts.push(r.world.clone());
    texts.push(r.worker.clone());
    texts.push(r.kind.clone());
    texts.push(r.timestamp.clone());
    assert(lists::views(texts@) =~= heading(r@));
    let mut payload: Vec<String> = Vec::new();
    payload.push(r.payload_json.clone());
    assert(lists::views(payload@) =~= seq![r@.payload_json]);
    if let Err(e) = put_texts(&mut out, &texts, false) {
        return Err(e);
    }
    put_number(&mut out, r.importance);
    if let Err(e) = put_texts(&mut out, &payload, false) {
        return Err(e);
    }
    put_vector(&mut out, &r.vector);
    if let Err(e) = put_texts(&mut out, &r.flags, true) {
        return Err(e);
    }
    if let Err(e) = put_texts(&mut out, &r.labels, true) {
        return Err(e);
    }
    put_list_mark(&mut out, r.links.len() as u32);
    if let Err(e) = put_links(&mut out, &r.links) {
        return Err(e);
    }
    proof {
        assert(out@ =~= record_packed(r@)->Ok_0);
        if r@.fits() {
            assert forall|i: int| 0 <= i < r@.links.len() implies is_packed(
                seq![(#[trigger] r@.links[i]).0, r@.links[i].1],
            ) by {
                assert(r@.links[i] == r.links@[i]@);
            }
            record_reads_back(r@);
        }
    }
    Ok(out)
}

proof fn number_reads_back(bits: u32, rest: Seq<u8>)
    ensures
        is_number_at(number_bytes(bits) + rest, 0),
        number_at(number_bytes(bits) + rest, 0) == bits,
        number_bytes(bits).len() == 5,
{
    lemma_auto_spec_u32_to_from_le_bytes();
    let b = number_bytes(bits) + rest;
    assert(spec_u32_to_le_bytes(bits).len() == 4);
    assert(b.subrange(1, 5).reverse() =~= spec_u32_to_le_bytes(bits));
}

proof fn numbers_read_back(v: Seq<u32>, rest: Seq<u8>)
    ensures
        numbers_read(numbers_packed(v) + rest, v.len() as int) == Some(v),
        numbers_packed(v).len() == 5 * v.len(),
    decreases v.len(),
{
    let b = numbers_packed(v) + rest;
    if v.len() > 0 {
        let tail = number_bytes(v.last()) + rest;
        numbers_read_back(v.drop_last(), tail);
        number_reads_back(v.last(), rest);
        let n = v.len() - 1;
        let front = numbers_packed(v.drop_last());
        assert(b =~= front + tail);
        assert(b.subrange(5 * n + 1, 5 * n + 5) =~= tail.subrange(1, 5));
        assert forall|i: int| #![trigger has_nth(b, i)] #![trigger nth(b, i)]
            0 <= i < v.len() implies has_nth(b, i) && nth(b, i) == v[i] by {
            if i < n {
                assert(has_nth(front + tail, i));
                assert(b.subrange(5 * i + 1, 5 * i + 5) =~= (front + tail).subrange(
                    5 * i + 1,
                    5 * i + 5,
                ));
                let w = Seq::new(n as nat, |i: int| nth(front + tail, i));
                assert(w == v.drop_last());
                assert(w[i] == v[i]);
            }
        }
    }
    assert(numbers_read(b, v.len() as int)->Some_0 =~= v);
}

proof fn mark_reads_back(n: u32, rest: Seq<u8>)
    ensures
        mark_read(list_mark(n) + rest) == Some((n, list_mark(n).len() as int)),
        list_mark(n).len() >= 1,
        list_mark(n)[0] != NIL,
{
    let b = list_mark(n) + rest;
    lemma_auto_spec_u16_to_from_le_bytes();
    lemma_auto_spec_u32_to_from_le_bytes();
    if n < 16 {
    } else if n <= u16::MAX {
        assert(spec_u16_to_le_bytes(n as u16).len() == 2);
        assert(b.subrange(1, 3).reverse() =~= spec_u16_to_le_bytes(n as u16));
    } else {
        assert(spec_u32_to_le_bytes(n).len() == 4);
        assert(b.subrange(1, 5).reverse() =~= spec_u32_to_le_bytes(n));
    }
}

proof fn vector_reads_back(v: Option<Seq<u32>>, rest: Seq<u8>)
    requires
        v matches Some(w) ==> w.len() <= u32::MAX,
    ensures
        vector_read(vector_packed(v) + rest) == Some((v, vector_packed(v).len() as int)),
{
    let b = vector_packed(v) + rest;
    if let Some(w) = v {
        let mark = list_mark(w.len() as u32);
        let numbers = numbers_packed(w);
        mark_reads_back(w.len() as u32, numbers + rest);
        numbers_read_back(w, rest);
        assert(b =~= mark + (numbers + rest));
        assert(b.skip(mark.len() as int) =~= numbers + rest);
    }
}

proof fn links_read_back(links: Seq<(Seq<char>, Seq<char>)>, rest: Seq<u8>)
    requires
        forall|i: int|
            0 <= i < links.len() ==> is_packed(seq![(#[trigger] links[i]).0, links[i].1])
                && codec::text_fits(links[i].0) && codec::text_fits(links[i].1),
    ensures
        links_packed(links) is Ok,
        links_read(links_packed(links)->Ok_0 + rest, links.len()) == Ok::<
            (Seq<(Seq<char>, Seq<char>)>, int),
            Seq<char>,
        >((links, links_packed(links)->Ok_0.len() as int)),
    decreases links.len(),
{
    if links.len() > 0 {
        let last = links.last();
        let pair = seq![last.0, last.1];
        assert(last == links[links.len() - 1]);
        assert(codec::texts_fit(pair));
        let item = texts_packed(pair)->Ok_0;
        let init = links.drop_last();
        assert forall|i: int| 0 <= i < init.len() implies is_packed(
            seq![(#[trigger] init[i]).0, init[i].1],
        ) && codec::text_fits(init[i].0) && codec::text_fits(init[i].1) by {
            assert(init[i] == links[i]);
        }
        links_read_back(init, item + rest);
        let front = links_packed(init)->Ok_0;
        let b = links_packed(links)->Ok_0 + rest;
        assert(b =~= front + (item + rest));
        assert(b.skip(front.len() as int) =~= item + rest);
        assert(texts_read(item + rest) is Ok);
        assert(init.push((pair[0], pair[1])) =~= links);
    } else {
        assert(links =~= Seq::empty());
    }
}

proof fn tail_reads_back(r: RecordView)
    requires
        r.fits(),
        is_packed(r.flags),
        is_packed(r.labels),
        forall|i: int|
            0 <= i < r.links.len() ==> is_packed(seq![(#[trigger] r.links[i]).0, r.links[i].1]),
    ensures
        tail_packed(r) is Ok,
        tail_unpacked(tail_packed(r)->Ok_0) == Ok::<
            (Seq<Seq<char>>, Seq<Seq<char>>, Seq<(Seq<char>, Seq<char>)>),
            Seq<char>,
        >((r.flags, r.labels, r.links)),
{
    links_read_back(r.links, Seq::empty());
    let flags = texts_packed(r.flags)->Ok_0;
    let labels = texts_packed(r.labels)->Ok_0;
    let mark = list_mark(r.links.len() as u32);
    let links = links_packed(r.links)->Ok_0;
    let b = tail_packed(r)->Ok_0;
    assert(links + Seq::<u8>::empty() =~= links);
    mark_reads_back(r.links.len() as u32, links);
    assert(texts_read(flags + (labels + (mark + links))) is Ok);
    assert(b.skip(flags.len() as int) =~= labels + (mark + links));
    assert(texts_read(labels + (mark + links)) is Ok);
    assert((labels + (mark + links)).skip(labels.len() as int) =~= mark + links);
    assert((mark + links).skip(mark.len() as int) =~= links);
}

proof fn texts_under_read_back(mark: u8, s: Seq<Seq<char>>, rest: Seq<u8>)
    requires
        is_packed(s),
        codec::texts_fit(s),
        s.len() < 16,
        mark == 0x90 + s.len(),
    ensures
        texts_under(mark, texts_packed(s)->Ok_0.skip(1) + rest) == Ok::<
            (Seq<Seq<char>>, int),
            Seq<char>,
        >((s, texts_packed(s)->Ok_0.len() - 1)),
{
    let b = texts_packed(s)->Ok_0;
    assert(seq![mark] + (b.skip(1) + rest) =~= b + rest);
    assert(texts_read(b + rest) is Ok);
}

/// A record whose lengths fit is read back from what it is encoded as.
proof fn record_reads_back(r: RecordView)
    requires
        r.fits(),
        is_packed(heading(r)),
        is_packed(seq![r.payload_json]),
        is_packed(r.flags),
        is_packed(r.labels),
        forall|i: int|
            0 <= i < r.links.len() ==> is_packed(seq![(#[trigger] r.links[i]).0, r.links[i].1]),
    ensures
        record_packed(r) is Ok,
        record_unpacked(record_packed(r)->Ok_0) == Ok::<RecordView, Seq<char>>(r),
{
    reveal(record_packed);
    reveal(record_unpacked);
    tail_reads_back(r);
    let tail = tail_packed(r)->Ok_0;
    let vector = vector_packed(r.vector);
    let payload = texts_packed(seq![r.payload_json])->Ok_0.skip(1);
    let number = number_bytes(r.importance);
    let head = texts_packed(heading(r))->Ok_0.skip(1);
    let b5 = vector + tail;
    let b4 = payload + b5;
    let b2 = number + b4;
    let b1 = head + b2;
    let b = record_packed(r)->Ok_0;
    assert(b.skip(1) =~= b1);
    texts_under_read_back(0x95, heading(r), b2);
    assert(b1.skip(head.len() as int) =~= b2);
    number_reads_back(r.importance, b4);
    assert(b2.skip(5) =~= b4);
    texts_under_read_back(0x91, seq![r.payload_json], b5);
    assert(b4.skip(payload.len() as int) =~= b5);
    vector_reads_back(r.vector, tail);
    assert(b5.skip(vector.len() as int) =~= tail);
}

/// The texts at a place in some bytes, in front of which a mark is put.
fn take_texts_under(mark: u8, b: &[u8], at: usize) -> (r: Result<(Vec<String>, usize), String>)
    requires
        at <= b@.len(),
        0x90 <= mark < 0xa0,
    ensures
        r is Ok <==> texts_under(mark, b@.skip(at as int)) is Ok,
        r matches Ok((s, n)) ==> texts_under(mark, b@.skip(at as int))->Ok_0 == (
            lists::views(s@),
            n as int,
        ) && at + n <= b@.len() && s@.len() == mark - 0x90,
        r matches Err(e) ==> texts_under(mark, b@.skip(at as int))->Err_0 == e@,
{
    let mut marked: Vec<u8> = Vec::new();
    marked.push(mark);
    for i in at..b.len()
        invariant
            at <= b@.len(),
            marked@ == seq![mark] + b@.subrange(at as int, i as int),
    {
        marked.push(b[i]);
        assert(b@.subrange(at as int, i + 1) =~= b@.subrange(at as int, i as int).push(
            b@[i as int],
        ));
    }
    assert(marked@ =~= seq![mark] + b@.skip(at as int));
    match unpack_texts(marked.as_slice()) {
        Ok((s, n)) => Ok((s, n - 1)),
        Err(e) => Err(e),
    }
}

/// The texts at a place in some bytes.
fn take_texts(b: &[u8], at: usize) -> (r: Result<(Vec<String>, usize), String>)
    requires
        at <= b@.len(),
    ensures
        r is Ok <==> texts_read(b@.skip(at as int)) is Ok,
        r matches Ok((s, n)) ==> texts_read(b@.skip(at as int))->Ok_0 == (
            lists::views(s@),
            n as int,
        ) && 0 < n && at + n <= b@.len(),
        r matches Err(e) ==> texts_read(b@.skip(at as int))->Err_0 == e@,
{
    unpack_texts(slice_subrange(b, at, b.len()))
}

/// Some bytes in reverse.
fn reversed(b: &[u8], from: usize, to: usize) -> (r: Vec<u8>)
    requires
        from <= to <= b@.len(),
    ensures
        r@ == b@.subrange(from as int, to as int).reverse(),
{
    let mut out: Vec<u8> = Vec::new();
    let ghost all = b@.subrange(from as int, to as int).reverse();
    for i in 0..(to - from)
        invariant
            from <= to <= b@.len(),
            all == b@.subrange(from as int, to as int).reverse(),
            out@ == all.subrange(0, i as int),
    {
        out.push(b[to - 1 - i]);
        assert(all.subrange(0, i + 1) =~= all.subrange(0, i as int).push(all[i as int]));
    }
    assert(all.subrange(0, to - from) =~= all);
    out
}

/// The bit pattern of the single-precision number at a place in some bytes, if there is one.
fn take_number(b: &[u8], at: usize) -> (r: Option<u32>)
    requires
        at <= b@.len(),
    ensures
        r is Some <==> is_number_at(b@, at as int),
        r matches Some(bits) ==> bits == number_at(b@, at as int),
{
    if b.len() - at >= 5 && b[at] == NUMBER {
        Some(u32_from_le_bytes(reversed(b, at + 1, at + 5).as_slice()))
    } else {
        None
    }
}

/// The mark of a list at a place in some bytes, if there is one.
fn take_list_mark(b: &[u8], at: usize) -> (r: Option<(u32, usize)>)
    requires
        at <= b@.len(),
    ensures
        r is Some <==> mark_read(b@.skip(at as int)) is Some,
        r matches Some((n, c)) ==> mark_read(b@.skip(at as int)) == Some((n, c as int)) && at + c
            <= b@.len(),
{
    let ghost rest = b@.skip(at as int);
    let left: usize = b.len() - at;
    if left == 0 {
        return None;
    }
    let mark: u8 = b[at];
    assert(rest[0] == mark);
    if 0x90 <= mark && mark < 0xa0 {
        Some(((mark - 0x90) as u32, 1))
    } else if left >= 3 && mark == 0xdc {
        assert(rest.subrange(1, 3) =~= b@.subrange(at + 1, at + 3));
        Some((u16_from_le_bytes(reversed(b, at + 1, at + 3).as_slice()) as u32, 3))
    } else if left >= 5 && mark == 0xdd {
        assert(rest.subrange(1, 5) =~= b@.subrange(at + 1, at + 5));
        Some((u32_from_le_bytes(reversed(b, at + 1, at + 5).as_slice()), 5))
    } else {
        None
    }
}

/// The vector that may be absent at a place in some bytes.
fn take_vector(b: &[u8], at: usize) -> (r: Option<(Option<Vec<u32>>, usize)>)
    requires
        at <= b@.len(),
    ensures
        r is Some <==> vector_read(b@.skip(at as int)) is Some,
        r matches Some((v, n)) ==> vector_read(b@.skip(at as int)) == Some(
            (lists::opt_view(v), n as int),
        ) && at + n <= b@.len(),
{
    let ghost rest = b@.skip(at as int);
    if at < b.len() && b[at] == NIL {
        assert(rest[0] == NIL);
        return Some((None, 1));
    }
    assert(rest.len() >= 1 ==> rest[0] == b@[at as int]);
    let (n, c) = match take_list_mark(b, at) {
        Some(mark) => mark,
        None => {
            return None;
        },
    };
    let start: usize = at + c;
    let ghost numbers = rest.skip(c as int);
    assert(numbers =~= b@.skip(start as int));
    let len: usize = b.len();
    let mut v: Vec<u32> = Vec::new();
    let mut place: usize = start;
    let mut i: u32 = 0;
    while i < n
        invariant
            numbers == b@.skip(start as int),
            len == b@.len(),
            i <= n,
            start <= place <= b@.len(),
            place == start + 5 * i,
            v@.len() == i,
            rest == b@.skip(at as int),
            numbers == rest.skip(c as int),
            mark_read(rest) == Some((n, c as int)),
            !(rest.len() >= 1 && rest[0] == NIL),
            forall|j: int|
                #![trigger has_nth(numbers, j)]
                #![trigger v@[j]]
                0 <= j < i ==> has_nth(numbers, j) && v@[j] == nth(numbers, j),
        decreases n - i,
    {
        proof {
            assert(has_nth(numbers, i as int) == is_number_at(b@, place as int));
            if has_nth(numbers, i as int) {
                assert(numbers.subrange(5 * i + 1, 5 * i + 5) =~= b@.subrange(
                    place + 1,
                    place + 5,
                ));
            }
        }
        match take_number(b, place) {
            Some(bits) => {
                v.push(bits);
                place = place + 5;
                i = i + 1;
            },
            None => {
                assert(!has_nth(numbers, i as int));
                return None;
            },
        }
    }
    assert(numbers_read(numbers, n as int) is Some);
    assert(numbers_read(numbers, n as int)->Some_0 =~= v@);
    Some((Some(v), place - at))
}

/// So many links at a place in some bytes.
fn take_links(b: &[u8], at: usize, n: u32) -> (r: Result<Vec<(String, String)>, String>)
    requires
        at <= b@.len(),
    ensures
        r is Ok <==> links_read(b@.skip(at as int), n as nat) is Ok,
        r matches Ok(links) ==> links_read(b@.skip(at as int), n as nat)->Ok_0.0 == lists::views(
            links@,
        ),
        r matches Err(e) ==> links_read(b@.skip(at as int), n as nat)->Err_0 == e@,
{
    let ghost rest = b@.skip(at as int);
    let len: usize = b.len();
    let mut links: Vec<(String, String)> = Vec::new();
    let mut place: usize = at;
    let mut i: u32 = 0;
    assert(lists::views(links@) =~= Seq::empty());
    while i < n
        invariant
            rest == b@.skip(at as int),
            len == b@.len(),
            i <= n,
            at <= place <= b@.len(),
            links_read(rest, i as nat) is Ok,
            links_read(rest, i as nat)->Ok_0 == (lists::views(links@), place - at),
        decreases n - i,
    {
        assert(rest.skip(place - at) =~= b@.skip(place as int));
        match take_texts(b, place) {
            Ok((s, c)) => {
                if s.len() != 2 {
                    proof {
                        links_failure_stays(rest, (i + 1) as nat, n as nat);
                    }
                    return Err("a link is a target and a kind".to_owned());
                }
                let link = (s[0].clone(), s[1].clone());
                let ghost had = lists::views(links@);
                links.push(link);
                place = place + c;
                i = i + 1;
                assert(lists::views(links@) == had.push((s@[0]@, s@[1]@)));
            },
            Err(e) => {
                proof {
                    links_failure_stays(rest, (i + 1) as nat, n as nat);
                }
                return Err(e);
            },
        }
    }
    Ok(links)
}

proof fn links_failure_stays(b: Seq<u8>, i: nat, n: nat)
    requires
        i <= n,
        links_read(b, i) is Err,
    ensures
        links_read(b, n) == links_read(b, i),
    decreases n,
{
    if i < n {
        links_failure_stays(b, i, (n - 1) as nat);
    }
}

/// The flags, labels and links at a place in some bytes.
fn take_tail(b: &[u8], at: usize) -> (r: Result<
    (Vec<String>, Vec<String>, Vec<(String, String)>),
    String,
>)
    requires
        at <= b@.len(),
    ensures
        r is Ok <==> tail_unpacked(b@.skip(at as int)) is Ok,
        r matches Ok((flags, labels, links)) ==> tail_unpacked(b@.skip(at as int))->Ok_0 == (
            lists::views(flags@),
            lists::views(labels@),
            lists::views(links@),
        ),
        r matches Err(e) ==> tail_unpacked(b@.skip(at as int))->Err_0 == e@,
{
    let ghost rest = b@.skip(at as int);
    let len: usize = b.len();
    let (flags, n) = match take_texts(b, at) {
        Ok(read) => read,
        Err(e) => {
            return Err(e);
        },
    };
    assert(rest.skip(n as int) =~= b@.skip(at + n));
    let (labels, m) = match take_texts(b, at + n) {
        Ok(read) => read,
        Err(e) => {
            return Err(e);
        },
    };
    assert(rest.skip(n as int).skip(m as int) =~= b@.skip(at + n + m));
    let (count, c) = match take_list_mark(b, at + n + m) {
        Some(mark) => mark,
        None => {
            return Err("no list of links".to_owned());
        },
    };
    assert(rest.skip(n as int).skip(m as int).skip(c as int) =~= b@.skip(at + n + m + c));
    match take_links(b, at + n + m + c, count) {
        Ok(links) => Ok((flags, labels, links)),
        Err(e) => Err(e),
    }
}

/// Decodes a record.
pub fn unpack_record(b: &[u8]) -> (r: Result<AtomRecord, String>)
    ensures
        r is Ok <==> record_unpacked(b@) is Ok,
        r matches Ok(v) ==> record_unpacked(b@)->Ok_0 == v@,
        r matches Err(e) ==> record_unpacked(b@)->Err_0 == e@,
{
    reveal(record_unpacked);
    if !(b.len() >= 1 && b[0] == ELEVEN) {
        return Err("no list of eleven fields".to_owned());
    }
    let (heading, n) = match take_texts_under(0x95, b, 1) {
        Ok(read) => read,
        Err(e) => {
            return Err(e);
        },
    };
    let at: usize = 1 + n;
    let ghost b2 = b@.skip(1).skip(n as int);
    assert(b2 =~= b@.skip(at as int));
    assert(b2.subrange(1, 5) =~= b@.subrange(at + 1, at + 5) || b2.len() < 5);
    let importance: u32 = match take_number(b, at) {
        Some(bits) => bits,
        None => {
            return Err("no importance".to_owned());
        },
    };
    assert(b2.skip(5) =~= b@.skip(at + 5));
    let (payload, m) = match take_texts_under(0x91, b, at + 5) {
        Ok(read) => read,
        Err(e) => {
            return Err(e);
        },
    };
    assert(b2.skip(5).skip(m as int) =~= b@.skip(at + 5 + m));
    let (vector, k) = match take_vector(b, at + 5 + m) {
        Some(read) => read,
        None => {
            return Err("no vector".to_owned());
        },
    };
    assert(b2.skip(5).skip(m as int).skip(k as int) =~= b@.skip(at + 5 + m + k));
    let (flags, labels, links) = match take_tail(b, at + 5 + m + k) {
        Ok(read) => read,
        Err(e) => {
            return Err(e);
        },
    };
    Ok(
        AtomRecord {
            id: heading[0].clone(),
            world: heading[1].clone(),
            worker: heading[2].clone(),
            kind: heading[3].clone(),
            timestamp: heading[4].clone(),
            importance,
            payload_json: payload[0].clone(),
            vector,
            flags,
            labels,
            links,
        },
    )
}

}
