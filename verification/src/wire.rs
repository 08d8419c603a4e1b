//! The binary format of messages between nodes.
//!
//! Numbers, texts, bytes and the marks of optional values are written and read with `bincode`
//! in its standard configuration. A record is its fields one after the other, an optional
//! value its mark and then the value, a list its length and then its items, a variant its
//! index and then its fields. Reading what was written gives it back, whatever follows.

use vstd::bytes::*;
use vstd::prelude::*;
use vstd::slice::slice_subrange;
use vstd::string::*;
use vstd::utf8::*;

use crate::atom::{AtomKind, LinkKind};
use crate::lists;
use crate::single;
use crate::single::Single;

verus! {

broadcast use crate::lists::group_views;

/// A value that can be written, and read from the front of some bytes.
pub trait Wire: View + Sized {
    /// Whether the lengths in a value can be written.
    spec fn fits(v: Self::V) -> bool;

    /// What a value is written as.
    spec fn packed(v: Self::V) -> Seq<u8>;

    /// The value at the front of some bytes and the number of bytes it takes, if there is one.
    spec fn read(b: Seq<u8>) -> Option<(Self::V, int)>;

    /// What was written is read back, whatever follows.
    proof fn reads_back(v: Self::V, rest: Seq<u8>)
        requires
            Self::fits(v),
        ensures
            Self::read(Self::packed(v) + rest) == Some((v, Self::packed(v).len() as int)),
    ;

    /// No more bytes are read than there are.
    proof fn reads_within(b: Seq<u8>)
        ensures
            Self::read(b) matches Some((v, n)) ==> 0 <= n <= b.len(),
    ;

    /// Writes the value behind some bytes.
    fn put(&self, out: &mut Vec<u8>)
        ensures
            Self::fits(self.view()),
            final(out)@ == old(out)@ + Self::packed(self.view()),
    ;

    /// Reads a value from the front of some bytes; also the number of bytes it takes.
    fn take(b: &[u8]) -> (r: Option<(Self, usize)>)
        ensures
            r is Some <==> Self::read(b@) is Some,
            r matches Some((x, n)) ==> Self::read(b@) == Some((x.view(), n as int)),
    ;
}

/// The bytes of a value.
pub fn to_bytes<T: Wire>(x: &T) -> (r: Vec<u8>)
    ensures
        r@ == T::packed(x.view()),
        T::fits(x.view()),
{
    let mut out: Vec<u8> = Vec::new();
    x.put(&mut out);
    assert(out@ =~= T::packed(x.view()));
    out
}

/// The value at the front of some bytes; what follows is ignored.
pub fn from_bytes<T: Wire>(b: &[u8]) -> (r: Option<T>)
    ensures
        r is Some <==> T::read(b@) is Some,
        r matches Some(x) ==> T::read(b@)->Some_0.0 == x.view(),
{
    match T::take(b) {
        Some((x, _)) => Some(x),
        None => None,
    }
}

/// Reading the bytes of a value gives the value.
pub proof fn bytes_give_value_back<T: Wire>(v: T::V)
    requires
        T::fits(v),
    ensures
        T::read(T::packed(v)) == Some((v, T::packed(v).len() as int)),
{
    T::reads_back(v, Seq::empty());
    assert(T::packed(v) + Seq::empty() =~= T::packed(v));
}

/// What a number is written as: one byte if it is below 251, else a mark and the number in
/// two, four or eight bytes, the lowest first.
pub open spec fn number_packed(n: u64) -> Seq<u8> {
    if n < 251 {
        seq![n as u8]
    } else if n <= u16::MAX {
        seq![251u8] + spec_u16_to_le_bytes(n as u16)
    } else if n <= u32::MAX {
        seq![252u8] + spec_u32_to_le_bytes(n as u32)
    } else {
        seq![253u8] + spec_u64_to_le_bytes(n)
    }
}

/// The number at the front of some bytes and the number of bytes it takes, if there is one.
pub open spec fn number_read(b: Seq<u8>) -> Option<(u64, int)> {
    if b.len() >= 1 && b[0] < 251 {
        Some((b[0] as u64, 1))
    } else if b.len() >= 3 && b[0] == 251 {
        Some((spec_u16_from_le_bytes(b.subrange(1, 3)) as u64, 3))
    } else if b.len() >= 5 && b[0] == 252 {
        Some((spec_u32_from_le_bytes(b.subrange(1, 5)) as u64, 5))
    } else if b.len() >= 9 && b[0] == 253 {
        Some((spec_u64_from_le_bytes(b.subrange(1, 9)), 9))
    } else {
        None
    }
}

/// `bincode::serde::encode_to_vec` with the standard configuration writes a number as
/// `number_packed` says; writing to memory does not fail.
#[verifier::external_body]
fn pack_number(n: u64) -> (r: Result<Vec<u8>, String>)
    ensures
        r is Ok,
        r matches Ok(v) ==> v@ == number_packed(n),
{
    bincode::serde::encode_to_vec(n, bincode::config::standard()).map_err(|e| e.to_string())
}

/// `bincode::serde::decode_from_slice` with the standard configuration reads a number as
/// `number_read` says, and gives the number of bytes that it took.
#[verifier::external_body]
fn unpack_number(b: &[u8]) -> (r: Result<(u64, usize), String>)
    ensures
        r is Ok <==> number_read(b@) is Some,
        r matches Ok((n, c)) ==> number_read(b@) == Some((n, c as int)),
{
    bincode::serde::decode_from_slice(b, bincode::config::standard()).map_err(|e| e.to_string())
}

/// What a text is written as: the number of its bytes in UTF-8, and the bytes.
pub open spec fn text_packed(s: Seq<char>) -> Seq<u8> {
    number_packed(encode_utf8(s).len() as u64) + encode_utf8(s)
}

/// Whether a text's length is at the front of some bytes, and so many bytes follow.
pub open spec fn text_is_whole(b: Seq<u8>) -> bool {
    number_read(b) matches Some((n, c)) && n <= b.len() - c
}

/// The bytes of the text at the front of some bytes.
pub open spec fn text_part(b: Seq<u8>) -> Seq<u8> {
    let (n, c) = number_read(b)->Some_0;
    b.subrange(c, c + n)
}

/// The text at the front of some bytes and the number of bytes it takes, if there is one.
pub open spec fn text_read(b: Seq<u8>) -> Option<(Seq<char>, int)> {
    if text_is_whole(b) && valid_utf8(text_part(b)) {
        let (n, c) = number_read(b)->Some_0;
        Some((decode_utf8(text_part(b)), c + n))
    } else {
        None
    }
}

/// `bincode::serde::encode_to_vec` with the standard configuration writes a text as
/// `text_packed` says; writing to memory does not fail.
#[verifier::external_body]
fn pack_text(s: &str) -> (r: Result<Vec<u8>, String>)
    ensures
        r is Ok,
        r matches Ok(v) ==> v@ == text_packed(s@),
{
    bincode::serde::encode_to_vec(s, bincode::config::standard()).map_err(|e| e.to_string())
}

/// `bincode::serde::decode_from_slice` with the standard configuration reads a text as
/// `text_read` says, and gives the number of bytes that it took. It makes room for as many
/// bytes as the length says before it reads them, so the length must not be beyond the
/// bytes.
#[verifier::external_body]
fn unpack_text(b: &[u8]) -> (r: Result<(String, usize), String>)
    requires
        text_is_whole(b@),
    ensures
        r is Ok <==> text_read(b@) is Some,
        r matches Ok((s, c)) ==> text_read(b@) == Some((s@, c as int)),
{
    bincode::serde::decode_from_slice(b, bincode::config::standard()).map_err(|e| e.to_string())
}

/// `bincode::serde::encode_to_vec` with the standard configuration writes a number of 32 bits
/// as it writes one of 64; writing to memory does not fail.
#[verifier::external_body]
fn pack_short(n: u32) -> (r: Result<Vec<u8>, String>)
    ensures
        r is Ok,
        r matches Ok(v) ==> v@ == number_packed(n as u64),
{
    bincode::serde::encode_to_vec(n, bincode::config::standard()).map_err(|e| e.to_string())
}

/// The number at the front of some bytes, if it is written in 32 bits.
pub open spec fn short_read(b: Seq<u8>) -> Option<(u32, int)> {
    match number_read(b) {
        Some((n, c)) => if c <= 5 {
            Some((n as u32, c))
        } else {
            None
        },
        None => None,
    }
}

/// `bincode::serde::decode_from_slice` with the standard configuration reads a number of 32
/// bits as `short_read` says, and gives the number of bytes that it took.
#[verifier::external_body]
fn unpack_short(b: &[u8]) -> (r: Result<(u32, usize), String>)
    ensures
        r is Ok <==> short_read(b@) is Some,
        r matches Ok((n, c)) ==> short_read(b@) == Some((n, c as int)),
{
    bincode::serde::decode_from_slice(b, bincode::config::standard()).map_err(|e| e.to_string())
}

/// A signed number as an unsigned one: the numbers not below zero are the even ones.
pub open spec fn folded(n: i64) -> u64 {
    if n >= 0 {
        (2 * n) as u64
    } else {
        (-2 * n - 1) as u64
    }
}

/// The signed number of an unsigned one.
pub open spec fn unfolded(u: u64) -> i64 {
    if u % 2 == 0 {
        (u / 2) as i64
    } else {
        (-((u / 2) as int) - 1) as i64
    }
}

/// The signed number at the front of some bytes and the number of bytes it takes.
pub open spec fn signed_read(b: Seq<u8>) -> Option<(i64, int)> {
    match number_read(b) {
        Some((n, c)) => Some((unfolded(n), c)),
        None => None,
    }
}

/// `bincode::serde::encode_to_vec` with the standard configuration writes a signed number as
/// the unsigned one that `folded` says; writing to memory does not fail.
#[verifier::external_body]
fn pack_signed(n: i64) -> (r: Result<Vec<u8>, String>)
    ensures
        r is Ok,
        r matches Ok(v) ==> v@ == number_packed(folded(n)),
{
    bincode::serde::encode_to_vec(n, bincode::config::standard()).map_err(|e| e.to_string())
}

/// `bincode::serde::decode_from_slice` with the standard configuration reads a signed number
/// as `signed_read` says, and gives the number of bytes that it took.
#[verifier::external_body]
fn unpack_signed(b: &[u8]) -> (r: Result<(i64, usize), String>)
    ensures
        r is Ok <==> signed_read(b@) is Some,
        r matches Ok((n, c)) ==> signed_read(b@) == Some((n, c as int)),
{
    bincode::serde::decode_from_slice(b, bincode::config::standard()).map_err(|e| e.to_string())
}

/// `bincode::serde::encode_to_vec` with the standard configuration writes a list of bytes as
/// their number and the bytes; writing to memory does not fail.
#[verifier::external_body]
fn pack_bytes(bytes: &[u8]) -> (r: Result<Vec<u8>, String>)
    ensures
        r is Ok,
        r matches Ok(v) ==> v@ == number_packed(bytes@.len() as u64) + bytes@,
{
    bincode::serde::encode_to_vec(bytes, bincode::config::standard()).map_err(|e| e.to_string())
}

/// `bincode::serde::decode_from_slice` with the standard configuration reads a list of bytes
/// behind their number one by one, so that they must all be there, and gives the number of
/// bytes that it took.
#[verifier::external_body]
fn unpack_bytes(b: &[u8]) -> (r: Result<(Vec<u8>, usize), String>)
    ensures
        r is Ok <==> text_is_whole(b@),
        r matches Ok((v, c)) ==> v@ == text_part(b@) && c == number_read(b@)->Some_0.1 + v@.len(),
{
    bincode::serde::decode_from_slice(b, bincode::config::standard()).map_err(|e| e.to_string())
}

/// `bincode::serde::encode_to_vec` with integers of a fixed size writes a number of 32 bits as
/// four bytes, the lowest first, which is how it writes the bits of a float of that size;
/// writing to memory does not fail.
#[verifier::external_body]
fn pack_fixed(n: u32) -> (r: Result<Vec<u8>, String>)
    ensures
        r is Ok,
        r matches Ok(v) ==> v@ == spec_u32_to_le_bytes(n),
{
    let config = bincode::config::standard().with_fixed_int_encoding();
    bincode::serde::encode_to_vec(n, config).map_err(|e| e.to_string())
}

/// `bincode::serde::decode_from_slice` with integers of a fixed size reads a number of 32 bits
/// from four bytes, the lowest first.
#[verifier::external_body]
fn unpack_fixed(b: &[u8]) -> (r: Result<(u32, usize), String>)
    ensures
        r is Ok <==> b@.len() >= 4,
        r matches Ok((n, c)) ==> n == spec_u32_from_le_bytes(b@.subrange(0, 4)) && c == 4,
{
    let config = bincode::config::standard().with_fixed_int_encoding();
    bincode::serde::decode_from_slice(b, config).map_err(|e| e.to_string())
}

/// What says whether an optional value follows.
pub open spec fn mark_packed(mark: Option<()>) -> Seq<u8> {
    match mark {
        None => seq![0u8],
        Some(_) => seq![1u8],
    }
}

/// What the byte at the front of some bytes says of an optional value, and that it is one
/// byte; nothing, where it is neither of the two.
pub open spec fn mark_read(b: Seq<u8>) -> Option<(Option<()>, int)> {
    if b.len() >= 1 && b[0] == 0 {
        Some((None, 1))
    } else if b.len() >= 1 && b[0] == 1 {
        Some((Some(()), 1))
    } else {
        None
    }
}

/// `bincode::serde::encode_to_vec` with the standard configuration writes a missing value as
/// `0`, and before a value that is there `1`; a unit takes no bytes, and writing to memory
/// does not fail.
#[verifier::external_body]
fn pack_mark(mark: Option<()>) -> (r: Result<Vec<u8>, String>)
    ensures
        r is Ok,
        r matches Ok(v) ==> v@ == mark_packed(mark),
{
    bincode::serde::encode_to_vec(mark, bincode::config::standard()).map_err(|e| e.to_string())
}

/// `bincode::serde::decode_from_slice` with the standard configuration reads `0` as a missing
/// value and `1` as one that is there, and nothing else; a unit takes no bytes.
#[verifier::external_body]
fn unpack_mark(b: &[u8]) -> (r: Result<(Option<()>, usize), String>)
    ensures
        r is Ok <==> mark_read(b@) is Some,
        r matches Ok((mark, c)) ==> mark_read(b@) == Some((mark, c as int)),
{
    bincode::serde::decode_from_slice(b, bincode::config::standard()).map_err(|e| e.to_string())
}

/// A number that was written is read back.
proof fn number_reads_back(n: u64, rest: Seq<u8>)
    ensures
        number_read(number_packed(n) + rest) == Some((n, number_packed(n).len() as int)),
{
    let b = number_packed(n) + rest;
    lemma_auto_spec_u16_to_from_le_bytes();
    lemma_auto_spec_u32_to_from_le_bytes();
    lemma_auto_spec_u64_to_from_le_bytes();
    if n < 251 {
    } else if n <= u16::MAX {
        assert(spec_u16_to_le_bytes(n as u16).len() == 2);
        assert(b.subrange(1, 3) =~= spec_u16_to_le_bytes(n as u16));
    } else if n <= u32::MAX {
        assert(spec_u32_to_le_bytes(n as u32).len() == 4);
        assert(b.subrange(1, 5) =~= spec_u32_to_le_bytes(n as u32));
    } else {
        assert(spec_u64_to_le_bytes(n).len() == 8);
        assert(b.subrange(1, 9) =~= spec_u64_to_le_bytes(n));
    }
}

impl Wire for u64 {
    open spec fn fits(v: u64) -> bool {
        true
    }

    open spec fn packed(v: u64) -> Seq<u8> {
        number_packed(v)
    }

    open spec fn read(b: Seq<u8>) -> Option<(u64, int)> {
        number_read(b)
    }

    proof fn reads_back(v: u64, rest: Seq<u8>) {
        number_reads_back(v, rest);
    }

    proof fn reads_within(b: Seq<u8>) {
    }

    fn put(&self, out: &mut Vec<u8>) {
        let n: u64 = *self;
        let mut b = pack_number(n).unwrap();
        assert(Self::fits(n) && Self::packed(n) == number_packed(n));
        out.append(&mut b);
    }

    fn take(b: &[u8]) -> (r: Option<(u64, usize)>) {
        match unpack_number(b) {
            Ok((n, c)) => Some((n, c)),
            Err(_) => None,
        }
    }
}

impl Wire for u32 {
    open spec fn fits(v: u32) -> bool {
        true
    }

    open spec fn packed(v: u32) -> Seq<u8> {
        number_packed(v as u64)
    }

    open spec fn read(b: Seq<u8>) -> Option<(u32, int)> {
        short_read(b)
    }

    proof fn reads_back(v: u32, rest: Seq<u8>) {
        number_reads_back(v as u64, rest);
        lemma_auto_spec_u16_to_from_le_bytes();
        lemma_auto_spec_u32_to_from_le_bytes();
        assert(spec_u16_to_le_bytes(v as u16).len() == 2);
        assert(spec_u32_to_le_bytes(v).len() == 4);
    }

    proof fn reads_within(b: Seq<u8>) {
    }

    fn put(&self, out: &mut Vec<u8>) {
        let n: u32 = *self;
        let mut b = pack_short(n).unwrap();
        assert(Self::fits(n) && Self::packed(n) == number_packed(n as u64));
        out.append(&mut b);
    }

    fn take(b: &[u8]) -> (r: Option<(u32, usize)>) {
        match unpack_short(b) {
            Ok((n, c)) => Some((n, c)),
            Err(_) => None,
        }
    }
}

impl Wire for i64 {
    open spec fn fits(v: i64) -> bool {
        true
    }

    open spec fn packed(v: i64) -> Seq<u8> {
        number_packed(folded(v))
    }

    open spec fn read(b: Seq<u8>) -> Option<(i64, int)> {
        signed_read(b)
    }

    proof fn reads_back(v: i64, rest: Seq<u8>) {
        number_reads_back(folded(v), rest);
    }

    proof fn reads_within(b: Seq<u8>) {
    }

    fn put(&self, out: &mut Vec<u8>) {
        let n: i64 = *self;
        let mut b = pack_signed(n).unwrap();
        assert(Self::fits(n) && Self::packed(n) == number_packed(folded(n)));
        out.append(&mut b);
    }

    fn take(b: &[u8]) -> (r: Option<(i64, usize)>) {
        match unpack_signed(b) {
            Ok((n, c)) => Some((n, c)),
            Err(_) => None,
        }
    }
}

impl Wire for String {
    open spec fn fits(v: Seq<char>) -> bool {
        encode_utf8(v).len() <= u64::MAX
    }

    open spec fn packed(v: Seq<char>) -> Seq<u8> {
        text_packed(v)
    }

    open spec fn read(b: Seq<u8>) -> Option<(Seq<char>, int)> {
        text_read(b)
    }

    proof fn reads_back(v: Seq<char>, rest: Seq<u8>) {
        let body = encode_utf8(v);
        let head = number_packed(body.len() as u64);
        let b = text_packed(v) + rest;
        number_reads_back(body.len() as u64, body + rest);
        assert(b =~= head + (body + rest));
        assert(b.subrange(head.len() as int, (head.len() + body.len()) as int) =~= body);
        encode_utf8_valid_utf8(v);
        encode_utf8_decode_utf8(v);
    }

    proof fn reads_within(b: Seq<u8>) {
    }

    fn put(&self, out: &mut Vec<u8>) {
        let n: usize = self.as_str().as_bytes().len();
        assert(encode_utf8(self@).len() == n);
        let mut b = pack_text(self.as_str()).unwrap();
        out.append(&mut b);
    }

    fn take(b: &[u8]) -> (r: Option<(String, usize)>) {
        match unpack_number(b) {
            Ok((n, c)) => if n <= (b.len() - c) as u64 {
                match unpack_text(b) {
                    Ok((s, c)) => Some((s, c)),
                    Err(_) => None,
                }
            } else {
                None
            },
            Err(_) => None,
        }
    }
}

/// Bytes, one by one.
pub struct Blob(pub Vec<u8>);

impl View for Blob {
    type V = Seq<u8>;

    open spec fn view(&self) -> Seq<u8> {
        self.0@
    }
}

impl Wire for Blob {
    open spec fn fits(v: Seq<u8>) -> bool {
        v.len() <= u64::MAX
    }

    open spec fn packed(v: Seq<u8>) -> Seq<u8> {
        number_packed(v.len() as u64) + v
    }

    open spec fn read(b: Seq<u8>) -> Option<(Seq<u8>, int)> {
        if text_is_whole(b) {
            let (n, c) = number_read(b)->Some_0;
            Some((text_part(b), c + n))
        } else {
            None
        }
    }

    proof fn reads_back(v: Seq<u8>, rest: Seq<u8>) {
        let head = number_packed(v.len() as u64);
        let b = Self::packed(v) + rest;
        number_reads_back(v.len() as u64, v + rest);
        assert(b =~= head + (v + rest));
        assert(b.subrange(head.len() as int, (head.len() + v.len()) as int) =~= v);
    }

    proof fn reads_within(b: Seq<u8>) {
    }

    fn put(&self, out: &mut Vec<u8>) {
        let ghost before = out@;
        let n: usize = self.0.len();
        assert(self@.len() == n);
        let mut b = pack_bytes(self.0.as_slice()).unwrap();
        out.append(&mut b);
        assert(out@ =~= before + Self::packed(self@));
    }

    fn take(b: &[u8]) -> (r: Option<(Blob, usize)>) {
        match unpack_bytes(b) {
            Ok((v, c)) => Some((Blob(v), c)),
            Err(_) => None,
        }
    }
}

impl View for Single {
    type V = Single;

    open spec fn view(&self) -> Single {
        *self
    }
}

impl Wire for Single {
    open spec fn fits(v: Single) -> bool {
        true
    }

    open spec fn packed(v: Single) -> Seq<u8> {
        spec_u32_to_le_bytes(v.spec_bits())
    }

    open spec fn read(b: Seq<u8>) -> Option<(Single, int)> {
        if b.len() >= 4 {
            Some((single::with_bits(spec_u32_from_le_bytes(b.subrange(0, 4))), 4))
        } else {
            None
        }
    }

    proof fn reads_back(v: Single, rest: Seq<u8>) {
        lemma_auto_spec_u32_to_from_le_bytes();
        let b = Self::packed(v) + rest;
        assert(spec_u32_to_le_bytes(v.spec_bits()).len() == 4);
        assert(b.subrange(0, 4) =~= Self::packed(v));
        single::with_bits_has_bits(v.spec_bits());
        single::bits_determine(v, single::with_bits(v.spec_bits()));
    }

    proof fn reads_within(b: Seq<u8>) {
    }

    fn put(&self, out: &mut Vec<u8>) {
        let mut b = pack_fixed(self.to_bits()).unwrap();
        out.append(&mut b);
    }

    fn take(b: &[u8]) -> (r: Option<(Single, usize)>) {
        match unpack_fixed(b) {
            Ok((bits, c)) => {
                let s = Single::from_bits(bits);
                proof {
                    single::with_bits_has_bits(bits);
                    single::bits_determine(s, single::with_bits(bits));
                }
                Some((s, c))
            },
            Err(_) => None,
        }
    }
}

impl View for AtomKind {
    type V = AtomKind;

    open spec fn view(&self) -> AtomKind {
        *self
    }
}

/// The index of a category of atoms.
pub open spec fn atom_kind_index(k: AtomKind) -> u32 {
    match k {
        AtomKind::Observation => 0,
        AtomKind::Reflection => 1,
        AtomKind::Plan => 2,
        AtomKind::Action => 3,
        AtomKind::Message => 4,
    }
}

impl Wire for AtomKind {
    open spec fn fits(v: AtomKind) -> bool {
        true
    }

    open spec fn packed(v: AtomKind) -> Seq<u8> {
        u32::packed(atom_kind_index(v))
    }

    open spec fn read(b: Seq<u8>) -> Option<(AtomKind, int)> {
        match short_read(b) {
            Some((0, c)) => Some((AtomKind::Observation, c)),
            Some((1, c)) => Some((AtomKind::Reflection, c)),
            Some((2, c)) => Some((AtomKind::Plan, c)),
            Some((3, c)) => Some((AtomKind::Action, c)),
            Some((4, c)) => Some((AtomKind::Message, c)),
            _ => None,
        }
    }

    proof fn reads_back(v: AtomKind, rest: Seq<u8>) {
        u32::reads_back(atom_kind_index(v), rest);
    }

    proof fn reads_within(b: Seq<u8>) {
    }

    fn put(&self, out: &mut Vec<u8>) {
        let index: u32 = match self {
            AtomKind::Observation => 0,
            AtomKind::Reflection => 1,
            AtomKind::Plan => 2,
            AtomKind::Action => 3,
            AtomKind::Message => 4,
        };
        index.put(out);
    }

    fn take(b: &[u8]) -> (r: Option<(AtomKind, usize)>) {
        match u32::take(b) {
            Some((0, c)) => Some((AtomKind::Observation, c)),
            Some((1, c)) => Some((AtomKind::Reflection, c)),
            Some((2, c)) => Some((AtomKind::Plan, c)),
            Some((3, c)) => Some((AtomKind::Action, c)),
            Some((4, c)) => Some((AtomKind::Message, c)),
            _ => None,
        }
    }
}

impl View for LinkKind {
    type V = LinkKind;

    open spec fn view(&self) -> LinkKind {
        *self
    }
}

/// The index of a category of links.
pub open spec fn link_kind_index(k: LinkKind) -> u32 {
    match k {
        LinkKind::Supersedes => 0,
        LinkKind::References => 1,
        LinkKind::Confirms => 2,
        LinkKind::Contradicts => 3,
    }
}

impl Wire for LinkKind {
    open spec fn fits(v: LinkKind) -> bool {
        true
    }

    open spec fn packed(v: LinkKind) -> Seq<u8> {
        u32::packed(link_kind_index(v))
    }

    open spec fn read(b: Seq<u8>) -> Option<(LinkKind, int)> {
        match short_read(b) {
            Some((0, c)) => Some((LinkKind::Supersedes, c)),
            Some((1, c)) => Some((LinkKind::References, c)),
            Some((2, c)) => Some((LinkKind::Confirms, c)),
            Some((3, c)) => Some((LinkKind::Contradicts, c)),
            _ => None,
        }
    }

    proof fn reads_back(v: LinkKind, rest: Seq<u8>) {
        u32::reads_back(link_kind_index(v), rest);
    }

    proof fn reads_within(b: Seq<u8>) {
    }

    fn put(&self, out: &mut Vec<u8>) {
        let index: u32 = match self {
            LinkKind::Supersedes => 0,
            LinkKind::References => 1,
            LinkKind::Confirms => 2,
            LinkKind::Contradicts => 3,
        };
        index.put(out);
    }

    fn take(b: &[u8]) -> (r: Option<(LinkKind, usize)>) {
        match u32::take(b) {
            Some((0, c)) => Some((LinkKind::Supersedes, c)),
            Some((1, c)) => Some((LinkKind::References, c)),
            Some((2, c)) => Some((LinkKind::Confirms, c)),
            Some((3, c)) => Some((LinkKind::Contradicts, c)),
            _ => None,
        }
    }
}

/// The value behind another, at the front of some bytes; the bytes of both are counted.
pub open spec fn read_next<B: Wire>(b: Seq<u8>, n: int) -> Option<(B::V, int)> {
    match B::read(b.subrange(n, b.len() as int)) {
        Some((y, m)) => Some((y, n + m)),
        None => None,
    }
}

impl<A: Wire, B: Wire> Wire for (A, B) {
    open spec fn fits(v: (A::V, B::V)) -> bool {
        A::fits(v.0) && B::fits(v.1)
    }

    open spec fn packed(v: (A::V, B::V)) -> Seq<u8> {
        A::packed(v.0) + B::packed(v.1)
    }

    open spec fn read(b: Seq<u8>) -> Option<((A::V, B::V), int)> {
        match A::read(b) {
            Some((x, n)) => match read_next::<B>(b, n) {
                Some((y, m)) => Some(((x, y), m)),
                None => None,
            },
            None => None,
        }
    }

    proof fn reads_back(v: (A::V, B::V), rest: Seq<u8>) {
        let (p, q) = (A::packed(v.0), B::packed(v.1));
        let b = (p + q) + rest;
        A::reads_back(v.0, q + rest);
        B::reads_back(v.1, rest);
        assert(b =~= p + (q + rest));
        assert(b.subrange(p.len() as int, b.len() as int) =~= q + rest);
    }

    proof fn reads_within(b: Seq<u8>) {
        A::reads_within(b);
        if let Some((x, n)) = A::read(b) {
            B::reads_within(b.subrange(n, b.len() as int));
        }
    }

    fn put(&self, out: &mut Vec<u8>) {
        let ghost before = out@;
        self.0.put(out);
        self.1.put(out);
        assert(out@ =~= before + (A::packed(self.0.view()) + B::packed(self.1.view())));
    }

    fn take(b: &[u8]) -> (r: Option<((A, B), usize)>) {
        match A::take(b) {
            Some((x, n)) => {
                proof {
                    A::reads_within(b@);
                    B::reads_within(b@.subrange(n as int, b@.len() as int));
                }
                match B::take(slice_subrange(b, n, b.len())) {
                    Some((y, m)) => Some(((x, y), n + m)),
                    None => None,
                }
            },
            None => None,
        }
    }
}

/// A value that may be missing.
pub struct Maybe<T>(pub Option<T>);

impl<T: View> View for Maybe<T> {
    type V = Option<T::V>;

    open spec fn view(&self) -> Option<T::V> {
        lists::opt_view(self.0)
    }
}

impl<T: Wire> Wire for Maybe<T> {
    open spec fn fits(v: Option<T::V>) -> bool {
        v matches Some(x) ==> T::fits(x)
    }

    open spec fn packed(v: Option<T::V>) -> Seq<u8> {
        match v {
            None => seq![0u8],
            Some(x) => seq![1u8] + T::packed(x),
        }
    }

    open spec fn read(b: Seq<u8>) -> Option<(Option<T::V>, int)> {
        if b.len() >= 1 && b[0] == 0 {
            Some((None, 1))
        } else if b.len() >= 1 && b[0] == 1 {
            match read_next::<T>(b, 1) {
                Some((x, n)) => Some((Some(x), n)),
                None => None,
            }
        } else {
            None
        }
    }

    proof fn reads_back(v: Option<T::V>, rest: Seq<u8>) {
        if let Some(x) = v {
            let b = Self::packed(v) + rest;
            T::reads_back(x, rest);
            assert(b.subrange(1, b.len() as int) =~= T::packed(x) + rest);
        }
    }

    proof fn reads_within(b: Seq<u8>) {
        if b.len() >= 1 {
            T::reads_within(b.subrange(1, b.len() as int));
        }
    }

    fn put(&self, out: &mut Vec<u8>) {
        let ghost before = out@;
        match &self.0 {
            None => {
                let mut mark = pack_mark(None).unwrap();
                out.append(&mut mark);
                assert(out@ =~= before + seq![0u8]);
            },
            Some(x) => {
                let mut mark = pack_mark(Some(())).unwrap();
                out.append(&mut mark);
                x.put(out);
                assert(out@ =~= before + (seq![1u8] + T::packed(x.view())));
            },
        }
    }

    fn take(b: &[u8]) -> (r: Option<(Maybe<T>, usize)>) {
        match unpack_mark(b) {
            Ok((Some(_), c)) => {
                proof {
                    T::reads_within(b@.subrange(1, b@.len() as int));
                }
                match T::take(slice_subrange(b, c, b.len())) {
                    Some((x, n)) => Some((Maybe(Some(x)), c + n)),
                    None => None,
                }
            },
            Ok((None, c)) => Some((Maybe(None), c)),
            Err(_) => None,
        }
    }
}

/// Several values.
pub struct Many<T>(pub Vec<T>);

impl<T: View> View for Many<T> {
    type V = Seq<T::V>;

    open spec fn view(&self) -> Seq<T::V> {
        lists::views(self.0@)
    }
}

/// What several values are written as, without their number.
pub open spec fn items_packed<T: Wire>(v: Seq<T::V>) -> Seq<u8>
    decreases v.len(),
{
    if v.len() == 0 {
        Seq::empty()
    } else {
        items_packed::<T>(v.drop_last()) + T::packed(v.last())
    }
}

/// So many values at the front of some bytes.
pub open spec fn items_read<T: Wire>(b: Seq<u8>, count: nat) -> Option<(Seq<T::V>, int)>
    decreases count,
{
    if count == 0 {
        Some((Seq::empty(), 0))
    } else {
        match items_read::<T>(b, (count - 1) as nat) {
            Some((v, n)) => match read_next::<T>(b, n) {
                Some((x, m)) => Some((v.push(x), m)),
                None => None,
            },
            None => None,
        }
    }
}

proof fn items_read_back<T: Wire>(v: Seq<T::V>, rest: Seq<u8>)
    requires
        forall|i: int| 0 <= i < v.len() ==> T::fits(#[trigger] v[i]),
    ensures
        items_read::<T>(items_packed::<T>(v) + rest, v.len()) == Some(
            (v, items_packed::<T>(v).len() as int),
        ),
    decreases v.len(),
{
    if v.len() > 0 {
        let (p, q) = (items_packed::<T>(v.drop_last()), T::packed(v.last()));
        let b = (p + q) + rest;
        items_read_back::<T>(v.drop_last(), q + rest);
        T::reads_back(v.last(), rest);
        assert(b =~= p + (q + rest));
        assert(b.subrange(p.len() as int, b.len() as int) =~= q + rest);
        assert(v.drop_last().push(v.last()) =~= v);
    }
}

proof fn items_read_within<T: Wire>(b: Seq<u8>, count: nat)
    ensures
        items_read::<T>(b, count) matches Some((v, n)) ==> 0 <= n <= b.len() && v.len() == count,
    decreases count,
{
    if count > 0 {
        items_read_within::<T>(b, (count - 1) as nat);
        if let Some((v, n)) = items_read::<T>(b, (count - 1) as nat) {
            T::reads_within(b.subrange(n, b.len() as int));
        }
    }
}

/// Where some of the values cannot be read, all of them cannot.
proof fn items_stay_unread<T: Wire>(b: Seq<u8>, few: nat, many: nat)
    requires
        few <= many,
        items_read::<T>(b, few) is None,
    ensures
        items_read::<T>(b, many) is None,
    decreases many,
{
    if few < many {
        items_stay_unread::<T>(b, few, (many - 1) as nat);
    }
}

impl<T: Wire> Wire for Many<T> {
    open spec fn fits(v: Seq<T::V>) -> bool {
        v.len() <= u64::MAX && forall|i: int| 0 <= i < v.len() ==> T::fits(#[trigger] v[i])
    }

    open spec fn packed(v: Seq<T::V>) -> Seq<u8> {
        number_packed(v.len() as u64) + items_packed::<T>(v)
    }

    open spec fn read(b: Seq<u8>) -> Option<(Seq<T::V>, int)> {
        match number_read(b) {
            Some((count, c)) => match items_read::<T>(
                b.subrange(c, b.len() as int),
                count as nat,
            ) {
                Some((v, n)) => Some((v, c + n)),
                None => None,
            },
            None => None,
        }
    }

    proof fn reads_back(v: Seq<T::V>, rest: Seq<u8>) {
        let (p, q) = (number_packed(v.len() as u64), items_packed::<T>(v));
        let b = (p + q) + rest;
        number_reads_back(v.len() as u64, q + rest);
        items_read_back::<T>(v, rest);
        assert(b =~= p + (q + rest));
        assert(b.subrange(p.len() as int, b.len() as int) =~= q + rest);
    }

    proof fn reads_within(b: Seq<u8>) {
        if let Some((count, c)) = number_read(b) {
            items_read_within::<T>(b.subrange(c, b.len() as int), count as nat);
        }
    }

    fn put(&self, out: &mut Vec<u8>) {
        let ghost before = out@;
        let ghost all = lists::views(self.0@);
        let count: usize = self.0.len();
        (count as u64).put(out);
        let ghost head = number_packed(count as u64);
        assert(items_packed::<T>(all.subrange(0, 0)) =~= Seq::empty());
        for i in 0..count
            invariant
                count == self.0@.len(),
                all == lists::views(self.0@),
                out@ == before + (head + items_packed::<T>(all.subrange(0, i as int))),
                forall|j: int| 0 <= j < i ==> T::fits(#[trigger] all[j]),
        {
            let x = &self.0[i];
            x.put(out);
            proof {
                let done = all.subrange(0, i + 1);
                assert(done.drop_last() =~= all.subrange(0, i as int));
                assert(done.last() == x.view());
                assert(out@ =~= before + (head + items_packed::<T>(done)));
            }
        }
        assert(all.subrange(0, count as int) =~= all);
    }

    fn take(b: &[u8]) -> (r: Option<(Many<T>, usize)>) {
        let (count, c) = match u64::take(b) {
            Some((count, c)) => (count, c),
            None => {
                return None;
            },
        };
        let body = slice_subrange(b, c, b.len());
        let mut out: Vec<T> = Vec::new();
        let mut at: usize = 0;
        let mut i: u64 = 0;
        while i < count
            invariant
                i <= count,
                at <= body@.len(),
                items_read::<T>(body@, i as nat) == Some((lists::views(out@), at as int)),
                number_read(b@) == Some((count, c as int)),
                body@ == b@.subrange(c as int, b@.len() as int),
            decreases count - i,
        {
            let ghost rest = body@.subrange(at as int, body@.len() as int);
            proof {
                T::reads_within(rest);
            }
            match T::take(slice_subrange(body, at, body.len())) {
                Some((x, n)) => {
                    out.push(x);
                    at = at + n;
                    i = i + 1;
                },
                None => {
                    proof {
                        assert(items_read::<T>(body@, (i + 1) as nat) is None);
                        items_stay_unread::<T>(body@, (i + 1) as nat, count as nat);
                    }
                    return None;
                },
            }
        }
        Some((Many(out), c + at))
    }
}

}
