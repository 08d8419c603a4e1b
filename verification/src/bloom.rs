//! Bloom filters over atom ids, and the messages that carry them.

use vstd::prelude::*;
use vstd::string::*;

use crate::atom::{Atom, AtomId, WorldKey};
use crate::lists;
use crate::model::TimeWindow;

verus! {

broadcast use crate::lists::group_views;

/// The SipHash-1-3 of some bytes under two keys.
pub uninterp spec fn sip13(k0: u64, k1: u64, b: Seq<u8>) -> u64;

/// `siphasher::sip::SipHasher13`, made with two keys, fed some bytes and finished, gives a
/// function of the keys and the bytes.
#[verifier::external_body]
fn sip_hash(k0: u64, k1: u64, b: &[u8]) -> (r: u64)
    ensures
        r == sip13(k0, k1, b@),
{
    let mut h = siphasher::sip::SipHasher13::new_with_keys(k0, k1);
    std::hash::Hasher::write(&mut h, b);
    std::hash::Hasher::finish(&h)
}

/// The least number of bits of a filter.
pub const LEAST_BITS: u32 = 256;

/// Bloom filter over atom ids.
#[derive(Debug)]
pub struct BloomFilter {
    bits: Vec<u8>,
    k: u32,
    m: u32,
}

/// Whether there is a bit at a position, and it is set.
pub open spec fn bit_at(bits: Seq<u8>, i: int) -> bool {
    i / 8 < bits.len() && (bits[i / 8] >> ((i % 8) as u8)) & 1 == 1
}

/// How many bytes hold so many bits.
pub open spec fn bytes_for(m: int) -> int {
    (m + 7) / 8
}

/// Whether so many bytes hold the positions of all ids, for `k` hash functions and `m` bits.
pub open spec fn go_together(bytes: int, k: u32, m: u32) -> bool {
    k == 0 || (m > 0 && bytes >= bytes_for(m as int))
}

/// The two hashes of an id.
pub open spec fn hashes_of(id: Seq<char>) -> (u64, u64) {
    (
        sip13(0, 1, vstd::utf8::encode_utf8(id)),
        sip13(2, 3, vstd::utf8::encode_utf8(id)),
    )
}

/// The position of an id for the hash function with a number, in a filter of `m` bits.
pub open spec fn position_of(id: Seq<char>, i: u32, m: u32) -> u32 {
    let (h1, h2) = hashes_of(id);
    (h1.wrapping_add((i as u64).wrapping_mul(h2)) % (m as u64)) as u32
}

/// Model of a filter: how many hash functions it has, how many bits, and which are set.
#[verifier::ext_equal]
pub ghost struct BloomView {
    pub k: u32,
    pub m: u32,
    pub set: Set<int>,
}

impl BloomView {
    /// Whether the id seems to be in the filter: all of its positions are set.
    pub open spec fn has(self, id: Seq<char>) -> bool {
        forall|i: u32| i < self.k ==> self.set.contains(#[trigger] position_of(id, i, self.m) as int)
    }

    /// The filter with an id.
    pub open spec fn with_id(self, id: Seq<char>) -> BloomView {
        BloomView {
            set: self.set.union(
                Set::new(
                    |p: int| exists|i: u32| i < self.k && p == #[trigger] position_of(id, i, self.m),
                ),
            ),
            ..self
        }
    }

    /// The filter with some ids.
    pub open spec fn with_ids(self, ids: Seq<Seq<char>>) -> BloomView
        decreases ids.len(),
    {
        if ids.len() == 0 {
            self
        } else {
            self.with_ids(ids.drop_last()).with_id(ids.last())
        }
    }

    /// A filter without ids.
    pub open spec fn empty(m: u32, k: u32) -> BloomView {
        BloomView { k, m, set: Set::empty() }
    }
}

/// The ids that are not in the filter.
pub open spec fn missing_from(bloom: BloomView, ids: Seq<Seq<char>>) -> Seq<Seq<char>> {
    ids.filter(|id: Seq<char>| !bloom.has(id))
}

impl View for BloomFilter {
    type V = BloomView;

    closed spec fn view(&self) -> BloomView {
        BloomView {
            k: self.k,
            m: self.m,
            set: Set::new(|p: int| 0 <= p < self.m && bit_at(self.bits@, p)),
        }
    }
}

/// Setting a bit of a byte sets that bit and no other.
proof fn bit_is_set(x: u8, a: u8, c: u8)
    requires
        a < 8,
        c < 8,
    ensures
        ((x | (1u8 << a)) >> c) & 1 == (if a == c { 1u8 } else { (x >> c) & 1 }),
{
    assert(((x | (1u8 << a)) >> c) & 1 == (if a == c { 1u8 } else { (x >> c) & 1 })) by (bit_vector)
        requires
            a < 8,
            c < 8,
    ;
}

impl BloomFilter {
    /// The bytes that hold the bits, the number of hash functions and the number of bits.
    pub closed spec fn raw(self) -> (Seq<u8>, u32, u32) {
        (self.bits@, self.k, self.m)
    }

    #[verifier::type_invariant]
    spec fn sound(self) -> bool {
        go_together(self.bits@.len() as int, self.k, self.m)
    }

    /// A filter of `m` bits (at least 256) and `k` hash functions (at least one) that holds
    /// some ids.
    pub fn from_ids(ids: &[AtomId], m: u32, k: u32) -> (r: Self)
        ensures
            r@ == BloomView::empty(
                if m < LEAST_BITS { LEAST_BITS } else { m },
                if k < 1 { 1u32 } else { k },
            ).with_ids(lists::views(ids@)),
    {
        let m: u32 = if m < LEAST_BITS {
            LEAST_BITS
        } else {
            m
        };
        let k: u32 = if k < 1 {
            1
        } else {
            k
        };
        let size: usize = ((m as u64 + 7) / 8) as usize;
        let mut bits: Vec<u8> = Vec::new();
        for i in 0..size
            invariant
                bits@.len() == i,
                forall|j: int| 0 <= j < i ==> bits@[j] == 0u8,
        {
            bits.push(0);
        }
        let mut bloom = BloomFilter { bits, k, m };
        proof {
            assert forall|p: int| 0 <= p < m implies !bit_at(bloom.bits@, p) by {
                let s = (p % 8) as u8;
                assert((0u8 >> s) & 1 == 0) by (bit_vector);
            }
            assert(bloom@ =~= BloomView::empty(m, k));
        }
        let ghost models = lists::views(ids@);
        for i in 0..ids.len()
            invariant
                models == lists::views(ids@),
                bloom@ == BloomView::empty(m, k).with_ids(models.subrange(0, i as int)),
        {
            proof {
                let upto = models.subrange(0, i + 1);
                assert(upto.drop_last() == models.subrange(0, i as int));
                assert(upto.last() == ids@[i as int]@);
            }
            bloom.set(&ids[i]);
        }
        assert(models.subrange(0, models.len() as int) == models);
        bloom
    }

    /// The filter with the given parts, if they go together.
    pub fn from_parts(bits: Vec<u8>, k: u32, m: u32) -> (r: Option<Self>)
        ensures
            r is Some <==> go_together(bits@.len() as int, k, m),
            r matches Some(bloom) ==> bloom.raw() == (bits@, k, m),
            r matches Some(bloom) ==> bloom@.k == k && bloom@.m == m && forall|p: int|
                #[trigger] bloom@.set.contains(p) <==> 0 <= p < m && bit_at(bits@, p),
    {
        if k == 0 || (m > 0 && bits.len() as u64 >= (m as u64 + 7) / 8) {
            Some(BloomFilter { bits, k, m })
        } else {
            None
        }
    }

    /// The bits, the number of hash functions and the number of bits.
    pub fn parts(&self) -> (r: (&[u8], u32, u32))
        ensures
            (r.0@, r.1, r.2) == self.raw(),
            r.1 == self@.k,
            r.2 == self@.m,
            go_together(r.0@.len() as int, r.1, r.2),
            forall|p: int|
                0 <= p < r.2 ==> (#[trigger] self@.set.contains(p) <==> bit_at(r.0@, p)),
    {
        proof {
            use_type_invariant(self);
        }
        (self.bits.as_slice(), self.k, self.m)
    }

    /// The positions of an id.
    pub fn indices(&self, id: &AtomId) -> (r: Vec<u32>)
        ensures
            r@.len() == self@.k,
            forall|i: u32|
                i < self@.k ==> r@[i as int] == #[trigger] position_of(id@, i, self@.m),
            forall|j: int| 0 <= j < r@.len() ==> (#[trigger] r@[j]) < self@.m,
            forall|j: int|
                0 <= j < r@.len() ==> #[trigger] r@[j] == position_of(id@, j as u32, self@.m),
    {
        proof {
            use_type_invariant(self);
        }
        let bytes = id.text().as_bytes();
        let h1: u64 = sip_hash(0, 1, bytes);
        let h2: u64 = sip_hash(2, 3, bytes);
        let mut out: Vec<u32> = Vec::new();
        for i in 0..self.k
            invariant
                self.k > 0 ==> self.m > 0,
                (h1, h2) == hashes_of(id@),
                out@.len() == i,
                forall|j: int|
                    0 <= j < i ==> #[trigger] out@[j] == position_of(id@, j as u32, self.m)
                        && out@[j] < self.m,
        {
            let p: u64 = h1.wrapping_add((i as u64).wrapping_mul(h2)) % (self.m as u64);
            out.push(p as u32);
        }
        assert forall|i: u32| i < self@.k implies out@[i as int] == #[trigger] position_of(
            id@,
            i,
            self@.m,
        ) by {
            let j = i as int;
            assert(out@[j] == position_of(id@, j as u32, self.m));
        }
        out
    }

    /// Puts an id in.
    pub fn set(&mut self, id: &AtomId)
        ensures
            final(self)@ == old(self)@.with_id(id@),
    {
        proof {
            use_type_invariant(&*self);
        }
        let ghost before = self@;
        let positions = self.indices(id);
        let k: u32 = self.k;
        let m: u32 = self.m;
        let mut blank: Vec<u8> = Vec::new();
        blank.push(0);
        let mut taken = BloomFilter { bits: blank, k: 1, m: 1 };
        std::mem::swap(self, &mut taken);
        let mut bits = taken.bits;
        let ghost start = bits@;
        for n in 0..positions.len()
            invariant
                go_together(bits@.len() as int, k, m),
                positions@.len() == k,
                start.len() == bits@.len(),
                forall|j: int| 0 <= j < positions@.len() ==> (#[trigger] positions@[j]) < m,
                forall|p: int|
                    0 <= p < m ==> (#[trigger] bit_at(bits@, p) <==> bit_at(start, p)
                        || positions@.subrange(0, n as int).contains(p as u32)),
        {
            let at: u32 = positions[n];
            assert(positions@[n as int] < m);
            let byte: usize = (at / 8) as usize;
            let bit: u8 = (at % 8) as u8;
            let ghost had = bits@;
            assert(byte < bits@.len());
            let old_byte: u8 = bits[byte];
            bits.set(byte, old_byte | (1u8 << bit));
            proof {
                let done = positions@.subrange(0, n as int);
                let more = positions@.subrange(0, n + 1);
                assert(more =~= done.push(at));
                assert forall|p: int| 0 <= p < m implies (#[trigger] bit_at(bits@, p) <==> bit_at(
                    start,
                    p,
                ) || more.contains(p as u32)) by {
                    assert(bit_at(had, p) <==> bit_at(start, p) || done.contains(p as u32));
                    bit_is_set(old_byte, bit, (p % 8) as u8);
                    if more.contains(p as u32) && p != at {
                        let j = choose|j: int| 0 <= j < more.len() && more[j] == p as u32;
                        assert(done[j] == p as u32);
                    }
                    if done.contains(p as u32) {
                        let j = choose|j: int| 0 <= j < done.len() && done[j] == p as u32;
                        assert(more[j] == p as u32);
                    }
                    assert(more[n as int] == at);
                }
            }
        }
        *self = BloomFilter { bits, k, m };
        proof {
            assert(positions@.subrange(0, positions@.len() as int) =~= positions@);
            assert forall|p: int| #[trigger]
                self@.set.contains(p) <==> before.with_id(id@).set.contains(p) by {
                if 0 <= p < m {
                    assert(bit_at(self.bits@, p) <==> bit_at(start, p) || positions@.contains(
                        p as u32,
                    ));
                    if positions@.contains(p as u32) {
                        let j = choose|j: int|
                            0 <= j < positions@.len() && positions@[j] == p as u32;
                        assert(positions@[j] == position_of(id@, j as u32, m));
                    }
                }
                if exists|i: u32| i < k && p == #[trigger] position_of(id@, i, m) {
                    let i = choose|i: u32| i < k && p == #[trigger] position_of(id@, i, m);
                    assert(positions@[i as int] == position_of(id@, i, m));
                    assert(positions@[i as int] < m);
                    assert(positions@.contains(p as u32));
                }
            }
            assert(self@ =~= before.with_id(id@));
        }
    }

    /// Whether an id seems to be in the filter.
    pub fn contains(&self, id: &AtomId) -> (r: bool)
        ensures
            r == self@.has(id@),
    {
        proof {
            use_type_invariant(self);
        }
        let positions = self.indices(id);
        for n in 0..positions.len()
            invariant
                self.sound(),
                positions@.len() == self@.k,
                forall|j: int| 0 <= j < positions@.len() ==> (#[trigger] positions@[j]) < self.m,
                forall|j: int|
                    0 <= j < positions@.len() ==> #[trigger] positions@[j] == position_of(
                        id@,
                        j as u32,
                        self@.m,
                    ),
                forall|j: int|
                    0 <= j < n ==> self@.set.contains(#[trigger] positions@[j] as int),
        {
            let at: u32 = positions[n];
            assert(positions@[n as int] < self.m);
            let byte: usize = (at / 8) as usize;
            let bit: u8 = (at % 8) as u8;
            assert(byte < self.bits@.len());
            let b: u8 = self.bits[byte];
            if (b >> bit) & 1 != 1 {
                proof {
                    assert(!bit_at(self.bits@, at as int));
                    assert(at == position_of(id@, n as u32, self@.m));
                    assert(!self@.set.contains(at as int));
                }
                return false;
            }
            assert(bit_at(self.bits@, at as int));
            assert(self@.set.contains(at as int));
        }
        proof {
            assert forall|i: u32| i < self@.k implies self@.set.contains(
                #[trigger] position_of(id@, i, self@.m) as int,
            ) by {
                assert(positions@[i as int] == position_of(id@, i, self@.m));
            }
        }
        true
    }

    /// The ids that are not in the filter.
    pub fn missing(&self, ids: &[AtomId]) -> (r: Vec<AtomId>)
        ensures
            lists::views(r@) == missing_from(self@, lists::views(ids@)),
    {
        let ghost models = lists::views(ids@);
        let ghost p = |id: Seq<char>| !self@.has(id);
        let mut out: Vec<AtomId> = Vec::new();
        for i in 0..ids.len()
            invariant
                models == lists::views(ids@),
                p == |id: Seq<char>| !self@.has(id),
                lists::views(out@) == models.subrange(0, i as int).filter(p),
        {
            proof {
                let id = ids@[i as int]@;
                assert(models.subrange(0, i + 1) == models.subrange(0, i as int).push(id));
                models.subrange(0, i as int).lemma_filter_push(id, p);
            }
            if !self.contains(&ids[i]) {
                out.push(ids[i].clone());
            }
        }
        assert(models.subrange(0, models.len() as int) == models);
        out
    }
}

impl Clone for BloomFilter {
    fn clone(&self) -> (r: Self)
        ensures
            r@ == self@,
            r.raw() == self.raw(),
    {
        proof {
            use_type_invariant(self);
        }
        BloomFilter { bits: crate::keys::copy_bytes(self.bits.as_slice()), k: self.k, m: self.m }
    }
}

/// An id that was put in seems to be in the filter, and so do all that seemed to be before.
pub proof fn no_false_negatives(bloom: BloomView, id: Seq<char>, other: Seq<char>)
    ensures
        bloom.with_id(id).has(id),
        bloom.has(other) ==> bloom.with_id(id).has(other),
{
    let after = bloom.with_id(id);
    assert forall|i: u32| i < after.k implies after.set.contains(
        #[trigger] position_of(id, i, after.m) as int,
    ) by {
        assert(i < bloom.k && position_of(id, i, after.m) as int == position_of(id, i, bloom.m));
    }
}

/// None of the ids that a filter was made from is missing from it.
pub proof fn members_are_not_missing(bloom: BloomView, ids: Seq<Seq<char>>)
    ensures
        missing_from(bloom.with_ids(ids), ids).len() == 0,
{
    let full = bloom.with_ids(ids);
    assert forall|i: int| 0 <= i < ids.len() implies full.has(#[trigger] ids[i]) by {
        member_is_in(bloom, ids, i);
    }
    nothing_is_missing(full, ids);
}

proof fn member_is_in(bloom: BloomView, ids: Seq<Seq<char>>, i: int)
    requires
        0 <= i < ids.len(),
    ensures
        bloom.with_ids(ids).has(ids[i]),
    decreases ids.len(),
{
    let rest = ids.drop_last();
    no_false_negatives(bloom.with_ids(rest), ids.last(), ids[i]);
    if i < rest.len() {
        member_is_in(bloom, rest, i);
    }
}

proof fn nothing_is_missing(bloom: BloomView, ids: Seq<Seq<char>>)
    requires
        forall|i: int| 0 <= i < ids.len() ==> bloom.has(#[trigger] ids[i]),
    ensures
        missing_from(bloom, ids).len() == 0,
    decreases ids.len(),
{
    reveal(Seq::filter);
    if ids.len() > 0 {
        let rest = ids.drop_last();
        assert forall|i: int| 0 <= i < rest.len() implies bloom.has(#[trigger] rest[i]) by {
            assert(rest[i] == ids[i]);
        }
        nothing_is_missing(bloom, rest);
        assert(bloom.has(ids[ids.len() - 1]));
    }
}

/// A batch of atoms to ship to a peer.
#[derive(Debug)]
pub struct AtomBatch {
    pub world: WorldKey,
    pub atoms: Vec<Atom>,
}

/// Offer of bloom filter for a world and window.
#[derive(Debug)]
pub struct BloomOffer {
    pub world: WorldKey,
    pub window: TimeWindow,
    pub bloom: BloomFilter,
}

/// Request for specific missing atoms.
#[derive(Debug)]
pub struct MissingRequest {
    pub world: WorldKey,
    pub atom_ids: Vec<AtomId>,
}

}
