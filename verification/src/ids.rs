//! Identifiers taken at random.

use vstd::prelude::*;
use vstd::string::*;

verus! {

/// `rand::RngExt::fill` with the thread's generator fills the bytes at random; nothing is said
/// of them.
#[verifier::external_body]
fn random_bytes<const N: usize>() -> [u8; N] {
    let mut bytes = [0u8; N];
    rand::RngExt::fill(&mut rand::rng(), &mut bytes[..]);
    bytes
}

/// A hexadecimal digit, in lower case.
pub open spec fn hex_digit(n: u8) -> char {
    if n < 10 {
        (n + 48) as char
    } else {
        (n + 87) as char
    }
}

/// Bytes in hexadecimal, two digits each.
pub open spec fn hex_of(b: Seq<u8>) -> Seq<char> {
    Seq::new(
        2 * b.len(),
        |i: int|
            hex_digit(
                if i % 2 == 0 {
                    b[i / 2] / 16
                } else {
                    b[i / 2] % 16
                },
            ),
    )
}

/// `hex::encode` writes bytes in hexadecimal, in lower case.
#[verifier::external_body]
pub(crate) fn encode_hex(b: &[u8]) -> (r: String)
    ensures
        r@ == hex_of(b@),
{
    hex::encode(b)
}

/// Whether a text stands for so many bytes.
pub open spec fn is_hex_of_len(s: Seq<char>, n: nat) -> bool {
    exists|b: Seq<u8>| b.len() == n && s == #[trigger] hex_of(b)
}

/// Whether some bytes are ones that the generator gave.
pub closed spec fn is_drawn<const N: usize>(b: Seq<u8>) -> bool {
    exists|bytes: [u8; N]| bytes@ == b && #[trigger] call_ensures(random_bytes::<N>, (), bytes)
}

/// Whether a text stands for so many bytes that the generator gave.
pub open spec fn is_fresh<const N: usize>(s: Seq<char>) -> bool {
    exists|b: Seq<u8>| #[trigger] is_drawn::<N>(b) && b.len() == N && s == hex_of(b)
}

/// Bytes taken at random.
pub(crate) fn draw<const N: usize>() -> (r: [u8; N])
    ensures
        is_drawn::<N>(r@),
{
    let bytes = random_bytes::<N>();
    assert(call_ensures(random_bytes::<N>, (), bytes));
    bytes
}

/// An identifier of sixteen bytes for a message.
pub fn new_correlation_id() -> (r: String)
    ensures
        is_fresh::<16>(r@),
        is_hex_of_len(r@, 16),
{
    let bytes = draw::<16>();
    assert(bytes@.len() == 16);
    encode_hex(bytes.as_slice())
}

/// An identifier of eight bytes for a batch or a reply.
pub fn new_batch_id() -> (r: String)
    ensures
        is_fresh::<8>(r@),
        is_hex_of_len(r@, 8),
{
    let bytes = draw::<8>();
    assert(bytes@.len() == 8);
    encode_hex(bytes.as_slice())
}

/// Different bytes are different in hexadecimal.
pub proof fn hex_is_injective(a: Seq<u8>, b: Seq<u8>)
    requires
        hex_of(a) == hex_of(b),
    ensures
        a == b,
{
    assert(hex_of(a).len() == 2 * a.len());
    assert(hex_of(b).len() == 2 * b.len());
    assert forall|i: int| 0 <= i < a.len() implies a[i] == b[i] by {
        let (p, q) = (2 * i, 2 * i + 1);
        assert(p / 2 == i && p % 2 == 0 && q / 2 == i && q % 2 == 1);
        assert(hex_of(a)[p] == hex_digit(a[p / 2] / 16));
        assert(hex_of(b)[p] == hex_digit(b[p / 2] / 16));
        assert(hex_of(a)[q] == hex_digit(a[q / 2] % 16));
        assert(hex_of(b)[q] == hex_digit(b[q / 2] % 16));
        digit_is_injective(a[i] / 16, b[i] / 16);
        digit_is_injective(a[i] % 16, b[i] % 16);
    }
    assert(a =~= b);
}

proof fn digit_is_injective(m: u8, n: u8)
    requires
        m < 16,
        n < 16,
        hex_digit(m) == hex_digit(n),
    ensures
        m == n,
{
    assert(hex_digit(m) as u32 == if m < 10 { m + 48 } else { m + 87 });
    assert(hex_digit(n) as u32 == if n < 10 { n + 48 } else { n + 87 });
}

}
