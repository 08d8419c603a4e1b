//! Byte strings: their order, and their relation to text.

use vstd::prelude::*;
use vstd::string::*;
use vstd::utf8::*;

use crate::text;

verus! {

/// Whether `a` comes strictly before `b` in lexicographic order.
pub open spec fn bytes_before(a: Seq<u8>, b: Seq<u8>) -> bool
    decreases a.len(),
{
    if b.len() == 0 {
        false
    } else if a.len() == 0 {
        true
    } else if a[0] == b[0] {
        bytes_before(a.drop_first(), b.drop_first())
    } else {
        a[0] < b[0]
    }
}

pub proof fn bytes_before_irreflexive(a: Seq<u8>)
    ensures
        !bytes_before(a, a),
    decreases a.len(),
{
    if a.len() > 0 {
        bytes_before_irreflexive(a.drop_first());
    }
}

pub proof fn bytes_before_transitive(a: Seq<u8>, b: Seq<u8>, c: Seq<u8>)
    requires
        bytes_before(a, b),
        bytes_before(b, c),
    ensures
        bytes_before(a, c),
    decreases a.len(),
{
    if a.len() > 0 && a[0] == b[0] && b[0] == c[0] {
        bytes_before_transitive(a.drop_first(), b.drop_first(), c.drop_first());
    }
}

pub proof fn bytes_before_total(a: Seq<u8>, b: Seq<u8>)
    requires
        a != b,
    ensures
        bytes_before(a, b) || bytes_before(b, a),
    decreases a.len(),
{
    if a.len() > 0 && b.len() > 0 && a[0] == b[0] {
        if a.drop_first() == b.drop_first() {
            assert(a =~= seq![a[0]] + a.drop_first());
            assert(b =~= seq![b[0]] + b.drop_first());
        }
        bytes_before_total(a.drop_first(), b.drop_first());
    } else if a.len() == 0 && b.len() == 0 {
        assert(a =~= b);
    }
}

/// A common prefix does not matter for the order.
pub proof fn common_prefix_keeps_order(p: Seq<u8>, a: Seq<u8>, b: Seq<u8>)
    ensures
        bytes_before(p + a, p + b) == bytes_before(a, b),
    decreases p.len(),
{
    if p.len() == 0 {
        assert(p + a =~= a);
        assert(p + b =~= b);
    } else {
        assert((p + a).drop_first() =~= p.drop_first() + a);
        assert((p + b).drop_first() =~= p.drop_first() + b);
        common_prefix_keeps_order(p.drop_first(), a, b);
    }
}

/// The encoding of two texts one after the other is that of the first and then that of the
/// second.
pub proof fn encoding_of_joined(a: Seq<char>, b: Seq<char>)
    ensures
        encode_utf8(a + b) == encode_utf8(a) + encode_utf8(b),
    decreases a.len(),
{
    if a.len() == 0 {
        assert(a + b =~= b);
        assert(encode_utf8(a) + encode_utf8(b) =~= encode_utf8(b));
    } else {
        assert((a + b).drop_first() =~= a.drop_first() + b);
        encoding_of_joined(a.drop_first(), b);
        let first = encode_scalar(a[0] as u32);
        assert(first + (encode_utf8(a.drop_first()) + encode_utf8(b)) =~= (first + encode_utf8(
            a.drop_first(),
        )) + encode_utf8(b));
    }
}

/// No two texts have the same encoding.
pub proof fn encoding_is_injective(a: Seq<char>, b: Seq<char>)
    requires
        encode_utf8(a) == encode_utf8(b),
    ensures
        a == b,
{
    encode_utf8_decode_utf8(a);
    encode_utf8_decode_utf8(b);
}

/// A text made of decimal digits is encoded one byte for each.
pub proof fn encoding_of_digits(s: Seq<char>)
    requires
        text::all_digits(s),
    ensures
        encode_utf8(s).len() == s.len(),
        forall|i: int| 0 <= i < s.len() ==> encode_utf8(s)[i] == #[trigger] s[i] as u8,
{
    assert(is_ascii_chars(s)) by {
        assert forall|i: int| 0 <= i < s.len() implies #[trigger] s[i] as nat <= 127 by {
            assert(text::is_digit(s[i]));
        }
    }
    is_ascii_chars_encode_utf8(s);
}

/// Digits of the same length are in the order of the numbers they stand for.
pub proof fn digits_are_in_order(a: Seq<char>, b: Seq<char>)
    requires
        text::all_digits(a),
        text::all_digits(b),
        a.len() == b.len(),
        text::digits_value(a) < text::digits_value(b),
    ensures
        bytes_before(encode_utf8(a), encode_utf8(b)),
{
    encoding_of_digits(a);
    encoding_of_digits(b);
    digits_bytes_in_order(a, b, encode_utf8(a), encode_utf8(b));
}

/// The value of digits is the first digit's share and the value of the rest.
proof fn value_of_first(s: Seq<char>)
    requires
        s.len() > 0,
        text::all_digits(s),
    ensures
        text::digits_value(s) == (s[0] as u32 - 48) * ten_to((s.len() - 1) as nat)
            + text::digits_value(s.drop_first()),
        text::digits_value(s.drop_first()) < ten_to((s.len() - 1) as nat),
    decreases s.len(),
{
    let rest = s.drop_first();
    if s.len() == 1 {
        assert(s.drop_last() =~= Seq::empty());
        assert(rest =~= Seq::empty());
        assert(text::digits_value(Seq::<char>::empty()) == 0);
        assert(text::is_digit(s[0]));
        let f = s[0] as u32 - 48;
        assert(text::digits_value(s) == f);
        assert(ten_to(0) == 1);
        assert(f * 1 == f);
    } else {
        let body = s.drop_last();
        assert(text::is_digit(s[0]));
        assert(text::is_digit(s[s.len() - 1]));
        assert(text::all_digits(body));
        value_of_first(body);
        assert(body.drop_first() =~= rest.drop_last());
        assert(rest.last() == s.last());
        let k = ten_to((s.len() - 2) as nat) as int;
        let f = s[0] as u32 - 48;
        let last = s.last() as u32 - 48;
        assert(text::digits_value(s) == text::digits_value(body) * 10 + last);
        assert(text::digits_value(rest) == text::digits_value(rest.drop_last()) * 10 + last);
        assert(ten_to((s.len() - 1) as nat) == k * 10);
        assert((f * k) * 10 == f * (k * 10)) by (nonlinear_arith);
    }
}

/// A power of ten.
pub open spec fn ten_to(n: nat) -> nat
    decreases n,
{
    if n == 0 {
        1
    } else {
        ten_to((n - 1) as nat) * 10
    }
}

proof fn digits_bytes_in_order(a: Seq<char>, b: Seq<char>, x: Seq<u8>, y: Seq<u8>)
    requires
        text::all_digits(a),
        text::all_digits(b),
        a.len() == b.len(),
        text::digits_value(a) < text::digits_value(b),
        x.len() == a.len(),
        y.len() == b.len(),
        forall|i: int| 0 <= i < a.len() ==> x[i] == #[trigger] a[i] as u8,
        forall|i: int| 0 <= i < b.len() ==> y[i] == #[trigger] b[i] as u8,
    ensures
        bytes_before(x, y),
    decreases a.len(),
{
    if a.len() == 0 {
        assert(a =~= b);
    } else {
        value_of_first(a);
        value_of_first(b);
        assert(text::is_digit(a[0]));
        assert(text::is_digit(b[0]));
        let k = ten_to((a.len() - 1) as nat) as int;
        let f = a[0] as u32 - 48;
        let g = b[0] as u32 - 48;
        if f == g {
            let c = a.drop_first();
            let d = b.drop_first();
            let u = x.drop_first();
            let v = y.drop_first();
            assert(text::all_digits(c)) by {
                assert forall|i: int| 0 <= i < c.len() implies text::is_digit(#[trigger] c[i]) by {
                    assert(text::is_digit(a[i + 1]));
                }
            }
            assert(text::all_digits(d)) by {
                assert forall|i: int| 0 <= i < d.len() implies text::is_digit(#[trigger] d[i]) by {
                    assert(text::is_digit(b[i + 1]));
                }
            }
            assert forall|i: int| 0 <= i < c.len() implies u[i] == #[trigger] c[i] as u8 by {
                assert(x[i + 1] == a[i + 1] as u8);
            }
            assert forall|i: int| 0 <= i < d.len() implies v[i] == #[trigger] d[i] as u8 by {
                assert(y[i + 1] == b[i + 1] as u8);
            }
            digits_bytes_in_order(c, d, u, v);
            assert(x[0] == a[0] as u8);
            assert(y[0] == b[0] as u8);
        } else {
            if f > g {
                assert((g + 1) * k <= f * k) by (nonlinear_arith)
                    requires
                        g + 1 <= f,
                        k >= 0,
                ;
                assert((g + 1) * k == g * k + k) by (nonlinear_arith);
            }
            assert(x[0] == a[0] as u8);
            assert(y[0] == b[0] as u8);
        }
    }
}

/// `std::str::from_utf8` gives the text that some bytes encode, if they are valid UTF-8.
#[verifier::external_body]
fn utf8_text(b: &[u8]) -> (r: Option<&str>)
    ensures
        r is Some <==> valid_utf8(b@),
        r matches Some(s) ==> encode_utf8(s@) == b@,
{
    std::str::from_utf8(b).ok()
}

/// The text that some bytes encode, if they encode one.
pub fn text_of(b: &[u8]) -> (r: Option<&str>)
    ensures
        r is Some <==> valid_utf8(b@),
        r matches Some(s) ==> s@ == decode_utf8(b@),
{
    let r = utf8_text(b);
    if let Some(s) = r {
        proof {
            encode_utf8_decode_utf8(s@);
        }
    }
    r
}

/// Whether some bytes end with others.
pub fn bytes_end_with(b: &[u8], suffix: &[u8]) -> (r: bool)
    ensures
        r == text::has_suffix(b@, suffix@),
{
    if suffix.len() > b.len() {
        return false;
    }
    let offset: usize = b.len() - suffix.len();
    for i in 0..suffix.len()
        invariant
            offset == b@.len() - suffix@.len(),
            b@.len() <= usize::MAX,
            forall|j: int| 0 <= j < i ==> b@[offset + j] == suffix@[j],
    {
        if b[offset + i] != suffix[i] {
            proof {
                let tail = b@.subrange(offset as int, b@.len() as int);
                assert(tail[i as int] != suffix@[i as int]);
            }
            return false;
        }
    }
    assert(b@.subrange(offset as int, b@.len() as int) =~= suffix@);
    true
}

/// Whether some bytes start with others.
pub fn bytes_start_with(b: &[u8], prefix: &[u8]) -> (r: bool)
    ensures
        r == text::has_prefix(b@, prefix@),
{
    if prefix.len() > b.len() {
        return false;
    }
    for i in 0..prefix.len()
        invariant
            prefix@.len() <= b@.len(),
            forall|j: int| 0 <= j < i ==> b@[j] == prefix@[j],
    {
        if b[i] != prefix[i] {
            proof {
                let head = b@.subrange(0, prefix@.len() as int);
                assert(head[i as int] != prefix@[i as int]);
            }
            return false;
        }
    }
    assert(b@.subrange(0, prefix@.len() as int) =~= prefix@);
    true
}

}
