//! What the operations on texts mean, character by character.

use vstd::prelude::*;

use crate::text;

verus! {

/// One text comes before another exactly where it is the other cut short, or has the smaller
/// character at the first place where the two differ.
pub proof fn order_is_decided_at_the_first_difference(a: Seq<char>, b: Seq<char>)
    ensures
        text::before(a, b) <==> (a.len() < b.len() && b.subrange(0, a.len() as int) == a)
            || exists|i: int|
            0 <= i < a.len() && i < b.len() && #[trigger] a[i] < b[i] && a.subrange(0, i)
                == b.subrange(0, i),
    decreases a.len(),
{
    let differ = |x: Seq<char>, y: Seq<char>, i: int|
        0 <= i < x.len() && i < y.len() && x[i] < y[i] && x.subrange(0, i) == y.subrange(0, i);
    if b.len() == 0 {
    } else if a.len() == 0 {
        assert(b.subrange(0, 0) =~= a);
    } else if a[0] == b[0] {
        let (x, y) = (a.drop_first(), b.drop_first());
        order_is_decided_at_the_first_difference(x, y);
        assert forall|i: int| 0 <= i <= x.len() && i <= y.len() implies (x.subrange(0, i)
            == y.subrange(0, i)) == (a.subrange(0, i + 1) == b.subrange(0, i + 1)) by {
            if x.subrange(0, i) == y.subrange(0, i) {
                assert forall|k: int| 0 <= k < i + 1 implies a[k] == b[k] by {
                    if k > 0 {
                        assert(x.subrange(0, i)[k - 1] == y.subrange(0, i)[k - 1]);
                    }
                }
                assert(a.subrange(0, i + 1) =~= b.subrange(0, i + 1));
            } else if a.subrange(0, i + 1) == b.subrange(0, i + 1) {
                assert forall|k: int| 0 <= k < i implies x[k] == y[k] by {
                    assert(a.subrange(0, i + 1)[k + 1] == b.subrange(0, i + 1)[k + 1]);
                }
                assert(x.subrange(0, i) =~= y.subrange(0, i));
            }
        }
        if x.len() < y.len() {
            assert(y.subrange(0, x.len() as int) == x <==> b.subrange(0, a.len() as int) == a) by {
                assert(x.subrange(0, x.len() as int) =~= x);
                assert(a.subrange(0, a.len() as int) =~= a);
            }
        }
        if exists|i: int|
            0 <= i < x.len() && i < y.len() && #[trigger] x[i] < y[i] && x.subrange(0, i)
                == y.subrange(0, i) {
            let i = choose|i: int|
                0 <= i < x.len() && i < y.len() && #[trigger] x[i] < y[i] && x.subrange(0, i)
                    == y.subrange(0, i);
            assert(a[i + 1] < b[i + 1]);
        }
        if exists|i: int|
            0 <= i < a.len() && i < b.len() && #[trigger] a[i] < b[i] && a.subrange(0, i)
                == b.subrange(0, i) {
            let i = choose|i: int|
                0 <= i < a.len() && i < b.len() && #[trigger] a[i] < b[i] && a.subrange(0, i)
                    == b.subrange(0, i);
            assert(x[i - 1] < y[i - 1]);
        }
    } else {
        if a[0] < b[0] {
            assert(a.subrange(0, 0) =~= b.subrange(0, 0));
        }
        if a.len() < b.len() && b.subrange(0, a.len() as int) == a {
            assert(b.subrange(0, a.len() as int)[0] == a[0]);
        }
        assert forall|i: int|
            0 <= i < a.len() && i < b.len() && #[trigger] a[i] < b[i] && a.subrange(0, i)
                == b.subrange(0, i) implies a[0] < b[0] by {
            if i > 0 {
                assert(a.subrange(0, i)[0] == b.subrange(0, i)[0]);
            }
        }
    }
}

/// A text starts with another exactly where it is that one and some rest, which is what is
/// left behind it.
pub proof fn text_starts_with_what_it_is_joined_from<T>(p: Seq<T>, rest: Seq<T>, s: Seq<T>)
    ensures
        text::has_prefix(p + rest, p),
        text::after_prefix(p + rest, p) == rest,
        text::has_prefix(s, p) ==> s == p + text::after_prefix(s, p),
{
    assert((p + rest).subrange(0, p.len() as int) =~= p);
    assert(text::after_prefix(p + rest, p) =~= rest);
    if text::has_prefix(s, p) {
        assert(s =~= s.subrange(0, p.len() as int) + text::after_prefix(s, p));
    }
}

/// A text ends with another exactly where it is something and that one, which is what is left
/// before it.
pub proof fn text_ends_with_what_it_is_joined_from<T>(front: Seq<T>, p: Seq<T>, s: Seq<T>)
    ensures
        text::has_suffix(front + p, p),
        text::before_suffix(front + p, p) == front,
        text::has_suffix(s, p) ==> s == text::before_suffix(s, p) + p,
{
    let all = front + p;
    assert(all.subrange(all.len() - p.len(), all.len() as int) =~= p);
    assert(text::before_suffix(all, p) =~= front);
    if text::has_suffix(s, p) {
        assert(s =~= text::before_suffix(s, p) + s.subrange(s.len() - p.len(), s.len() as int));
    }
}

/// A text holds another exactly where it is something, that one, and something.
pub proof fn text_holds_what_it_is_joined_from<T>(front: Seq<T>, p: Seq<T>, rest: Seq<T>, s: Seq<T>)
    ensures
        text::has_infix(front + p + rest, p),
        text::has_infix(s, p) ==> exists|a: Seq<T>, b: Seq<T>| s == #[trigger] ((a + p) + b),
{
    let all = front + p + rest;
    assert(all.subrange(front.len() as int, (front.len() + p.len()) as int) =~= p);
    assert(text::occurs_at(all, p, front.len() as int));
    if text::has_infix(s, p) {
        let i = choose|i: int| #[trigger] text::occurs_at(s, p, i);
        let (a, b) = (s.subrange(0, i), s.subrange(i + p.len(), s.len() as int));
        assert(s =~= a + s.subrange(i, i + p.len()) + b);
        assert(s == (a + p) + b);
    }
}

/// Making a text small turns each of the letters `A` to `Z` into the one 32 further on, and
/// leaves every other character where it is.
pub proof fn small_text_differs_in_capitals_alone(s: Seq<char>, i: int)
    requires
        0 <= i < s.len(),
    ensures
        text::lower(s).len() == s.len(),
        65 <= s[i] as int <= 90 ==> text::lower(s)[i] as int == s[i] as int + 32,
        !(65 <= s[i] as int <= 90) ==> text::lower(s)[i] == s[i],
{
}

/// Trimming takes away white space at both ends, all of it and nothing else.
pub proof fn trimming_takes_white_ends_away(front: Seq<char>, s: Seq<char>, rest: Seq<char>)
    requires
        forall|i: int| 0 <= i < front.len() ==> text::is_white(#[trigger] front[i]),
        forall|i: int| 0 <= i < rest.len() ==> text::is_white(#[trigger] rest[i]),
        s.len() > 0,
        !text::is_white(s.first()),
        !text::is_white(s.last()),
    ensures
        text::trimmed(front + s + rest) == s,
        text::trimmed(front) == Seq::<char>::empty(),
{
    leading_white_goes(front, s + rest);
    assert(front + s + rest =~= front + (s + rest));
    assert((s + rest).first() == s.first());
    trailing_white_goes(s, rest);
    leading_white_goes(front, Seq::empty());
    assert(front + Seq::<char>::empty() =~= front);
}

proof fn leading_white_goes(front: Seq<char>, s: Seq<char>)
    requires
        forall|i: int| 0 <= i < front.len() ==> text::is_white(#[trigger] front[i]),
        s.len() == 0 || !text::is_white(s.first()),
    ensures
        text::without_leading_white(front + s) == s,
    decreases front.len(),
{
    if front.len() > 0 {
        assert(text::is_white(front[0]));
        let less = front.drop_first();
        assert forall|i: int| 0 <= i < less.len() implies text::is_white(#[trigger] less[i]) by {
            assert(less[i] == front[i + 1]);
        }
        leading_white_goes(less, s);
        assert((front + s).drop_first() =~= less + s);
    } else {
        assert(front + s =~= s);
    }
}

proof fn trailing_white_goes(s: Seq<char>, rest: Seq<char>)
    requires
        forall|i: int| 0 <= i < rest.len() ==> text::is_white(#[trigger] rest[i]),
        s.len() > 0,
        !text::is_white(s.last()),
    ensures
        text::without_trailing_white(s + rest) == s,
    decreases rest.len(),
{
    if rest.len() > 0 {
        assert(text::is_white(rest[rest.len() - 1]));
        let less = rest.drop_last();
        assert forall|i: int| 0 <= i < less.len() implies text::is_white(#[trigger] less[i]) by {
            assert(less[i] == rest[i]);
        }
        trailing_white_goes(s, less);
        assert((s + rest).drop_last() =~= s + less);
    } else {
        assert(s + rest =~= s);
    }
}

/// A number is written with the digits of its tens, and then that of the rest; and read
/// accordingly, up to the largest that 64 bits hold.
pub proof fn digits_count_by_tens(n: nat, s: Seq<char>, c: char)
    requires
        '0' <= c <= '9',
    ensures
        n < 10 ==> text::decimal(n) == seq![(48 + n) as char],
        n >= 10 ==> text::decimal(n) == text::decimal(n / 10) + text::decimal(n % 10),
        text::parsed_u64(seq![c]) == Some((c as u32 - 48) as u64),
        text::parsed_u64(s) matches Some(v) ==> v * 10 + (c as u32 - 48) <= u64::MAX
            ==> text::parsed_u64(s.push(c)) == Some((v * 10 + (c as u32 - 48)) as u64),
        text::parsed_u64(Seq::<char>::empty()) is None,
        forall|i: int|
            0 < i < s.len() && !('0' <= #[trigger] s[i] <= '9') ==> text::parsed_u64(s) is None,
{
    if n >= 10 {
        assert(text::decimal(n) =~= text::decimal(n / 10) + text::decimal(n % 10));
    }
    let one = seq![c];
    assert(one.drop_last() =~= Seq::<char>::empty());
    assert(text::digits_value(Seq::<char>::empty()) == 0);
    assert(text::digits_value(one) == c as u32 - 48);
    if let Some(v) = text::parsed_u64(s) {
        if v * 10 + (c as u32 - 48) <= u64::MAX {
            let more = s.push(c);
            let body = if s[0] == '+' { s.drop_first() } else { s };
            let longer = if more[0] == '+' { more.drop_first() } else { more };
            assert(longer =~= body.push(c));
            assert(longer.drop_last() =~= body);
            assert(text::all_digits(longer));
        }
    }
    assert forall|i: int|
        0 < i < s.len() && !('0' <= #[trigger] s[i] <= '9') implies text::parsed_u64(s) is None by {
        let body = if s[0] == '+' { s.drop_first() } else { s };
        if s[0] == '+' {
            assert(!text::is_digit(body[i - 1]));
        } else {
            assert(!text::is_digit(body[i]));
        }
    }
}

}
