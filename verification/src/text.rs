//! Text helpers: the string operations the store relies on, each proved against the
//! sequence of characters of its arguments.

use vstd::prelude::*;
use vstd::string::*;

verus! {

broadcast use vstd::string::group_string_axioms;

/// `String::push` appends the given character to the end of the string.
pub assume_specification[ String::push ](s: &mut String, c: char)
    ensures
        final(s)@ == old(s)@.push(c),
;

/// The characters with the Unicode property `White_Space`.
pub open spec fn is_white(c: char) -> bool {
    let n = c as int;
    ||| 0x9 <= n <= 0xd
    ||| n == 0x20
    ||| n == 0x85
    ||| n == 0xa0
    ||| n == 0x1680
    ||| 0x2000 <= n <= 0x200a
    ||| n == 0x2028
    ||| n == 0x2029
    ||| n == 0x202f
    ||| n == 0x205f
    ||| n == 0x3000
}

/// `char::is_whitespace` says whether a character has the property `White_Space` of the
/// Unicode Character Database.
pub assume_specification[ char::is_whitespace ](c: char) -> (r: bool)
    ensures
        r == is_white(c),
;

/// `p` is a prefix of `s`.
pub open spec fn has_prefix<T>(s: Seq<T>, p: Seq<T>) -> bool {
    p.len() <= s.len() && s.subrange(0, p.len() as int) =~= p
}

/// `p` is a suffix of `s`.
pub open spec fn has_suffix<T>(s: Seq<T>, p: Seq<T>) -> bool {
    p.len() <= s.len() && s.subrange(s.len() - p.len(), s.len() as int) =~= p
}

/// `p` occurs in `s` at position `i`.
pub open spec fn occurs_at<T>(s: Seq<T>, p: Seq<T>, i: int) -> bool {
    0 <= i && i + p.len() <= s.len() && s.subrange(i, i + p.len()) =~= p
}

/// `p` occurs somewhere in `s`.
pub open spec fn has_infix<T>(s: Seq<T>, p: Seq<T>) -> bool {
    exists|i: int| #[trigger] occurs_at(s, p, i)
}

/// What is left of `s` once its first `p.len()` items are gone.
pub open spec fn after_prefix<T>(s: Seq<T>, p: Seq<T>) -> Seq<T> {
    s.subrange(p.len() as int, s.len() as int)
}

/// What is left of `s` once its last `p.len()` items are gone.
pub open spec fn before_suffix<T>(s: Seq<T>, p: Seq<T>) -> Seq<T> {
    s.subrange(0, s.len() - p.len())
}

/// `c` with an ASCII capital made small.
pub open spec fn lower_char(c: char) -> char {
    if 'A' <= c <= 'Z' {
        ((c as u32) + 32) as char
    } else {
        c
    }
}

/// `c` with an ASCII small letter made capital.
pub open spec fn upper_char(c: char) -> char {
    if 'a' <= c <= 'z' {
        ((c as u32) - 32) as char
    } else {
        c
    }
}

/// `s` with its ASCII capitals made small.
pub open spec fn lower(s: Seq<char>) -> Seq<char> {
    Seq::new(s.len(), |i: int| lower_char(s[i]))
}

/// `s` with its ASCII small letters made capital.
pub open spec fn upper(s: Seq<char>) -> Seq<char> {
    Seq::new(s.len(), |i: int| upper_char(s[i]))
}

/// `s` with every `from` replaced by `to`.
pub open spec fn replaced(s: Seq<char>, from: char, to: char) -> Seq<char> {
    Seq::new(s.len(), |i: int| if s[i] == from { to } else { s[i] })
}

/// `s` without its leading white space.
pub open spec fn without_leading_white(s: Seq<char>) -> Seq<char>
    decreases s.len(),
{
    if s.len() > 0 && is_white(s.first()) {
        without_leading_white(s.drop_first())
    } else {
        s
    }
}

/// `s` without its trailing white space.
pub open spec fn without_trailing_white(s: Seq<char>) -> Seq<char>
    decreases s.len(),
{
    if s.len() > 0 && is_white(s.last()) {
        without_trailing_white(s.drop_last())
    } else {
        s
    }
}

/// `s` without white space at either end.
pub open spec fn trimmed(s: Seq<char>) -> Seq<char> {
    without_trailing_white(without_leading_white(s))
}

/// `s` without its trailing `c`s.
pub open spec fn without_trailing(s: Seq<char>, c: char) -> Seq<char>
    decreases s.len(),
{
    if s.len() > 0 && s.last() == c {
        without_trailing(s.drop_last(), c)
    } else {
        s
    }
}

/// Whether `a` comes strictly before `b` in dictionary order by code point.
pub open spec fn before(a: Seq<char>, b: Seq<char>) -> bool
    decreases a.len(),
{
    if b.len() == 0 {
        false
    } else if a.len() == 0 {
        true
    } else if a[0] == b[0] {
        before(a.drop_first(), b.drop_first())
    } else {
        a[0] < b[0]
    }
}

/// The characters of a string, as a vector.
pub fn chars_of(s: &str) -> (r: Vec<char>)
    ensures
        r@ == s@,
{
    let mut out: Vec<char> = Vec::new();
    for c in it: s.chars()
        invariant
            it.seq() == s@,
            out@ == s@.subrange(0, it.index() as int),
    {
        out.push(c);
    }
    assert(s@.subrange(0, s@.len() as int) == s@);
    out
}

/// Whether two strings have the same characters.
pub fn same(a: &str, b: &str) -> (r: bool)
    ensures
        r == (a@ == b@),
{
    a.to_owned() == b.to_owned()
}

/// `a` followed by `b`.
pub fn joined(a: &str, b: &str) -> (r: String)
    ensures
        r@ == a@ + b@,
{
    let mut out = a.to_owned();
    out.append(b);
    out
}

/// `a`, `b` and `c` one after the other.
pub fn joined3(a: &str, b: &str, c: &str) -> (r: String)
    ensures
        r@ == a@ + b@ + c@,
{
    let mut out = a.to_owned();
    out.append(b);
    out.append(c);
    out
}

/// Whether `s` starts with `p`.
pub fn starts_with(s: &str, p: &str) -> (r: bool)
    ensures
        r == has_prefix(s@, p@),
{
    let n: usize = p.unicode_len();
    if n > s.unicode_len() {
        false
    } else {
        same(s.substring_char(0, n), p)
    }
}

/// What follows `p` in `s`, if `s` starts with `p`.
pub fn strip_prefix<'a>(s: &'a str, p: &str) -> (r: Option<&'a str>)
    ensures
        r is Some <==> has_prefix(s@, p@),
        r matches Some(rest) ==> rest@ == after_prefix(s@, p@),
{
    if starts_with(s, p) {
        Some(s.substring_char(p.unicode_len(), s.unicode_len()))
    } else {
        None
    }
}

/// Whether `s` ends with `p`.
pub fn ends_with(s: &str, p: &str) -> (r: bool)
    ensures
        r == has_suffix(s@, p@),
{
    let n: usize = p.unicode_len();
    let m: usize = s.unicode_len();
    if n > m {
        false
    } else {
        same(s.substring_char(m - n, m), p)
    }
}

/// What comes before `p` in `s`, if `s` ends with `p`.
pub fn strip_suffix<'a>(s: &'a str, p: &str) -> (r: Option<&'a str>)
    ensures
        r is Some <==> has_suffix(s@, p@),
        r matches Some(rest) ==> rest@ == before_suffix(s@, p@),
{
    if ends_with(s, p) {
        Some(s.substring_char(0, s.unicode_len() - p.unicode_len()))
    } else {
        None
    }
}

/// The first position from `i` on at which `p` occurs in `s`.
pub open spec fn first_at<T>(s: Seq<T>, p: Seq<T>, i: int) -> Option<int>
    decreases s.len() - i,
{
    if i < 0 || i + p.len() > s.len() {
        None
    } else if occurs_at(s, p, i) {
        Some(i)
    } else {
        first_at(s, p, i + 1)
    }
}

/// A position at which `p` occurs, and before which it does not, is the first.
pub proof fn first_at_is_first<T>(s: Seq<T>, p: Seq<T>, i: int, n: int)
    requires
        0 <= i <= n,
        occurs_at(s, p, n),
        forall|j: int| i <= j < n ==> !#[trigger] occurs_at(s, p, j),
    ensures
        first_at(s, p, i) == Some(n),
    decreases n - i,
{
    if i < n {
        assert(!occurs_at(s, p, i));
        first_at_is_first(s, p, i + 1, n);
    }
}

/// Where `p` occurs nowhere, it has no first position.
pub proof fn first_at_nowhere<T>(s: Seq<T>, p: Seq<T>, i: int)
    requires
        0 <= i,
        forall|j: int| i <= j ==> !#[trigger] occurs_at(s, p, j),
    ensures
        first_at(s, p, i) is None,
    decreases s.len() - i,
{
    if i + p.len() <= s.len() {
        assert(!occurs_at(s, p, i));
        first_at_nowhere(s, p, i + 1);
    }
}

/// What stands in `s` before the first `p`.
pub fn up_to<'a>(s: &'a str, p: &str) -> (r: Option<&'a str>)
    ensures
        r is Some <==> first_at(s@, p@, 0) is Some,
        r matches Some(head) ==> head@ == s@.subrange(0, first_at(s@, p@, 0)->0),
        r is Some <==> has_infix(s@, p@),
{
    let n: usize = p.unicode_len();
    let m: usize = s.unicode_len();
    let mut i: usize = 0;
    while i <= m && n <= m - i
        invariant
            i <= m,
            n == p@.len(),
            m == s@.len(),
            forall|j: int| 0 <= j < i ==> !#[trigger] occurs_at(s@, p@, j),
        decreases m - i,
    {
        if same(s.substring_char(i, i + n), p) {
            assert(occurs_at(s@, p@, i as int));
            proof {
                first_at_is_first(s@, p@, 0, i as int);
            }
            return Some(s.substring_char(0, i));
        }
        assert(!occurs_at(s@, p@, i as int));
        if i == m {
            proof {
                first_at_nowhere(s@, p@, 0);
            }
            return None;
        }
        i = i + 1;
    }
    proof {
        first_at_nowhere(s@, p@, 0);
    }
    None
}

/// Whether `p` occurs in `s`.
pub fn contains(s: &str, p: &str) -> (r: bool)
    ensures
        r == has_infix(s@, p@),
{
    up_to(s, p).is_some()
}

/// The two sides of the first `c` in `s`.
pub fn split_once<'a>(s: &'a str, c: char) -> (r: Option<(&'a str, &'a str)>)
    ensures
        r is None <==> !s@.contains(c),
        r matches Some(sides) ==> s@ == sides.0@.push(c) + sides.1@ && !sides.0@.contains(c),
{
    let chars = chars_of(s);
    let mut i: usize = 0;
    while i < chars.len()
        invariant
            i <= chars@.len(),
            chars@ == s@,
            forall|j: int| 0 <= j < i ==> s@[j] != c,
        decreases chars@.len() - i,
    {
        if chars[i] == c {
            let left = s.substring_char(0, i);
            let right = s.substring_char(i + 1, chars.len());
            assert(s@ == left@.push(c) + right@);
            return Some((left, right));
        }
        i = i + 1;
    }
    None
}

/// What follows the last `c` in `s`; all of `s` if there is none.
pub open spec fn last_part(s: Seq<char>, c: char) -> Seq<char>
    decreases s.len(),
{
    if s.len() == 0 || s.last() == c {
        Seq::empty()
    } else {
        last_part(s.drop_last(), c).push(s.last())
    }
}

/// What comes before the first `c` in `s`; all of `s` if there is none.
pub open spec fn first_part(s: Seq<char>, c: char) -> Seq<char>
    decreases s.len(),
{
    if s.len() == 0 || s[0] == c {
        Seq::empty()
    } else {
        seq![s[0]] + first_part(s.drop_first(), c)
    }
}

/// A text ends with its last part.
pub proof fn last_part_is_suffix(s: Seq<char>, c: char)
    ensures
        has_suffix(s, last_part(s, c)),
    decreases s.len(),
{
    if s.len() > 0 && s.last() != c {
        last_part_is_suffix(s.drop_last(), c);
        let p = last_part(s.drop_last(), c);
        assert(s.subrange(s.len() - p.len() - 1, s.len() as int) =~= s.drop_last().subrange(
            s.len() - 1 - p.len(),
            s.len() - 1,
        ).push(s.last()));
    }
}

/// What follows the last `c` in `s`; all of `s` if there is none.
pub fn after_last<'a>(s: &'a str, c: char) -> (r: &'a str)
    ensures
        r@ == last_part(s@, c),
{
    let chars = chars_of(s);
    let mut i: usize = chars.len();
    assert(s@.subrange(0, s@.len() as int) == s@);
    assert(last_part(s@, c) + s@.subrange(s@.len() as int, s@.len() as int) == last_part(s@, c));
    while i > 0 && chars[i - 1] != c
        invariant
            i <= chars@.len(),
            chars@ == s@,
            last_part(s@, c) == last_part(s@.subrange(0, i as int), c) + s@.subrange(
                i as int,
                s@.len() as int,
            ),
        decreases i,
    {
        proof {
            let head = s@.subrange(0, i as int);
            assert(head.drop_last() == s@.subrange(0, i - 1));
            assert(last_part(head.drop_last(), c).push(head.last()) + s@.subrange(
                i as int,
                s@.len() as int,
            ) == last_part(head.drop_last(), c) + s@.subrange(i - 1, s@.len() as int));
        }
        i = i - 1;
    }
    assert(last_part(s@.subrange(0, i as int), c) == Seq::<char>::empty());
    let r = s.substring_char(i, chars.len());
    assert(r@ == last_part(s@, c));
    r
}

/// What comes before the first `c` in `s`; all of `s` if there is none.
pub fn before_first<'a>(s: &'a str, c: char) -> (r: &'a str)
    ensures
        r@ == first_part(s@, c),
{
    let chars = chars_of(s);
    let mut i: usize = 0;
    assert(s@.subrange(0, s@.len() as int) == s@);
    assert(s@.subrange(0, 0) + first_part(s@, c) == first_part(s@, c));
    while i < chars.len() && chars[i] != c
        invariant
            i <= chars@.len(),
            chars@ == s@,
            first_part(s@, c) == s@.subrange(0, i as int) + first_part(
                s@.subrange(i as int, s@.len() as int),
                c,
            ),
        decreases chars@.len() - i,
    {
        proof {
            let tail = s@.subrange(i as int, s@.len() as int);
            assert(tail.drop_first() == s@.subrange(i + 1, s@.len() as int));
            assert(s@.subrange(0, i as int) + (seq![tail[0]] + first_part(tail.drop_first(), c))
                == s@.subrange(0, i + 1) + first_part(tail.drop_first(), c));
        }
        i = i + 1;
    }
    let r = s.substring_char(0, i);
    assert(r@ == first_part(s@, c));
    r
}

/// A text without `c` is its own last part, also when `c` and more come before it.
pub proof fn last_part_of_joined(head: Seq<char>, c: char, s: Seq<char>)
    requires
        !s.contains(c),
    ensures
        last_part(head.push(c) + s, c) == s,
    decreases s.len(),
{
    let all = head.push(c) + s;
    if s.len() > 0 {
        assert(s[s.len() - 1] != c);
        let front = s.drop_last();
        assert(!front.contains(c)) by {
            if front.contains(c) {
                let i = choose|i: int| 0 <= i < front.len() && front[i] == c;
                assert(s[i] == c);
            }
        }
        last_part_of_joined(head, c, front);
        assert(all.drop_last() =~= head.push(c) + front);
        assert(front.push(s.last()) =~= s);
    } else {
        assert(all =~= head.push(c));
    }
}

/// `s` with its ASCII capitals made small.
pub fn to_lower(s: &str) -> (r: String)
    ensures
        r@ == lower(s@),
{
    let mut out = String::new();
    for c in it: s.chars()
        invariant
            it.seq() == s@,
            out@ == lower(s@.subrange(0, it.index() as int)),
    {
        if 'A' <= c && c <= 'Z' {
            out.push((c as u8 + 32) as char);
        } else {
            out.push(c);
        }
        assert(out@ == lower(s@.subrange(0, it.index() + 1)));
    }
    assert(s@.subrange(0, s@.len() as int) == s@);
    out
}

/// `s` with its ASCII small letters made capital.
pub fn to_upper(s: &str) -> (r: String)
    ensures
        r@ == upper(s@),
{
    let mut out = String::new();
    for c in it: s.chars()
        invariant
            it.seq() == s@,
            out@ == upper(s@.subrange(0, it.index() as int)),
    {
        if 'a' <= c && c <= 'z' {
            out.push((c as u8 - 32) as char);
        } else {
            out.push(c);
        }
        assert(out@ == upper(s@.subrange(0, it.index() + 1)));
    }
    assert(s@.subrange(0, s@.len() as int) == s@);
    out
}

/// `s` with every `from` replaced by `to`.
pub fn replace_char(s: &str, from: char, to: char) -> (r: String)
    ensures
        r@ == replaced(s@, from, to),
{
    let mut out = String::new();
    for c in it: s.chars()
        invariant
            it.seq() == s@,
            out@ == replaced(s@.subrange(0, it.index() as int), from, to),
    {
        if c == from {
            out.push(to);
        } else {
            out.push(c);
        }
        assert(out@ == replaced(s@.subrange(0, it.index() + 1), from, to));
    }
    assert(s@.subrange(0, s@.len() as int) == s@);
    out
}

/// `s` without white space at either end.
pub fn trim<'a>(s: &'a str) -> (r: &'a str)
    ensures
        r@ == trimmed(s@),
{
    let chars = chars_of(s);
    let mut i: usize = 0;
    assert(s@.subrange(0, s@.len() as int) == s@);
    while i < chars.len() && chars[i].is_whitespace()
        invariant
            i <= chars@.len(),
            chars@ == s@,
            without_leading_white(s@) == without_leading_white(
                s@.subrange(i as int, s@.len() as int),
            ),
        decreases chars@.len() - i,
    {
        proof {
            let rest = s@.subrange(i as int, s@.len() as int);
            assert(rest.drop_first() == s@.subrange(i + 1, s@.len() as int));
        }
        i = i + 1;
    }
    let ghost tail = s@.subrange(i as int, s@.len() as int);
    assert(without_leading_white(s@) == tail);
    let mut j: usize = chars.len();
    while j > i && chars[j - 1].is_whitespace()
        invariant
            i <= j <= chars@.len(),
            chars@ == s@,
            tail == s@.subrange(i as int, s@.len() as int),
            without_trailing_white(tail) == without_trailing_white(
                s@.subrange(i as int, j as int),
            ),
        decreases j,
    {
        proof {
            let rest = s@.subrange(i as int, j as int);
            assert(rest.drop_last() == s@.subrange(i as int, j - 1));
        }
        j = j - 1;
    }
    s.substring_char(i, j)
}

/// `s` without its trailing `c`s.
pub fn trim_end<'a>(s: &'a str, c: char) -> (r: &'a str)
    ensures
        r@ == without_trailing(s@, c),
{
    let chars = chars_of(s);
    let mut j: usize = chars.len();
    assert(s@.subrange(0, s@.len() as int) == s@);
    while j > 0 && chars[j - 1] == c
        invariant
            j <= chars@.len(),
            chars@ == s@,
            without_trailing(s@, c) == without_trailing(s@.subrange(0, j as int), c),
        decreases j,
    {
        proof {
            let rest = s@.subrange(0, j as int);
            assert(rest.drop_last() == s@.subrange(0, j - 1));
        }
        j = j - 1;
    }
    s.substring_char(0, j)
}

/// Whether `a` comes strictly before `b` in dictionary order by code point.
pub fn is_before(a: &str, b: &str) -> (r: bool)
    ensures
        r == before(a@, b@),
{
    let x = chars_of(a);
    let y = chars_of(b);
    let mut i: usize = 0;
    proof {
        assert(a@.subrange(0, a@.len() as int) == a@);
        assert(b@.subrange(0, b@.len() as int) == b@);
    }
    while i < x.len() && i < y.len() && x[i] == y[i]
        invariant
            i <= x@.len(),
            i <= y@.len(),
            x@ == a@,
            y@ == b@,
            before(a@, b@) == before(
                a@.subrange(i as int, a@.len() as int),
                b@.subrange(i as int, b@.len() as int),
            ),
        decreases x@.len() - i,
    {
        proof {
            let p = a@.subrange(i as int, a@.len() as int);
            let q = b@.subrange(i as int, b@.len() as int);
            assert(p.drop_first() == a@.subrange(i + 1, a@.len() as int));
            assert(q.drop_first() == b@.subrange(i + 1, b@.len() as int));
        }
        i = i + 1;
    }
    if i >= y.len() {
        false
    } else if i >= x.len() {
        true
    } else {
        x[i] < y[i]
    }
}

/// Dictionary order is irreflexive.
pub proof fn before_irreflexive(a: Seq<char>)
    ensures
        !before(a, a),
    decreases a.len(),
{
    if a.len() > 0 {
        before_irreflexive(a.drop_first());
    }
}

/// Dictionary order is transitive.
pub proof fn before_transitive(a: Seq<char>, b: Seq<char>, c: Seq<char>)
    requires
        before(a, b),
        before(b, c),
    ensures
        before(a, c),
    decreases a.len(),
{
    if a.len() > 0 && a[0] == b[0] && b[0] == c[0] {
        before_transitive(a.drop_first(), b.drop_first(), c.drop_first());
    }
}

/// Of two different strings one comes before the other.
pub proof fn before_total(a: Seq<char>, b: Seq<char>)
    requires
        a != b,
    ensures
        before(a, b) || before(b, a),
    decreases a.len(),
{
    if a.len() > 0 && b.len() > 0 && a[0] == b[0] {
        if a.drop_first() == b.drop_first() {
            assert(a == seq![a[0]] + a.drop_first());
            assert(b == seq![b[0]] + b.drop_first());
        }
        before_total(a.drop_first(), b.drop_first());
    } else if a.len() == 0 && b.len() == 0 {
        assert(a == b);
    }
}

/// Whether `c` is an ASCII decimal digit.
pub open spec fn is_digit(c: char) -> bool {
    '0' <= c <= '9'
}

/// The decimal digit for a number below ten.
pub open spec fn digit_char(n: nat) -> char
    recommends
        n < 10,
{
    (48 + n) as char
}

/// A number written in decimal, without leading zeros.
pub open spec fn decimal(n: nat) -> Seq<char>
    decreases n,
{
    if n < 10 {
        seq![digit_char(n)]
    } else {
        decimal(n / 10).push(digit_char(n % 10))
    }
}

/// A number written in decimal with leading zeros up to `width` characters.
pub open spec fn padded(n: nat, width: nat) -> Seq<char> {
    let d = decimal(n);
    if d.len() >= width {
        d
    } else {
        Seq::new((width - d.len()) as nat, |i: int| '0') + d
    }
}

/// The number that a sequence of decimal digits stands for.
pub open spec fn digits_value(s: Seq<char>) -> nat
    decreases s.len(),
{
    if s.len() == 0 {
        0
    } else {
        (digits_value(s.drop_last()) * 10 + (s.last() as u32 - 48)) as nat
    }
}

/// Whether every character of `s` is a decimal digit.
pub open spec fn all_digits(s: Seq<char>) -> bool {
    forall|i: int| 0 <= i < s.len() ==> is_digit(#[trigger] s[i])
}

/// The unsigned 64-bit number written in `s`: at least one decimal digit, after an
/// optional plus sign, that stand for a number in range.
pub open spec fn parsed_u64(s: Seq<char>) -> Option<u64> {
    let body = if s.len() > 0 && s[0] == '+' {
        s.drop_first()
    } else {
        s
    };
    if body.len() > 0 && all_digits(body) && digits_value(body) <= u64::MAX {
        Some(digits_value(body) as u64)
    } else {
        None
    }
}

/// A number written in decimal.
pub fn decimal_of(n: u64) -> (r: String)
    ensures
        r@ == decimal(n as nat),
    decreases n,
{
    if n < 10 {
        let mut out = String::new();
        out.push((48 + n as u8) as char);
        assert(out@ == decimal(n as nat));
        out
    } else {
        let mut out = decimal_of(n / 10);
        out.push((48 + (n % 10) as u8) as char);
        out
    }
}

/// A number written in decimal with leading zeros up to `width` characters.
pub fn padded_of(n: u64, width: usize) -> (r: String)
    ensures
        r@ == padded(n as nat, width as nat),
{
    let digits = decimal_of(n);
    let len: usize = digits.as_str().unicode_len();
    if len >= width {
        return digits;
    }
    let mut out = String::new();
    for i in 0..width - len
        invariant
            out@ == Seq::new(i as nat, |j: int| '0'),
    {
        out.push('0');
        assert(out@ == Seq::new((i + 1) as nat, |j: int| '0'));
    }
    out.append(digits.as_str());
    out
}

/// The first `k` digits never stand for more than all of them.
proof fn digits_value_monotone(s: Seq<char>, k: int)
    requires
        0 <= k <= s.len(),
        all_digits(s),
    ensures
        digits_value(s.subrange(0, k)) <= digits_value(s),
    decreases s.len(),
{
    if k == s.len() {
        assert(s.subrange(0, k) == s);
    } else {
        digits_value_monotone(s.drop_last(), k);
        assert(s.drop_last().subrange(0, k) == s.subrange(0, k));
        assert(is_digit(s[s.len() - 1]));
    }
}

/// The unsigned 64-bit number written in `s`, if there is one.
pub fn parse_u64(s: &str) -> (r: Option<u64>)
    ensures
        r == parsed_u64(s@),
{
    let chars = chars_of(s);
    let start: usize = if chars.len() > 0 && chars[0] == '+' {
        1
    } else {
        0
    };
    let ghost body = s@.subrange(start as int, s@.len() as int);
    assert(start == 1 ==> body == s@.drop_first());
    assert(start == 0 ==> body == s@);
    if start >= chars.len() {
        return None;
    }
    let mut value: u64 = 0;
    let mut i: usize = start;
    while i < chars.len()
        invariant
            start <= i <= chars@.len(),
            chars@ == s@,
            body == s@.subrange(start as int, s@.len() as int),
            all_digits(body.subrange(0, i - start)),
            value == digits_value(body.subrange(0, i - start)),
            parsed_u64(s@) == (if body.len() > 0 && all_digits(body) && digits_value(body)
                <= u64::MAX {
                Some(digits_value(body) as u64)
            } else {
                None::<u64>
            }),
        decreases chars@.len() - i,
    {
        let c = chars[i];
        assert(body[i - start] == c);
        if c < '0' || c > '9' {
            return None;
        }
        let d: u64 = (c as u8 - 48) as u64;
        proof {
            let longer = body.subrange(0, i + 1 - start);
            assert(longer.drop_last() == body.subrange(0, i - start));
            if all_digits(body) {
                digits_value_monotone(body, i + 1 - start);
            }
        }
        if value > (u64::MAX - d) / 10 {
            return None;
        }
        value = value * 10 + d;
        i = i + 1;
    }
    assert(body.subrange(0, body.len() as int) == body);
    Some(value)
}

/// Writing a number in decimal and reading the digits gives the number back, and every
/// character written is a digit.
pub proof fn decimal_reads_back(n: nat)
    ensures
        digits_value(decimal(n)) == n,
        all_digits(decimal(n)),
        decimal(n).len() > 0,
    decreases n,
{
    if n >= 10 {
        decimal_reads_back(n / 10);
        assert(decimal(n).drop_last() == decimal(n / 10));
    } else {
        assert(decimal(n).drop_last() == Seq::<char>::empty());
        assert(digits_value(Seq::<char>::empty()) == 0);
    }
}

/// Leading zeros do not change what digits stand for.
pub proof fn padded_reads_back(n: nat, width: nat)
    ensures
        digits_value(padded(n, width)) == n,
        all_digits(padded(n, width)),
        padded(n, width).len() > 0,
        padded(n, width).len() >= width,
{
    decimal_reads_back(n);
    let d = decimal(n);
    if d.len() < width {
        zeros_then((width - d.len()) as nat, d);
    }
}

proof fn zeros_then(k: nat, d: Seq<char>)
    ensures
        digits_value(Seq::new(k, |i: int| '0') + d) == digits_value(d),
    decreases d.len(), k,
{
    let zeros = Seq::new(k, |i: int| '0');
    let all = zeros + d;
    if d.len() > 0 {
        assert(all.drop_last() == zeros + d.drop_last());
        zeros_then(k, d.drop_last());
    } else if k > 0 {
        assert(all.drop_last() == Seq::new((k - 1) as nat, |i: int| '0') + d);
        zeros_then((k - 1) as nat, d);
    } else {
        assert(all == d);
    }
}

/// A number written in decimal, padded or not, is parsed back to itself.
pub proof fn padded_parses_back(n: u64, width: nat)
    ensures
        parsed_u64(padded(n as nat, width)) == Some(n),
{
    padded_reads_back(n as nat, width);
    let p = padded(n as nat, width);
    assert(is_digit(p[0]));
}

}
