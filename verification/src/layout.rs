//! Keys of the storage.
//!
//! - `world/{world}/atoms/{atom_id}` holds the record of an atom;
//! - `world/{world}/log/{seq}` holds a frame with the atom id (the sequence is zero-padded
//!   decimal for ordering);
//! - `idx/atom/{atom_id}` holds the world of an atom and its place in the log.

use vstd::prelude::*;
use vstd::string::*;
use vstd::utf8::*;

use crate::atom::WorldKey;
use crate::bytes;
use crate::bytes::text_of;
use crate::text;

verus! {

/// Digits of a sequence number in a key.
pub const LOG_SEQ_WIDTH: usize = 20;

/// What comes before the atom id in the keys of the atoms of a world.
pub open spec fn atoms_path(world: Seq<char>) -> Seq<char> {
    "world/"@ + world + "/atoms/"@
}

/// What comes before the sequence number in the keys of the log of a world.
pub open spec fn log_path(world: Seq<char>) -> Seq<char> {
    "world/"@ + world + "/log/"@
}

/// The key of an atom.
pub open spec fn atom_key(world: Seq<char>, id: Seq<char>) -> Seq<u8> {
    encode_utf8(atoms_path(world) + id)
}

/// What the keys of the atoms of a world start with.
pub open spec fn atoms_prefix(world: Seq<char>) -> Seq<u8> {
    encode_utf8(atoms_path(world))
}

/// What the keys of the log of a world start with.
pub open spec fn log_prefix(world: Seq<char>) -> Seq<u8> {
    encode_utf8(log_path(world))
}

/// The key of a place in the log of a world.
pub open spec fn log_key(world: Seq<char>, seq: u64) -> Seq<u8> {
    encode_utf8(log_path(world) + text::padded(seq as nat, LOG_SEQ_WIDTH as nat))
}

/// The key of the index entry of an atom.
pub open spec fn index_key(id: Seq<char>) -> Seq<u8> {
    encode_utf8("idx/atom/"@ + id)
}

/// What the keys of index entries start with.
pub open spec fn index_prefix() -> Seq<u8> {
    encode_utf8("idx/atom/"@)
}

/// What the keys of all worlds start with.
pub open spec fn worlds_prefix() -> Seq<u8> {
    encode_utf8("world/"@)
}

/// The key of an atom.
pub fn atom_key_of(world: &str, id: &str) -> (r: Vec<u8>)
    ensures
        r@ == atom_key(world@, id@),
{
    let mut path = text::joined3("world/", world, "/atoms/");
    path.append(id);
    path.as_str().as_bytes_vec()
}

/// What the keys of the atoms of a world start with.
pub fn atoms_prefix_of(world: &str) -> (r: Vec<u8>)
    ensures
        r@ == atoms_prefix(world@),
{
    text::joined3("world/", world, "/atoms/").as_str().as_bytes_vec()
}

/// What the keys of the log of a world start with.
pub fn log_prefix_of(world: &str) -> (r: Vec<u8>)
    ensures
        r@ == log_prefix(world@),
{
    text::joined3("world/", world, "/log/").as_str().as_bytes_vec()
}

/// The key of a place in the log of a world.
pub fn log_key_of(world: &str, seq: u64) -> (r: Vec<u8>)
    ensures
        r@ == log_key(world@, seq),
{
    let mut path = text::joined3("world/", world, "/log/");
    path.append(text::padded_of(seq, LOG_SEQ_WIDTH).as_str());
    path.as_str().as_bytes_vec()
}

/// The key of the index entry of an atom.
pub fn index_key_of(id: &str) -> (r: Vec<u8>)
    ensures
        r@ == index_key(id@),
{
    text::joined("idx/atom/", id).as_str().as_bytes_vec()
}

/// The sequence number that a key ends with, behind its last slash.
pub open spec fn seq_in_key(key: Seq<u8>) -> Option<u64> {
    if valid_utf8(key) {
        text::parsed_u64(text::last_part(decode_utf8(key), '/'))
    } else {
        None
    }
}

/// The sequence number that a key ends with, behind its last slash.
pub fn seq_from_log_key(key: &[u8]) -> (r: Option<u64>)
    ensures
        r == seq_in_key(key@),
{
    match text_of(key) {
        Some(s) => text::parse_u64(text::after_last(s, '/')),
        None => None,
    }
}

/// The world that a key names: what stands between `world/` and the first `/atoms/`, or, in
/// the key of a place in a log, the last `/log/`.
pub open spec fn world_in_key(key: Seq<u8>) -> Option<Seq<char>> {
    if valid_utf8(key) && text::has_prefix(decode_utf8(key), "world/"@) {
        world_in_path(text::after_prefix(decode_utf8(key), "world/"@))
    } else {
        None
    }
}

/// The world that a path behind `world/` names.
pub open spec fn world_in_path(path: Seq<char>) -> Option<Seq<char>> {
    match text::first_at(path, "/atoms/"@, 0) {
        Some(n) => Some(path.subrange(0, n)),
        None => {
            let head = text::before_suffix(path, text::last_part(path, '/'));
            if text::has_suffix(head, "/log/"@) {
                Some(text::before_suffix(head, "/log/"@))
            } else {
                None
            }
        },
    }
}

/// The world that a key names.
pub fn world_from_key(key: &[u8]) -> (r: Option<WorldKey>)
    ensures
        r is Some <==> world_in_key(key@) is Some,
        r matches Some(w) ==> world_in_key(key@) == Some(w@),
{
    let path = match text_of(key) {
        Some(s) => match text::strip_prefix(s, "world/") {
            Some(path) => path,
            None => {
                return None;
            },
        },
        None => {
            return None;
        },
    };
    let last = text::after_last(path, '/');
    proof {
        text::last_part_is_suffix(path@, '/');
    }
    match text::up_to(path, "/atoms/") {
        Some(world) => Some(WorldKey::new(world)),
        None => match text::strip_suffix(path, last) {
            Some(head) => match text::strip_suffix(head, "/log/") {
                Some(world) => Some(WorldKey::new(world)),
                None => None,
            },
            None => None,
        },
    }
}

/// The sequence number of a log key is the one it was made with.
pub proof fn log_key_holds_seq(world: Seq<char>, seq: u64)
    ensures
        seq_in_key(log_key(world, seq)) == Some(seq),
        text::has_prefix(log_key(world, seq), log_prefix(world)),
{
    let digits = text::padded(seq as nat, LOG_SEQ_WIDTH as nat);
    let path = log_path(world) + digits;
    encode_utf8_valid_utf8(path);
    encode_utf8_decode_utf8(path);
    text::padded_reads_back(seq as nat, LOG_SEQ_WIDTH as nat);
    text::padded_parses_back(seq, LOG_SEQ_WIDTH as nat);
    assert(!digits.contains('/')) by {
        if digits.contains('/') {
            let i = choose|i: int| 0 <= i < digits.len() && digits[i] == '/';
            assert(text::is_digit(digits[i]));
        }
    }
    reveal_strlit("/log/");
    let head = "world/"@ + world + "/log"@;
    reveal_strlit("/log");
    assert("/log/"@ =~= "/log"@.push('/'));
    assert(path =~= head.push('/') + digits);
    text::last_part_of_joined(head, '/', digits);
    bytes::encoding_of_joined(log_path(world), digits);
    let p = log_prefix(world);
    assert((p + encode_utf8(digits)).subrange(0, p.len() as int) =~= p);
}

/// Numbers of up to twenty digits are written with twenty digits.
proof fn padded_width(n: nat)
    requires
        n <= u64::MAX,
    ensures
        text::padded(n, LOG_SEQ_WIDTH as nat).len() == LOG_SEQ_WIDTH,
{
    max_has_twenty_digits();
    decimal_length(n, 20);
}

/// A number below a power of ten has no more digits than the power has zeros.
proof fn decimal_length(n: nat, k: nat)
    requires
        k > 0,
        n < bytes::ten_to(k),
    ensures
        text::decimal(n).len() <= k,
    decreases k,
{
    if n >= 10 {
        assert(bytes::ten_to(k) == bytes::ten_to((k - 1) as nat) * 10);
        if k == 1 {
            assert(bytes::ten_to(0) == 1);
        }
        decimal_length(n / 10, (k - 1) as nat);
    }
}

/// The keys of a log are in the order of their sequence numbers.
pub proof fn log_keys_are_in_order(world: Seq<char>, a: u64, b: u64)
    requires
        a < b,
    ensures
        bytes::bytes_before(log_key(world, a), log_key(world, b)),
{
    let x = text::padded(a as nat, LOG_SEQ_WIDTH as nat);
    let y = text::padded(b as nat, LOG_SEQ_WIDTH as nat);
    padded_width(a as nat);
    padded_width(b as nat);
    text::padded_reads_back(a as nat, LOG_SEQ_WIDTH as nat);
    text::padded_reads_back(b as nat, LOG_SEQ_WIDTH as nat);
    bytes::digits_are_in_order(x, y);
    bytes::encoding_of_joined(log_path(world), x);
    bytes::encoding_of_joined(log_path(world), y);
    bytes::common_prefix_keeps_order(log_prefix(world), encode_utf8(x), encode_utf8(y));
}

proof fn max_has_twenty_digits()
    ensures
        (u64::MAX as nat) < bytes::ten_to(20),
{
    reveal_with_fuel(bytes::ten_to, 21);
}

/// Atoms with different ids have different keys in a world.
pub proof fn atom_keys_differ(world: Seq<char>, a: Seq<char>, b: Seq<char>)
    requires
        a != b,
    ensures
        atom_key(world, a) != atom_key(world, b),
{
    if atom_key(world, a) == atom_key(world, b) {
        bytes::encoding_is_injective(atoms_path(world) + a, atoms_path(world) + b);
        let p = atoms_path(world);
        assert((p + a).subrange(p.len() as int, (p + a).len() as int) =~= a);
        assert((p + b).subrange(p.len() as int, (p + b).len() as int) =~= b);
    }
}

/// Every key of a world names it, unless the name holds the part `atoms` between slashes.
pub proof fn keys_name_their_world(world: Seq<char>, id: Seq<char>, seq: u64)
    requires
        !text::has_infix(world.push('/'), "/atoms/"@),
    ensures
        world_in_key(atom_key(world, id)) == Some(world),
        world_in_key(log_key(world, seq)) == Some(world),
{
    reveal_strlit("/atoms/");
    reveal_strlit("/log/");
    let p = "world/"@;
    let q = "/atoms/"@;
    let n = world.len() as int;
    let digits = text::padded(seq as nat, LOG_SEQ_WIDTH as nat);
    let a = atoms_path(world) + id;
    let b = log_path(world) + digits;
    encode_utf8_valid_utf8(a);
    encode_utf8_decode_utf8(a);
    encode_utf8_valid_utf8(b);
    encode_utf8_decode_utf8(b);
    assert(a.subrange(0, p.len() as int) =~= p);
    assert(b.subrange(0, p.len() as int) =~= p);
    let a_path = world + q + id;
    let b_path = world + "/log/"@ + digits;
    assert(text::after_prefix(a, p) =~= a_path);
    assert(text::after_prefix(b, p) =~= b_path);
    assert(text::occurs_at(a_path, q, n));
    assert forall|j: int| 0 <= j < n implies !#[trigger] text::occurs_at(a_path, q, j) by {
        no_part_within(world, a_path, j);
    }
    text::first_at_is_first(a_path, q, 0, n);
    assert(a_path.subrange(0, n) =~= world);
    padded_reads_as_digits(seq);
    assert forall|j: int| 0 <= j implies !#[trigger] text::occurs_at(b_path, q, j) by {
        if text::occurs_at(b_path, q, j) {
            assert(b_path[j] == b_path.subrange(j, j + 7)[0]);
            assert(b_path[j + 1] == b_path.subrange(j, j + 7)[1]);
            if j < n {
                no_part_within(world, b_path, j);
            } else if j >= n + 5 {
                assert(b_path[j] == digits[j - n - 5]);
                assert(text::is_digit(digits[j - n - 5]));
            } else if j == n + 4 {
                assert(b_path[j + 1] == digits[0]);
                assert(text::is_digit(digits[0]));
            }
        }
    }
    text::first_at_nowhere(b_path, q, 0);
    let head = world + "/log"@;
    reveal_strlit("/log");
    assert(b_path =~= head.push('/') + digits);
    assert(!digits.contains('/')) by {
        if digits.contains('/') {
            let i = choose|i: int| 0 <= i < digits.len() && digits[i] == '/';
            assert(text::is_digit(digits[i]));
        }
    }
    text::last_part_of_joined(head, '/', digits);
    let rest = text::before_suffix(b_path, digits);
    assert(rest =~= world + "/log/"@);
    assert(rest.subrange(n, rest.len() as int) =~= "/log/"@);
    assert(text::before_suffix(rest, "/log/"@) =~= world);
}

/// The digits of a sequence number in a key are digits.
proof fn padded_reads_as_digits(seq: u64)
    ensures
        ({
            let digits = text::padded(seq as nat, LOG_SEQ_WIDTH as nat);
            &&& digits.len() == LOG_SEQ_WIDTH
            &&& forall|i: int| 0 <= i < digits.len() ==> text::is_digit(#[trigger] digits[i])
        }),
{
    padded_width(seq as nat);
    text::padded_reads_back(seq as nat, LOG_SEQ_WIDTH as nat);
}

/// In a path that starts with the name of a world and a slash, the part `atoms` does not
/// occur between slashes before that slash, unless the name holds it.
proof fn no_part_within(world: Seq<char>, path: Seq<char>, j: int)
    requires
        !text::has_infix(world.push('/'), "/atoms/"@),
        text::has_prefix(path, world.push('/')),
        0 <= j < world.len(),
    ensures
        !text::occurs_at(path, "/atoms/"@, j),
{
    let q = "/atoms/"@;
    let n = world.len() as int;
    let name = world.push('/');
    reveal_strlit("/atoms/");
    if text::occurs_at(path, q, j) {
        assert(path.subrange(0, n + 1) =~= name);
        assert(path[n] == path.subrange(0, n + 1)[n]);
        if j + 7 <= n + 1 {
            assert(path.subrange(0, n + 1).subrange(j, j + 7) =~= path.subrange(j, j + 7));
            assert(text::occurs_at(name, q, j));
        } else {
            assert(path.subrange(j, j + 7)[n - j] == path[n]);
            assert(q[n - j] != '/');
        }
    }
}

/// The keys of atoms and of index entries are not in the log of the world of the atom.
pub proof fn atom_and_index_keys_are_not_in_log(world: Seq<char>, id: Seq<char>)
    ensures
        !text::has_prefix(atom_key(world, id), log_prefix(world)),
        !text::has_prefix(index_key(id), log_prefix(world)),
{
    reveal_strlit("/atoms/");
    reveal_strlit("/log/");
    reveal_strlit("world/");
    reveal_strlit("idx/atom/");
    let p = "world/"@ + world;
    let x = encode_utf8(p);
    let tail = "/atoms/"@ + id;
    assert(atoms_path(world) + id =~= p + tail);
    bytes::encoding_of_joined(p, tail);
    bytes::encoding_of_joined(p, "/log/"@);
    ascii_head(tail, 1);
    ascii_head("/log/"@, 1);
    if text::has_prefix(atom_key(world, id), log_prefix(world)) {
        let k = atom_key(world, id);
        let q = log_prefix(world);
        let n = x.len() as int;
        assert(k[n + 1] == k.subrange(0, q.len() as int)[n + 1]);
        assert(k[n + 1] == encode_utf8(tail)[1]);
        assert(q[n + 1] == encode_utf8("/log/"@)[1]);
        assert(tail[1] == 'a');
        assert("/log/"@[1] == 'l');
    }
    let i = "idx/atom/"@ + id;
    let l = log_path(world);
    ascii_head(i, 0);
    ascii_head(l, 0);
    if text::has_prefix(index_key(id), log_prefix(world)) {
        let k = index_key(id);
        let q = log_prefix(world);
        assert(k[0] == k.subrange(0, q.len() as int)[0]);
        assert(i[0] == 'i');
        assert(l[0] == 'w');
    }
}

/// Up to and with the ASCII character at `n`, behind ASCII characters alone, a text is
/// encoded one byte for each.
proof fn ascii_head(s: Seq<char>, n: int)
    requires
        0 <= n < s.len(),
        forall|i: int| 0 <= i <= n ==> '\0' <= (#[trigger] s[i]) <= '\u{7f}',
    ensures
        encode_utf8(s).len() > n,
        encode_utf8(s)[n] == s[n] as u8,
{
    let head = s.subrange(0, n + 1);
    let tail = s.subrange(n + 1, s.len() as int);
    assert(s =~= head + tail);
    bytes::encoding_of_joined(head, tail);
    assert forall|i: int| 0 <= i < head.len() implies '\0' <= (#[trigger] head[i]) <= '\u{7f}' by {
        assert(s[i] == head[i]);
    }
    is_ascii_chars_encode_utf8(head);
}

}
