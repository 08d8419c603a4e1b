//! Which key a record is sealed with, and how an atom is written.

use vstd::prelude::*;
use vstd::string::*;

use crate::atom::AtomView;
use crate::cipher;
use crate::codec;
use crate::keys;
use crate::keys::KeyProvider;
use crate::model::ErrorView;
use crate::sled_store::SledStorage;
use crate::text;

verus! {

/// A key counts only if it has 32 bytes; what the provider refuses is refused.
pub proof fn master_key_has_32_bytes<K: KeyProvider>(provider: K, id: Seq<char>)
    ensures
        provider.key_of(id) matches Ok(key) ==> key.len() == 32 ==> cipher::master_key(provider, id)
            == Ok::<Seq<u8>, ErrorView>(key),
        provider.key_of(id) matches Ok(key) ==> key.len() != 32 ==> cipher::master_key(provider, id)
            is Err,
        provider.key_of(id) matches Err(e) ==> cipher::master_key(provider, id) == Err::<
            Seq<u8>,
            ErrorView,
        >(e),
{
}

/// The two digits of a byte stand for its upper and its lower half, in either case.
pub proof fn digits_stand_for_halves(s: Seq<char>, i: int, hi: u8, lo: u8)
    requires
        keys::is_hex(s),
        0 <= i,
        2 * i + 1 < s.len(),
        hi < 16 && lo < 16,
        is_digit_of(s[2 * i], hi),
        is_digit_of(s[2 * i + 1], lo),
    ensures
        keys::hex_bytes(s).len() * 2 == s.len(),
        keys::hex_bytes(s)[i] == 16 * hi + lo,
{
}

/// Whether a character is the hexadecimal digit of a number, in either case.
pub open spec fn is_digit_of(c: char, n: u8) -> bool {
    ||| n < 10 && c as int == 48 + n
    ||| 10 <= n < 16 && (c as int == 87 + n || c as int == 55 + n)
}

/// A text is hexadecimal exactly if it has an even number of characters, each a digit or one of
/// the first six letters, small or capital.
pub proof fn hexadecimal_text_is_made_of_digits(s: Seq<char>)
    ensures
        keys::is_hex(s) <==> s.len() % 2 == 0 && forall|i: int|
            0 <= i < s.len() ==> {
                ||| '0' <= #[trigger] s[i] <= '9'
                ||| 'a' <= s[i] <= 'f'
                ||| 'A' <= s[i] <= 'F'
            },
{
}

/// A key in a variable is hexadecimal, white space around it aside; a variable that is not set,
/// or holds something else, holds no key.
pub proof fn variable_holds_a_hexadecimal_key(id: Seq<char>, value: Seq<char>)
    ensures
        keys::key_in_variable(id, None) == Err::<Seq<u8>, ErrorView>(
            ErrorView::InvalidInput(
                "env var "@ + keys::variable_of(id) + " missing for key id "@ + id,
            ),
        ),
        keys::is_hex(text::trimmed(value)) ==> keys::key_in_variable(id, Some(value)) == Ok::<
            Seq<u8>,
            ErrorView,
        >(keys::hex_bytes(text::trimmed(value))),
        !keys::is_hex(text::trimmed(value)) ==> keys::key_in_variable(id, Some(value)) is Err,
{
}

/// The variable of a key is named by its id in capitals, with `_` for `-`.
pub proof fn variable_is_named_by_the_id(id: Seq<char>, i: int)
    requires
        0 <= i < id.len(),
    ensures
        ({
            let name = keys::variable_of(id);
            let c = name["DWBASE_KEY_"@.len() + i];
            &&& name.len() == 11 + id.len()
            &&& name.subrange(0, 11) == "DWBASE_KEY_"@
            &&& 'a' <= id[i] <= 'z' ==> c as int == id[i] as int - 32
            &&& id[i] == '-' ==> c == '_'
            &&& 'A' <= id[i] <= 'Z' || '0' <= id[i] <= '9' || id[i] == '_' ==> c == id[i]
        }),
{
    reveal_strlit("DWBASE_KEY_");
    assert(keys::variable_of(id).subrange(0, 11) =~= "DWBASE_KEY_"@);
}

/// A storage that does not encrypt writes the atom as it is packed. One that does writes no
/// atom without a key: it fails without a key id, or where there is no master key of that id,
/// and otherwise what it writes starts with the mark of a sealed record.
pub proof fn written_atom_is_sealed_if_asked<K: KeyProvider>(
    s: SledStorage<K>,
    atom: AtomView,
    r: std::result::Result<Seq<u8>, ErrorView>,
)
    requires
        s.may_encode(atom, r),
        codec::atom_packed(atom) is Ok,
    ensures
        !s.encrypts() ==> r == Ok::<Seq<u8>, ErrorView>(codec::atom_packed(atom)->Ok_0),
        s.encrypts() && s.sealing_key() is None ==> r == Err::<Seq<u8>, ErrorView>(
            ErrorView::InvalidInput("key_id missing"@),
        ),
        s.encrypts() && s.sealing_key() is Some && cipher::master_key(
            s.provider(),
            s.sealing_key()->0,
        ) is Err ==> r is Err,
        s.encrypts() && r is Ok ==> {
            let b = r->Ok_0;
            &&& b.len() >= 4
            &&& b[0] == 69 && b[1] == 78 && b[2] == 67 && b[3] == 49
        },
{
}

/// What is sealed is the plain bytes under a key of their own, made from the master key, the
/// id and a nonce of twelve bytes, and packed with the id and the nonce behind the mark.
pub proof fn sealed_record_holds_key_id_and_nonce<K: KeyProvider>(
    s: SledStorage<K>,
    atom: AtomView,
    b: Seq<u8>,
)
    requires
        s.may_encode(atom, Ok(b)),
        s.encrypts(),
    ensures
        s.sealing_key() is Some,
        cipher::master_key(s.provider(), s.sealing_key()->0) is Ok,
        codec::atom_packed(atom) is Ok,
        exists|nonce: Seq<u8>|
            #![trigger seals(
                cipher::master_key(s.provider(), s.sealing_key()->0)->Ok_0,
                s.sealing_key()->0,
                nonce,
                codec::atom_packed(atom)->Ok_0,
                b,
            )]
            nonce.len() == 12 && seals(
                cipher::master_key(s.provider(), s.sealing_key()->0)->Ok_0,
                s.sealing_key()->0,
                nonce,
                codec::atom_packed(atom)->Ok_0,
                b,
            ),
{
    let id = s.sealing_key()->0;
    let master = cipher::master_key(s.provider(), id)->Ok_0;
    let plain = codec::atom_packed(atom)->Ok_0;
    let nonce = choose|nonce: Seq<u8>|
        nonce.len() == 12 && crate::ids::is_drawn::<12>(nonce) && Ok::<Seq<u8>, ErrorView>(b)
            == #[trigger] cipher::sealed(master, id, nonce, plain);
    assert(seals(master, id, nonce, plain, b));
}

/// Whether bytes are the mark, and then the packing of a key id, a nonce, and the plain bytes
/// as they are encrypted under the hash of the master key, the id and the nonce.
pub open spec fn seals(
    master: Seq<u8>,
    id: Seq<char>,
    nonce: Seq<u8>,
    plain: Seq<u8>,
    b: Seq<u8>,
) -> bool {
    let key = cipher::sha256(master + vstd::utf8::encode_utf8(id) + nonce);
    let cipher = cipher::aes_sealed(key, nonce, plain);
    &&& cipher is Ok
    &&& codec::blob_packed(id, nonce, cipher->Ok_0) is Ok
    &&& b == seq![69u8, 78u8, 67u8, 49u8] + codec::blob_packed(id, nonce, cipher->Ok_0)->Ok_0
}

/// A record that starts with the mark is opened with the key that it names, and one that does
/// not is read as it is; in either case the atom is the one that the plain bytes encode.
pub proof fn record_is_opened_by_its_mark<K: KeyProvider>(
    provider: K,
    rest: Seq<u8>,
    b: Seq<u8>,
)
    ensures
        cipher::opened(provider, rest) matches Ok(plain) ==> crate::sled_store::decoded(
            provider,
            seq![69u8, 78u8, 67u8, 49u8] + rest,
        ) == crate::sled_store::unpacked(plain),
        cipher::opened(provider, rest) is Err ==> crate::sled_store::decoded(
            provider,
            seq![69u8, 78u8, 67u8, 49u8] + rest,
        ) is Err,
        (b.len() < 4 || b.subrange(0, 4) != seq![69u8, 78u8, 67u8, 49u8])
            ==> crate::sled_store::decoded(provider, b) == crate::sled_store::unpacked(b),
{
    let mark = seq![69u8, 78u8, 67u8, 49u8];
    assert(cipher::mark() =~= mark);
    let all = mark + rest;
    assert(all.subrange(0, 4) =~= mark);
    assert(text::after_prefix(all, cipher::mark()) =~= rest);
}

}
