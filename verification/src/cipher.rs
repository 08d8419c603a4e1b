//! Encryption of stored records.
//!
//! A sealed record starts with a mark, followed by the id of the key, a nonce and the
//! ciphertext. The data key is derived from the master key, the id and the nonce.

use vstd::prelude::*;
use vstd::string::*;

use crate::codec;
use crate::codec::{pack_blob, unpack_blob};
use crate::ids;
use crate::ids::draw;
use crate::keys;
use crate::keys::{copy_bytes, KeyProvider};
use crate::model::{DwbaseError, ErrorView, Result};
use crate::text;

verus! {

/// The mark of a sealed record: `ENC1`.
pub open spec fn mark() -> Seq<u8> {
    seq![69u8, 78u8, 67u8, 49u8]
}

/// Bytes in a key.
pub const KEY_LENGTH: usize = 32;

/// The SHA-256 digest of some bytes.
pub uninterp spec fn sha256(b: Seq<u8>) -> Seq<u8>;

/// `sha2::Sha256::digest` is a function of the bytes and gives 32 of them.
#[verifier::external_body]
fn digest(b: &[u8]) -> (r: Vec<u8>)
    ensures
        r@ == sha256(b@) && r@.len() == 32,
{
    <sha2::Sha256 as sha2::Digest>::digest(b).to_vec()
}

/// The ciphertext, with its tag, of some bytes under AES-256-GCM, or why there is none.
pub uninterp spec fn aes_sealed(key: Seq<u8>, nonce: Seq<u8>, plain: Seq<u8>) -> std::result::Result<
    Seq<u8>,
    Seq<char>,
>;

/// The bytes that a ciphertext under AES-256-GCM stands for, or why it stands for none.
pub uninterp spec fn aes_opened(key: Seq<u8>, nonce: Seq<u8>, cipher: Seq<u8>) -> std::result::Result<
    Seq<u8>,
    Seq<char>,
>;

/// `aes_gcm::Aes256Gcm` encryption (`Aead::encrypt`, without associated data) is a function
/// of the key of 32 bytes, the nonce and the bytes. The ciphertext is longer by the tag of
/// 16 bytes, and `Aead::decrypt` with the same key and nonce gives the bytes back.
#[verifier::external_body]
fn aes_encrypt(key: &[u8], nonce: &[u8; 12], plain: &[u8]) -> (r: std::result::Result<
    Vec<u8>,
    String,
>)
    requires
        key@.len() == 32,
    ensures
        r is Ok <==> aes_sealed(key@, nonce@, plain@) is Ok,
        r matches Ok(c) ==> aes_sealed(key@, nonce@, plain@)->Ok_0 == c@,
        r matches Ok(c) ==> c@.len() == plain@.len() + 16 && aes_opened(key@, nonce@, c@) is Ok
            && aes_opened(key@, nonce@, c@)->Ok_0 == plain@,
        r matches Err(e) ==> aes_sealed(key@, nonce@, plain@)->Err_0 == e@,
{
    let cipher = <aes_gcm::Aes256Gcm as aes_gcm::KeyInit>::new(aes_gcm::Key::<aes_gcm::Aes256Gcm>::from_slice(key));
    aes_gcm::aead::Aead::encrypt(&cipher, aes_gcm::Nonce::from_slice(nonce), plain).map_err(
        |e| e.to_string(),
    )
}

/// `aes_gcm::Aes256Gcm` decryption (`Aead::decrypt`, without associated data) is a function
/// of the key of 32 bytes, the nonce and the ciphertext.
#[verifier::external_body]
fn aes_decrypt(key: &[u8], nonce: &[u8; 12], cipher: &[u8]) -> (r: std::result::Result<
    Vec<u8>,
    String,
>)
    requires
        key@.len() == 32,
    ensures
        r is Ok <==> aes_opened(key@, nonce@, cipher@) is Ok,
        r matches Ok(p) ==> aes_opened(key@, nonce@, cipher@)->Ok_0 == p@,
        r matches Err(e) ==> aes_opened(key@, nonce@, cipher@)->Err_0 == e@,
{
    let aes = <aes_gcm::Aes256Gcm as aes_gcm::KeyInit>::new(aes_gcm::Key::<aes_gcm::Aes256Gcm>::from_slice(key));
    aes_gcm::aead::Aead::decrypt(&aes, aes_gcm::Nonce::from_slice(nonce), cipher).map_err(
        |e| e.to_string(),
    )
}

/// The error for a key that is not of the right length.
pub open spec fn key_length_error() -> ErrorView {
    ErrorView::InvalidInput("encryption key must be 32 bytes (AES-256-GCM)"@)
}

/// The master key that a provider gives for an id, or why there is none.
pub open spec fn master_key<K: KeyProvider>(provider: K, key_id: Seq<char>) -> std::result::Result<
    Seq<u8>,
    ErrorView,
> {
    match provider.key_of(key_id) {
        Err(e) => Err(e),
        Ok(key) => if key.len() == 32 {
            Ok(key)
        } else {
            Err(key_length_error())
        },
    }
}

/// The master key that a provider gives for an id.
fn get_master_key<K: KeyProvider>(provider: &K, key_id: &str) -> (r: Result<Vec<u8>>)
    ensures
        keys::bytes_outcome(r) == master_key(*provider, key_id@),
        r matches Ok(key) ==> key@.len() == 32,
{
    match provider.key_bytes(key_id) {
        Err(e) => Err(e),
        Ok(key) => if key.len() == KEY_LENGTH {
            Ok(key)
        } else {
            Err(
                DwbaseError::InvalidInput(
                    "encryption key must be 32 bytes (AES-256-GCM)".to_owned(),
                ),
            )
        },
    }
}

/// The data key for a record: the digest of the master key, the key id and the nonce.
pub open spec fn data_key(master: Seq<u8>, key_id: Seq<char>, nonce: Seq<u8>) -> Seq<u8> {
    sha256(master + vstd::utf8::encode_utf8(key_id) + nonce)
}

/// The data key for a record.
fn derive_data_key(master: &Vec<u8>, key_id: &str, nonce: &[u8; 12]) -> (r: Vec<u8>)
    ensures
        r@ == data_key(master@, key_id@, nonce@),
        r@.len() == 32,
{
    let mut all = copy_bytes(master.as_slice());
    all.extend_from_slice(key_id.as_bytes());
    all.extend_from_slice(nonce.as_slice());
    assert(all@ =~= master@ + vstd::utf8::encode_utf8(key_id@) + nonce@);
    digest(all.as_slice())
}

/// What some bytes are sealed as with a master key and a nonce, or why they are not.
pub open spec fn sealed(
    master: Seq<u8>,
    key_id: Seq<char>,
    nonce: Seq<u8>,
    plain: Seq<u8>,
) -> std::result::Result<Seq<u8>, ErrorView> {
    match aes_sealed(data_key(master, key_id, nonce), nonce, plain) {
        Err(e) => Err(ErrorView::Storage(e)),
        Ok(cipher) => match codec::blob_packed(key_id, nonce, cipher) {
            Err(e) => Err(ErrorView::Storage("serialization error: "@ + e)),
            Ok(blob) => Ok(mark() + blob),
        },
    }
}

/// The bytes that a sealed record, without its mark, stands for, or why it stands for none.
pub open spec fn opened<K: KeyProvider>(provider: K, b: Seq<u8>) -> std::result::Result<
    Seq<u8>,
    ErrorView,
> {
    match codec::blob_unpacked(b) {
        Err(e) => Err(ErrorView::Storage("deserialization error: "@ + e)),
        Ok((key_id, nonce, cipher)) => match master_key(provider, key_id) {
            Err(e) => Err(e),
            Ok(master) => match aes_opened(data_key(master, key_id, nonce), nonce, cipher) {
                Err(e) => Err(ErrorView::Storage(e)),
                Ok(plain) => Ok(plain),
            },
        },
    }
}

/// Seals some bytes with a master key and a nonce.
pub fn seal(master: &Vec<u8>, key_id: &str, nonce: &[u8; 12], plain: &[u8]) -> (r: Result<Vec<u8>>)
    requires
        master@.len() == 32,
    ensures
        keys::bytes_outcome(r) == sealed(master@, key_id@, nonce@, plain@),
        r matches Ok(b) ==> text::has_prefix(b@, mark()),
        r matches Ok(b) ==> codec::text_fits(key_id@) && plain@.len() + 16 <= u32::MAX ==>
            opens_to(master@, key_id@, b@, plain@),
{
    let key = derive_data_key(master, key_id, nonce);
    let cipher = match aes_encrypt(key.as_slice(), nonce, plain) {
        Ok(cipher) => cipher,
        Err(e) => {
            return Err(DwbaseError::Storage(e));
        },
    };
    match pack_blob(key_id, nonce, &cipher) {
        Ok(blob) => {
            let mut out: Vec<u8> = Vec::new();
            out.push(69);
            out.push(78);
            out.push(67);
            out.push(49);
            assert(out@ =~= mark());
            out.extend_from_slice(blob.as_slice());
            proof {
                assert(out@ =~= mark() + blob@);
                assert(out@.subrange(0, 4) =~= mark());
                assert(text::after_prefix(out@, mark()) =~= blob@);
            }
            Ok(out)
        },
        Err(e) => Err(DwbaseError::Storage(text::joined("serialization error: ", e.as_str()))),
    }
}

/// Whether a sealed record opens to some bytes with any provider that has the master key
/// under the id.
pub open spec fn opens_to(
    master: Seq<u8>,
    key_id: Seq<char>,
    b: Seq<u8>,
    plain: Seq<u8>,
) -> bool {
    let blob = codec::blob_unpacked(text::after_prefix(b, mark()));
    &&& blob is Ok
    &&& blob->Ok_0.0 == key_id
    &&& aes_opened(data_key(master, key_id, blob->Ok_0.1), blob->Ok_0.1, blob->Ok_0.2) is Ok
    &&& aes_opened(data_key(master, key_id, blob->Ok_0.1), blob->Ok_0.1, blob->Ok_0.2)->Ok_0
        == plain
}

/// A provider with the master key opens what was sealed with it.
pub proof fn key_opens_sealed<K: KeyProvider>(
    provider: K,
    master: Seq<u8>,
    key_id: Seq<char>,
    b: Seq<u8>,
    plain: Seq<u8>,
)
    requires
        opens_to(master, key_id, b, plain),
        master_key(provider, key_id) == Ok::<Seq<u8>, ErrorView>(master),
    ensures
        opened(provider, text::after_prefix(b, mark())) == Ok::<Seq<u8>, ErrorView>(plain),
{
}

/// Seals some bytes with the key of an id and a nonce taken at random.
pub fn encrypt_bytes<K: KeyProvider>(provider: &K, key_id: &Option<String>, plain: &[u8]) -> (r:
    Result<Vec<u8>>)
    ensures
        key_id is None ==> keys::bytes_outcome(r) == Err::<Seq<u8>, ErrorView>(
            ErrorView::InvalidInput("key_id missing"@),
        ),
        key_id matches Some(id) ==> match master_key(*provider, id@) {
            Err(e) => keys::bytes_outcome(r) == Err::<Seq<u8>, ErrorView>(e),
            Ok(master) => exists|nonce: Seq<u8>|
                nonce.len() == 12 && ids::is_drawn::<12>(nonce) && keys::bytes_outcome(r) == #[trigger] sealed(
                    master,
                    id@,
                    nonce,
                    plain@,
                ),
        },
        r is Ok ==> key_id is Some && master_key(*provider, key_id->0@) is Ok,
        r matches Ok(b) ==> text::has_prefix(b@, mark()) && (codec::text_fits(key_id->0@)
            && plain@.len() + 16 <= u32::MAX ==> opened(
            *provider,
            text::after_prefix(b@, mark()),
        ) == Ok::<Seq<u8>, ErrorView>(plain@)),
{
    let id = match key_id {
        Some(id) => id,
        None => {
            return Err(DwbaseError::InvalidInput("key_id missing".to_owned()));
        },
    };
    let master = match get_master_key(provider, id.as_str()) {
        Ok(master) => master,
        Err(e) => {
            return Err(e);
        },
    };
    let nonce = draw::<12>();
    assert(nonce@.len() == 12);
    seal(&master, id.as_str(), &nonce, plain)
}

/// Opens a sealed record without its mark.
pub fn decrypt_bytes<K: KeyProvider>(provider: &K, b: &[u8]) -> (r: Result<Vec<u8>>)
    ensures
        keys::bytes_outcome(r) == opened(*provider, b@),
{
    let (key_id, nonce, cipher) = match unpack_blob(b) {
        Ok(blob) => blob,
        Err(e) => {
            return Err(DwbaseError::Storage(text::joined("deserialization error: ", e.as_str())));
        },
    };
    let master = match get_master_key(provider, key_id.as_str()) {
        Ok(master) => master,
        Err(e) => {
            return Err(e);
        },
    };
    let key = derive_data_key(&master, key_id.as_str(), &nonce);
    match aes_decrypt(key.as_slice(), &nonce, cipher.as_slice()) {
        Ok(plain) => Ok(plain),
        Err(e) => Err(DwbaseError::Storage(e)),
    }
}

}
