//! Where encryption keys come from.

use vstd::prelude::*;
use vstd::string::*;

use crate::ids;
use crate::lists;
use crate::model::{DwbaseError, ErrorView, Result};
use crate::table::Table;
use crate::text;

verus! {

broadcast use crate::lists::group_views;

/// Model of the outcome of an operation that gives bytes.
pub open spec fn bytes_outcome(r: Result<Vec<u8>>) -> std::result::Result<Seq<u8>, ErrorView> {
    match r {
        Ok(v) => Ok(v@),
        Err(e) => Err(e@),
    }
}

/// Gives the bytes of a key by its id, the same each time. A provider that does not spell out
/// which bytes leaves them open.
pub trait KeyProvider {
    /// The bytes of a key, or why there are none.
    closed spec fn key_of(&self, key_id: Seq<char>) -> std::result::Result<Seq<u8>, ErrorView> {
        arbitrary()
    }

    fn key_bytes(&self, key_id: &str) -> (r: Result<Vec<u8>>)
        ensures
            bytes_outcome(r) == self.key_of(key_id@),
    ;
}

/// A copy of some bytes.
pub fn copy_bytes(b: &[u8]) -> (r: Vec<u8>)
    ensures
        r@ == b@,
{
    let mut out: Vec<u8> = Vec::new();
    for i in 0..b.len()
        invariant
            out@ == b@.subrange(0, i as int),
    {
        out.push(b[i]);
    }
    assert(out@ == b@);
    out
}

/// Keys kept in memory.
#[derive(Debug)]
pub struct DummyKeyProvider {
    keys: Table<Vec<u8>>,
}

impl View for DummyKeyProvider {
    type V = Map<Seq<char>, Seq<u8>>;

    closed spec fn view(&self) -> Map<Seq<char>, Seq<u8>> {
        self.keys.map().map_values(|v: Vec<u8>| v@)
    }
}

impl Default for DummyKeyProvider {
    fn default() -> (r: Self)
        ensures
            r@ == Map::<Seq<char>, Seq<u8>>::empty(),
    {
        let r = DummyKeyProvider { keys: Table::new() };
        assert(r@ =~= Map::<Seq<char>, Seq<u8>>::empty());
        r
    }
}

impl Clone for DummyKeyProvider {
    fn clone(&self) -> (r: Self)
        ensures
            r@ == self@,
    {
        let mut out = DummyKeyProvider::default();
        let n: usize = self.keys.len();
        let ghost ids = self.keys.spec_keys();
        for i in 0..n
            invariant
                n == ids.len(),
                ids == self.keys.spec_keys(),
                ids.no_duplicates(),
                forall|j: int| 0 <= j < n ==> self@.contains_key(#[trigger] ids[j]),
                forall|k: Seq<char>| #[trigger]
                    out@.contains_key(k) <==> ids.subrange(0, i as int).contains(k),
                forall|k: Seq<char>| #[trigger] out@.contains_key(k) ==> out@[k] == self@[k],
        {
            let ghost before = out@;
            let id = self.keys.key_at(i);
            let bytes = copy_bytes(self.keys.value_at(i).as_slice());
            out.keys.insert(id, bytes);
            proof {
                assert(out@ =~= before.insert(ids[i as int], self@[ids[i as int]]));
                let upto = ids.subrange(0, i + 1);
                assert(upto =~= ids.subrange(0, i as int).push(ids[i as int]));
                assert forall|k: Seq<char>| #[trigger] out@.contains_key(k) <==> upto.contains(
                    k,
                ) by {
                    if upto.contains(k) && k != ids[i as int] {
                        let j = choose|j: int| 0 <= j < upto.len() && upto[j] == k;
                        assert(ids.subrange(0, i as int)[j] == k);
                    }
                    if ids.subrange(0, i as int).contains(k) {
                        let j = choose|j: int|
                            0 <= j < i && ids.subrange(0, i as int)[j] == k;
                        assert(upto[j] == k);
                    }
                    assert(upto[i as int] == ids[i as int]);
                }
            }
        }
        proof {
            assert(ids.subrange(0, n as int) =~= ids);
            assert(out@ =~= self@);
        }
        out
    }
}

impl DummyKeyProvider {
    /// Adds a key.
    pub fn with_key(self, key_id: &str, key_bytes: [u8; 32]) -> (r: Self)
        ensures
            r@ == self@.insert(key_id@, key_bytes@),
    {
        let mut next = self;
        let ghost before = next@;
        next.keys.insert(key_id, copy_bytes(key_bytes.as_slice()));
        assert(next@ =~= before.insert(key_id@, key_bytes@));
        next
    }
}

impl KeyProvider for DummyKeyProvider {
    open spec fn key_of(&self, key_id: Seq<char>) -> std::result::Result<Seq<u8>, ErrorView> {
        if self@.contains_key(key_id) {
            Ok(self@[key_id])
        } else {
            Err(ErrorView::InvalidInput("missing key for id "@ + key_id))
        }
    }

    fn key_bytes(&self, key_id: &str) -> (r: Result<Vec<u8>>) {
        match self.keys.get(key_id) {
            Some(bytes) => Ok(copy_bytes(bytes.as_slice())),
            None => Err(DwbaseError::InvalidInput(text::joined("missing key for id ", key_id))),
        }
    }
}

/// What a hexadecimal digit, of either case, stands for.
pub open spec fn hex_value(c: char) -> Option<u8> {
    if '0' <= c <= '9' {
        Some((c as int - '0' as int) as u8)
    } else if 'a' <= c <= 'f' {
        Some((c as int - 'a' as int + 10) as u8)
    } else if 'A' <= c <= 'F' {
        Some((c as int - 'A' as int + 10) as u8)
    } else {
        None
    }
}

/// Whether a text is made of pairs of hexadecimal digits.
pub open spec fn is_hex(s: Seq<char>) -> bool {
    s.len() % 2 == 0 && forall|i: int| 0 <= i < s.len() ==> hex_value(#[trigger] s[i]) is Some
}

/// The bytes that pairs of hexadecimal digits stand for.
pub open spec fn hex_bytes(s: Seq<char>) -> Seq<u8> {
    Seq::new(
        s.len() / 2,
        |i: int| (16 * hex_value(s[2 * i])->0 + hex_value(s[2 * i + 1])->0) as u8,
    )
}

/// What is said of a text that is not made of pairs of hexadecimal digits.
pub uninterp spec fn hex_fault(s: Seq<char>) -> Seq<char>;

/// `hex::decode` gives the bytes that pairs of hexadecimal digits stand for. What is said of
/// another text is a function of it; an odd number of bytes is named as such.
#[verifier::external_body]
fn decode_hex(s: &str) -> (r: std::result::Result<Vec<u8>, String>)
    ensures
        r is Ok <==> is_hex(s@),
        r matches Ok(v) ==> v@ == hex_bytes(s@),
        r matches Err(e) ==> e@ == hex_fault(s@),
        r matches Err(e) ==> vstd::utf8::encode_utf8(s@).len() % 2 == 1 ==> e@
            == "Odd number of digits"@,
{
    hex::decode(s).map_err(|e| e.to_string())
}

/// Bytes written in hexadecimal are read back.
pub proof fn hex_is_read_back(b: Seq<u8>)
    ensures
        is_hex(ids::hex_of(b)),
        hex_bytes(ids::hex_of(b)) == b,
{
    let s = ids::hex_of(b);
    assert forall|n: u8| n < 16 implies hex_value(#[trigger] ids::hex_digit(n)) == Some(n) by {
        assert(ids::hex_digit(n) as u32 == if n < 10 { n + 48 } else { n + 87 });
    }
    assert forall|i: int| 0 <= i < s.len() implies hex_value(#[trigger] s[i]) is Some by {
        assert(b[i / 2] / 16 < 16 && b[i / 2] % 16 < 16);
    }
    assert forall|i: int| 0 <= i < b.len() implies hex_bytes(s)[i] == b[i] by {
        let (p, q) = (2 * i, 2 * i + 1);
        assert(p / 2 == i && p % 2 == 0 && q / 2 == i && q % 2 == 1);
        assert(s[p] == ids::hex_digit(b[i] / 16));
        assert(s[q] == ids::hex_digit(b[i] % 16));
    }
    assert(hex_bytes(s) =~= b);
}

/// Keys from the environment: the key with an id is the value of the variable
/// `DWBASE_KEY_<ID>`, in hexadecimal. The variables are those of the moment of creation.
#[derive(Debug)]
pub struct EnvKeyProvider {
    variables: Table<String>,
}

/// The variable that holds the key with an id: the id in capitals, dashes made underscores.
pub open spec fn variable_of(key_id: Seq<char>) -> Seq<char> {
    "DWBASE_KEY_"@ + text::replaced(text::upper(key_id), '-', '_')
}

/// The variable that holds the key with an id.
pub fn variable_name(key_id: &str) -> (r: String)
    ensures
        r@ == variable_of(key_id@),
{
    text::joined(
        "DWBASE_KEY_",
        text::replace_char(text::to_upper(key_id).as_str(), '-', '_').as_str(),
    )
}

/// The key that the value of a variable holds, or what is wrong with it.
pub open spec fn key_in_variable(
    key_id: Seq<char>,
    value: Option<Seq<char>>,
) -> std::result::Result<Seq<u8>, ErrorView> {
    match value {
        None => Err(
            ErrorView::InvalidInput(
                "env var "@ + variable_of(key_id) + " missing for key id "@ + key_id,
            ),
        ),
        Some(raw) => if is_hex(text::trimmed(raw)) {
            Ok(hex_bytes(text::trimmed(raw)))
        } else {
            Err(ErrorView::InvalidInput(hex_fault(text::trimmed(raw))))
        },
    }
}

/// The key that the value of a variable holds.
pub fn key_from_variable(key_id: &str, value: Option<&str>) -> (r: Result<Vec<u8>>)
    ensures
        value is None ==> bytes_outcome(r) == key_in_variable(key_id@, None),
        value matches Some(raw) ==> bytes_outcome(r) == key_in_variable(key_id@, Some(raw@)),
{
    match value {
        None => {
            let mut message = text::joined3(
                "env var ",
                variable_name(key_id).as_str(),
                " missing for key id ",
            );
            message.append(key_id);
            Err(DwbaseError::InvalidInput(message))
        },
        Some(raw) => match decode_hex(text::trim(raw)) {
            Ok(bytes) => Ok(bytes),
            Err(e) => Err(DwbaseError::InvalidInput(e)),
        },
    }
}

impl View for EnvKeyProvider {
    type V = Map<Seq<char>, Seq<char>>;

    closed spec fn view(&self) -> Map<Seq<char>, Seq<char>> {
        self.variables.map().map_values(|v: String| v@)
    }
}

impl EnvKeyProvider {
    /// No variables.
    pub fn new() -> (r: Self)
        ensures
            r@ == Map::<Seq<char>, Seq<char>>::empty(),
    {
        let r = EnvKeyProvider { variables: Table::new() };
        assert(r@ =~= Map::<Seq<char>, Seq<char>>::empty());
        r
    }

    /// Adds a variable.
    pub fn with_variable(self, name: &str, value: &str) -> (r: Self)
        ensures
            r@ == self@.insert(name@, value@),
    {
        let mut next = self;
        let ghost before = next@;
        next.variables.insert(name, value.to_owned());
        assert(next@ =~= before.insert(name@, value@));
        next
    }
}

impl KeyProvider for EnvKeyProvider {
    open spec fn key_of(&self, key_id: Seq<char>) -> std::result::Result<Seq<u8>, ErrorView> {
        key_in_variable(key_id, self@.get(variable_of(key_id)))
    }

    fn key_bytes(&self, key_id: &str) -> (r: Result<Vec<u8>>) {
        let name = variable_name(key_id);
        match self.variables.get(name.as_str()) {
            Some(value) => {
                assert(self@.get(variable_of(key_id@)) == Some(value@));
                key_from_variable(key_id, Some(value.as_str()))
            },
            None => {
                assert(self@.get(variable_of(key_id@)) is None);
                key_from_variable(key_id, None)
            },
        }
    }
}

}
