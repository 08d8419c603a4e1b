//! Records as they are written to storage, and their encoding as MessagePack.

use vstd::prelude::*;
use vstd::string::*;

use crate::atom;
use crate::atom::{
    Atom, AtomId, AtomKind, AtomView, Importance, Link, LinkKind, LinkView, Timestamp, WorkerKey,
    WorldKey,
};
use crate::lists;
use crate::record;
use crate::record::{pack_record, unpack_record};
use crate::single;
use crate::single::Single;
use crate::text;

verus! {

broadcast use {
    crate::lists::group_views,
    crate::single::with_bits_has_bits,
    crate::single::bits_determine,
};

/// An atom as it is written: kinds by name, single-precision numbers by bit pattern.
pub struct AtomRecord {
    pub id: String,
    pub world: String,
    pub worker: String,
    pub kind: String,
    pub timestamp: String,
    pub importance: u32,
    pub payload_json: String,
    pub vector: Option<Vec<u32>>,
    pub flags: Vec<String>,
    pub labels: Vec<String>,
    pub links: Vec<(String, String)>,
}

/// Model of a record.
#[verifier::ext_equal]
pub ghost struct RecordView {
    pub id: Seq<char>,
    pub world: Seq<char>,
    pub worker: Seq<char>,
    pub kind: Seq<char>,
    pub timestamp: Seq<char>,
    pub importance: u32,
    pub payload_json: Seq<char>,
    pub vector: Option<Seq<u32>>,
    pub flags: Seq<Seq<char>>,
    pub labels: Seq<Seq<char>>,
    pub links: Seq<(Seq<char>, Seq<char>)>,
}

impl View for AtomRecord {
    type V = RecordView;

    open spec fn view(&self) -> RecordView {
        RecordView {
            id: self.id@,
            world: self.world@,
            worker: self.worker@,
            kind: self.kind@,
            timestamp: self.timestamp@,
            importance: self.importance,
            payload_json: self.payload_json@,
            vector: lists::opt_view(self.vector),
            flags: lists::views(self.flags@),
            labels: lists::views(self.labels@),
            links: lists::views(self.links@),
        }
    }
}

/// Whether the length of a text in UTF-8 fits in 32 bits.
pub open spec fn text_fits(s: Seq<char>) -> bool {
    vstd::utf8::encode_utf8(s).len() <= u32::MAX
}

/// Whether the length of a list, and that of each text in it, fits in 32 bits.
pub open spec fn texts_fit(s: Seq<Seq<char>>) -> bool {
    s.len() <= u32::MAX && forall|i: int| 0 <= i < s.len() ==> text_fits(#[trigger] s[i])
}

impl RecordView {
    /// Whether all the lengths in the record fit in 32 bits.
    pub open spec fn fits(self) -> bool {
        &&& text_fits(self.id)
        &&& text_fits(self.world)
        &&& text_fits(self.worker)
        &&& text_fits(self.kind)
        &&& text_fits(self.timestamp)
        &&& text_fits(self.payload_json)
        &&& self.vector matches Some(v) ==> v.len() <= u32::MAX
        &&& texts_fit(self.flags)
        &&& texts_fit(self.labels)
        &&& self.links.len() <= u32::MAX
        &&& forall|i: int|
            0 <= i < self.links.len() ==> text_fits((#[trigger] self.links[i]).0) && text_fits(
                self.links[i].1,
            )
    }
}

/// The name and the bit patterns of links as they are written.
pub open spec fn links_record(links: Seq<LinkView>) -> Seq<(Seq<char>, Seq<char>)> {
    Seq::new(links.len(), |i: int| (links[i].target, links[i].kind.spec_name()))
}

/// The bit patterns of a vector.
pub open spec fn bits_of(v: Seq<Single>) -> Seq<u32> {
    Seq::new(v.len(), |i: int| v[i].spec_bits())
}

/// The record of an atom.
pub open spec fn record_of(a: AtomView) -> RecordView {
    RecordView {
        id: a.id,
        world: a.world,
        worker: a.worker,
        kind: a.kind.spec_name(),
        timestamp: a.timestamp,
        importance: a.importance.value().spec_bits(),
        payload_json: a.payload_json,
        vector: match a.vector {
            Some(v) => Some(bits_of(v)),
            None => None,
        },
        flags: a.flags,
        labels: a.labels,
        links: links_record(a.links),
    }
}

/// Whether a name is that of an atom kind.
pub open spec fn is_kind_name(name: Seq<char>) -> bool {
    exists|k: AtomKind| #[trigger] k.spec_name() == name
}

/// Whether a name is that of a link kind.
pub open spec fn is_link_kind_name(name: Seq<char>) -> bool {
    exists|k: LinkKind| #[trigger] k.spec_name() == name
}

/// What is said of a name that is not that of an atom kind.
pub open spec fn unknown_kind(name: Seq<char>) -> Seq<char> {
    "unknown variant `"@ + name
        + "`, expected one of `observation`, `reflection`, `plan`, `action`, `message`"@
}

/// What is said of a name that is not that of a link kind.
pub open spec fn unknown_link_kind(name: Seq<char>) -> Seq<char> {
    "unknown variant `"@ + name
        + "`, expected one of `supersedes`, `references`, `confirms`, `contradicts`"@
}

/// The first link kind of the list that is not one.
pub open spec fn first_unknown_link(links: Seq<(Seq<char>, Seq<char>)>) -> Option<Seq<char>>
    decreases links.len(),
{
    if links.len() == 0 {
        None
    } else if !is_link_kind_name(links[0].1) {
        Some(links[0].1)
    } else {
        first_unknown_link(links.drop_first())
    }
}

/// Whether `a` is the atom that a record stands for.
pub open spec fn is_atom_of(r: RecordView, a: AtomView) -> bool {
    record_of(a) == r
}

/// What is wrong with a record that stands for no atom: the kind of the atom, or that of a
/// link, is not known.
pub open spec fn record_fault(r: RecordView) -> Option<Seq<char>> {
    if !is_kind_name(r.kind) {
        Some(unknown_kind(r.kind))
    } else {
        match first_unknown_link(r.links) {
            Some(name) => Some(unknown_link_kind(name)),
            None => None,
        }
    }
}

/// Every atom is the one that its record stands for, and no other atom has that record.
pub proof fn record_determines_atom(a: AtomView, b: AtomView)
    requires
        record_of(a) == record_of(b),
    ensures
        a == b,
{
    let r = record_of(a);
    atom::kinds_have_distinct_names(a.kind, b.kind);
    atom::value_determines(a.importance, b.importance);
    assert(a.vector == b.vector) by {
        match (a.vector, b.vector) {
            (Some(v), Some(w)) => {
                assert(bits_of(v) == bits_of(w));
                assert(bits_of(v).len() == v.len());
                assert forall|i: int| 0 <= i < v.len() implies v[i] == w[i] by {
                    assert(bits_of(v)[i] == bits_of(w)[i]);
                    single::bits_determine(v[i], w[i]);
                }
                assert(v =~= w);
            },
            _ => {},
        }
    }
    assert(a.links =~= b.links) by {
        assert(links_record(a.links).len() == links_record(b.links).len());
        assert forall|i: int| 0 <= i < a.links.len() implies a.links[i] == b.links[i] by {
            assert(links_record(a.links)[i] == links_record(b.links)[i]);
            atom::link_kinds_have_distinct_names(a.links[i].kind, b.links[i].kind);
        }
    }
    assert(a =~= b);
}

/// The record of an atom has no fault.
pub proof fn record_of_atom_is_sound(a: AtomView)
    ensures
        record_fault(record_of(a)) is None,
{
    assert(is_kind_name(a.kind.spec_name()));
    links_are_known(links_record(a.links), a.links);
}

proof fn links_are_known(names: Seq<(Seq<char>, Seq<char>)>, links: Seq<LinkView>)
    requires
        names == links_record(links),
    ensures
        first_unknown_link(names) is None,
    decreases names.len(),
{
    if names.len() > 0 {
        assert(is_link_kind_name(links[0].kind.spec_name()));
        assert(names.drop_first() =~= links_record(links.drop_first()));
        links_are_known(names.drop_first(), links.drop_first());
    }
}

/// The record of an atom.
pub fn to_record(a: &Atom) -> (r: AtomRecord)
    ensures
        r@ == record_of(a@),
{
    let vector: Option<Vec<u32>> = match a.vector() {
        Some(v) => {
            let mut bits: Vec<u32> = Vec::new();
            for i in 0..v.len()
                invariant
                    bits@ == bits_of(v@).subrange(0, i as int),
            {
                bits.push(v[i].to_bits());
                assert(bits@ =~= bits_of(v@).subrange(0, i + 1));
            }
            assert(bits@ =~= bits_of(v@));
            Some(bits)
        },
        None => None,
    };
    let links = a.links();
    let ghost models = lists::views(links@);
    let mut written: Vec<(String, String)> = Vec::new();
    for i in 0..links.len()
        invariant
            models == lists::views(links@),
            lists::views(written@) == links_record(models).subrange(0, i as int),
    {
        let entry = (links[i].target.text().to_owned(), links[i].kind.name().to_owned());
        written.push(entry);
        assert(entry@ == links_record(models)[i as int]);
        assert(lists::views(written@) =~= links_record(models).subrange(0, i + 1));
    }
    assert(lists::views(written@) =~= links_record(models));
    AtomRecord {
        id: a.id().text().to_owned(),
        world: a.world().text().to_owned(),
        worker: a.worker().text().to_owned(),
        kind: a.kind().name().to_owned(),
        timestamp: a.timestamp().text().to_owned(),
        importance: a.importance().get().to_bits(),
        payload_json: a.payload_json().to_owned(),
        vector,
        flags: lists::duplicate_all(a.flags()),
        labels: lists::duplicate_all(a.labels()),
        links: written,
    }
}

/// The links that are written in a record, or the first kind that is not known.
fn read_links(written: &Vec<(String, String)>) -> (r: Result<Vec<Link>, String>)
    ensures
        r matches Ok(links) ==> links_record(lists::views(links@)) == lists::views(written@)
            && first_unknown_link(lists::views(written@)) is None,
        r matches Err(name) ==> first_unknown_link(lists::views(written@)) == Some(name@),
{
    let ghost models = lists::views(written@);
    let mut links: Vec<Link> = Vec::new();
    assert(models.subrange(0, models.len() as int) == models);
    assert(links_record(lists::views(links@)) =~= models.subrange(0, 0));
    for i in 0..written.len()
        invariant
            models == lists::views(written@),
            links_record(lists::views(links@)) == models.subrange(0, i as int),
            first_unknown_link(models) == first_unknown_link(
                models.subrange(i as int, models.len() as int),
            ),
    {
        let entry = &written[i];
        proof {
            let rest = models.subrange(i as int, models.len() as int);
            assert(rest[0] == models[i as int]);
            assert(models[i as int] == entry@);
            assert(rest.drop_first() == models.subrange(i + 1, models.len() as int));
        }
        match LinkKind::named(entry.1.as_str()) {
            Some(kind) => {
                assert(is_link_kind_name(entry.1@));
                let ghost had = lists::views(links@);
                let link = Link::new(AtomId(entry.0.clone()), kind);
                let ghost model = link@;
                links.push(link);
                proof {
                    assert(lists::views(links@) == had.push(model));
                    let now = links_record(had.push(model));
                    assert(had.len() == i) by {
                        assert(links_record(had).len() == had.len());
                    }
                    assert forall|j: int| 0 <= j < now.len() implies now[j] == models.subrange(
                        0,
                        i + 1,
                    )[j] by {
                        if j < i {
                            assert(links_record(had)[j] == models.subrange(0, i as int)[j]);
                        }
                    }
                    assert(now =~= models.subrange(0, i + 1));
                }
            },
            None => {
                return Err(entry.1.clone());
            },
        }
    }
    assert(models.subrange(models.len() as int, models.len() as int) =~= Seq::empty());
    Ok(links)
}

/// The atom that a record stands for, or what is wrong with the record.
pub fn from_record(r: AtomRecord) -> (a: Result<Atom, String>)
    ensures
        a matches Ok(atom) ==> is_atom_of(r@, atom@) && record_fault(r@) is None,
        a matches Err(e) ==> record_fault(r@) == Some(e@),
{
    let kind = match AtomKind::named(r.kind.as_str()) {
        Some(kind) => kind,
        None => {
            return Err(
                text::joined3(
                    "unknown variant `",
                    r.kind.as_str(),
                    "`, expected one of `observation`, `reflection`, `plan`, `action`, `message`",
                ),
            );
        },
    };
    assert(is_kind_name(r@.kind));
    let links = match read_links(&r.links) {
        Ok(links) => links,
        Err(name) => {
            return Err(
                text::joined3(
                    "unknown variant `",
                    name.as_str(),
                    "`, expected one of `supersedes`, `references`, `confirms`, `contradicts`",
                ),
            );
        },
    };
    let vector: Option<Vec<Single>> = match &r.vector {
        Some(bits) => {
            let mut v: Vec<Single> = Vec::new();
            for i in 0..bits.len()
                invariant
                    v@.len() == i,
                    bits_of(v@) == bits@.subrange(0, i as int),
            {
                v.push(Single::from_bits(bits[i]));
                assert(bits_of(v@) =~= bits@.subrange(0, i + 1));
            }
            assert(bits_of(v@) =~= bits@);
            Some(v)
        },
        None => None,
    };
    let ghost record = r@;
    let atom = Atom::new(
        AtomId(r.id),
        WorldKey(r.world),
        WorkerKey(r.worker),
        kind,
        Timestamp(r.timestamp),
        Importance::recorded(Single::from_bits(r.importance)),
        r.payload_json,
        vector,
        r.flags,
        r.labels,
        links,
    );
    assert(record_of(atom@) =~= record);
    Ok(atom)
}

/// What an atom is encoded as, or why it is not.
pub open spec fn atom_packed(a: AtomView) -> Result<Seq<u8>, Seq<char>> {
    record::record_packed(record_of(a))
}

/// Whether some bytes encode an atom.
pub open spec fn packs(b: Seq<u8>, a: AtomView) -> bool {
    record::record_unpacked(b) is Ok && is_atom_of(record::record_unpacked(b)->Ok_0, a)
}

/// What is wrong with bytes that encode no atom.
pub open spec fn packing_fault(b: Seq<u8>) -> Option<Seq<char>> {
    match record::record_unpacked(b) {
        Ok(r) => record_fault(r),
        Err(e) => Some(e),
    }
}

/// Encodes an atom.
pub fn pack_atom(a: &Atom) -> (b: Result<Vec<u8>, String>)
    ensures
        b is Ok <==> atom_packed(a@) is Ok,
        b matches Ok(v) ==> atom_packed(a@)->Ok_0 == v@ && v@.len() > 0 && v@[0] == 0x9b,
        b matches Ok(v) ==> record_of(a@).fits() ==> packs(v@, a@),
        b matches Err(e) ==> atom_packed(a@)->Err_0 == e@,
{
    pack_record(&to_record(a))
}

/// Decodes an atom.
pub fn unpack_atom(b: &[u8]) -> (a: Result<Atom, String>)
    ensures
        a matches Ok(atom) ==> packs(b@, atom@) && packing_fault(b@) is None,
        a matches Err(e) ==> packing_fault(b@) == Some(e@),
{
    match unpack_record(b) {
        Ok(r) => from_record(r),
        Err(e) => Err(e),
    }
}

/// No bytes encode two atoms.
pub proof fn packing_determines_atom(b: Seq<u8>, x: AtomView, y: AtomView)
    requires
        packs(b, x),
        packs(b, y),
    ensures
        x == y,
{
    record_determines_atom(x, y);
}

/// What a log frame is encoded as, or why it is not.
pub uninterp spec fn frame_packed(id: Seq<char>, checksum: u32, len: u64) -> Result<
    Seq<u8>,
    Seq<char>,
>;

/// The log frame that some bytes encode, or why they encode none.
pub uninterp spec fn frame_unpacked(b: Seq<u8>) -> Result<(Seq<char>, u32, u64), Seq<char>>;

/// `rmp_serde::to_vec` of an atom id, a checksum and a length is a function of them; where
/// the length of the id fits in 32 bits, `rmp_serde::from_slice` reads them back.
#[verifier::external_body]
pub(crate) fn pack_frame(id: &str, checksum: u32, len: u64) -> (b: Result<Vec<u8>, String>)
    ensures
        b is Ok <==> frame_packed(id@, checksum, len) is Ok,
        b matches Ok(v) ==> frame_packed(id@, checksum, len)->Ok_0 == v@,
        b matches Ok(v) ==> text_fits(id@) ==> frame_unpacked(v@) is Ok && frame_unpacked(
            v@,
        )->Ok_0 == (id@, checksum, len),
        b matches Err(e) ==> frame_packed(id@, checksum, len)->Err_0 == e@,
{
    rmp_serde::to_vec(&(id, checksum, len)).map_err(|e| e.to_string())
}

/// `rmp_serde::from_slice` into an atom id, a checksum and a length is a function of the
/// bytes. The three stand in a list, as they are written; a map of named values is not read.
#[verifier::external_body]
pub(crate) fn unpack_frame(b: &[u8]) -> (r: Result<(String, u32, u64), String>)
    ensures
        r is Ok <==> frame_unpacked(b@) is Ok,
        r matches Ok(f) ==> frame_unpacked(b@)->Ok_0 == (f.0@, f.1, f.2),
        r matches Err(e) ==> frame_unpacked(b@)->Err_0 == e@,
{
    rmp_serde::from_slice(b).map_err(|e| e.to_string())
}

/// What an index entry is encoded as, or why it is not.
pub uninterp spec fn entry_packed(world: Seq<char>, seq: u64) -> Result<Seq<u8>, Seq<char>>;

/// The index entry that some bytes encode, or why they encode none.
pub uninterp spec fn entry_unpacked(b: Seq<u8>) -> Result<(Seq<char>, u64), Seq<char>>;

/// `rmp_serde::to_vec` of a world and a position is a function of them; where the length of
/// the world's name fits in 32 bits, `rmp_serde::from_slice` reads them back.
#[verifier::external_body]
pub(crate) fn pack_entry(world: &str, seq: u64) -> (b: Result<Vec<u8>, String>)
    ensures
        b is Ok <==> entry_packed(world@, seq) is Ok,
        b matches Ok(v) ==> entry_packed(world@, seq)->Ok_0 == v@,
        b matches Ok(v) ==> text_fits(world@) ==> entry_unpacked(v@) is Ok && entry_unpacked(
            v@,
        )->Ok_0 == (world@, seq),
        b matches Err(e) ==> entry_packed(world@, seq)->Err_0 == e@,
{
    rmp_serde::to_vec(&(world, seq)).map_err(|e| e.to_string())
}

/// `rmp_serde::from_slice` into a world and a position is a function of the bytes. The two
/// stand in a list, as they are written; a map of named values is not read.
#[verifier::external_body]
pub(crate) fn unpack_entry(b: &[u8]) -> (r: Result<(String, u64), String>)
    ensures
        r is Ok <==> entry_unpacked(b@) is Ok,
        r matches Ok(f) ==> entry_unpacked(b@)->Ok_0 == (f.0@, f.1),
        r matches Err(e) ==> entry_unpacked(b@)->Err_0 == e@,
{
    rmp_serde::from_slice(b).map_err(|e| e.to_string())
}

/// What an encrypted blob is encoded as, or why it is not.
pub uninterp spec fn blob_packed(key_id: Seq<char>, nonce: Seq<u8>, cipher: Seq<u8>) -> Result<
    Seq<u8>,
    Seq<char>,
>;

/// The encrypted blob that some bytes encode, or why they encode none.
pub uninterp spec fn blob_unpacked(b: Seq<u8>) -> Result<
    (Seq<char>, Seq<u8>, Seq<u8>),
    Seq<char>,
>;

/// `rmp_serde::to_vec` of a key id, a nonce and a ciphertext is a function of them; where
/// the lengths fit in 32 bits, `rmp_serde::from_slice` reads them back.
#[verifier::external_body]
pub(crate) fn pack_blob(key_id: &str, nonce: &[u8; 12], cipher: &Vec<u8>) -> (b: Result<
    Vec<u8>,
    String,
>)
    ensures
        b is Ok <==> blob_packed(key_id@, nonce@, cipher@) is Ok,
        b matches Ok(v) ==> blob_packed(key_id@, nonce@, cipher@)->Ok_0 == v@,
        b matches Ok(v) ==> text_fits(key_id@) && cipher@.len() <= u32::MAX ==> blob_unpacked(
            v@,
        ) is Ok && blob_unpacked(v@)->Ok_0 == (key_id@, nonce@, cipher@),
        b matches Err(e) ==> blob_packed(key_id@, nonce@, cipher@)->Err_0 == e@,
{
    rmp_serde::to_vec(&(key_id, nonce, cipher)).map_err(|e| e.to_string())
}

/// `rmp_serde::from_slice` into a key id, a nonce of twelve bytes and a ciphertext is a
/// function of the bytes. The three stand in a list, as they are written; a map of named
/// values is not read.
#[verifier::external_body]
pub(crate) fn unpack_blob(b: &[u8]) -> (r: Result<(String, [u8; 12], Vec<u8>), String>)
    ensures
        r is Ok <==> blob_unpacked(b@) is Ok,
        r matches Ok(f) ==> blob_unpacked(b@)->Ok_0 == (f.0@, f.1@, f.2@),
        r matches Err(e) ==> blob_unpacked(b@)->Err_0 == e@,
{
    rmp_serde::from_slice(b).map_err(|e| e.to_string())
}

}
