//! Sled-backed append-only storage engine.
//!
//! Atoms are immutable and written once; replay is driven by a per-world log that records
//! append order. Where a contract says that an operation succeeds, failures of the database
//! itself are left out: those are reported as such (`is_db_failure`) or, where an operation
//! goes on in spite of one, noted in the storage (`faults`).

use vstd::prelude::*;
use vstd::string::*;

use crate::atom::{has_world, Atom, AtomId, AtomView, WorldKey};
use crate::bytes;
use crate::bytes::{bytes_end_with, bytes_start_with};
use crate::calls::StorageCall;
use crate::cipher;
use crate::cipher::{decrypt_bytes, encrypt_bytes};
use crate::codec;
use crate::codec::{pack_atom, pack_entry, pack_frame, unpack_atom, unpack_entry, unpack_frame};
use crate::db;
use crate::db::{
    flush_all, get_value, last_key, list_entries, open_at, remove_key, set_value,
};
use crate::ids;
use crate::keys;
use crate::keys::{EnvKeyProvider, KeyProvider};
use crate::layout;
use crate::layout::{
    atom_key_of, atoms_prefix_of, index_key_of, log_key_of, log_prefix_of, seq_from_log_key,
    world_from_key,
};
use crate::lists;
use crate::model;
use crate::model::{
    AtomFilter, DwbaseError, ErrorView, FilterView, Result, StorageStats, TimeWindow,
};
use crate::moment;
use crate::moment::parse_ts;
use crate::text;

verus! {

broadcast use crate::lists::group_views;

/// How a storage is opened.
#[derive(Debug)]
pub struct SledConfig {
    pub path: String,
    pub flush_on_write: bool,
    pub encryption_enabled: bool,
    pub key_id: Option<String>,
}

impl SledConfig {
    /// A storage at a path: flushed on every write, not encrypted.
    pub fn new(path: &str) -> (r: Self)
        ensures
            r.path@ == path@,
            r.flush_on_write,
            !r.encryption_enabled,
            r.key_id is None,
    {
        SledConfig {
            path: path.to_owned(),
            flush_on_write: true,
            encryption_enabled: false,
            key_id: None,
        }
    }
}

impl Clone for SledConfig {
    fn clone(&self) -> (r: Self)
        ensures
            r.path@ == self.path@,
            r.flush_on_write == self.flush_on_write,
            r.encryption_enabled == self.encryption_enabled,
            lists::opt_view(r.key_id) == lists::opt_view(self.key_id),
    {
        SledConfig {
            path: self.path.clone(),
            flush_on_write: self.flush_on_write,
            encryption_enabled: self.encryption_enabled,
            key_id: lists::duplicate_opt(&self.key_id),
        }
    }
}

/// The CRC-32 checksum of some bytes.
pub uninterp spec fn crc32(b: Seq<u8>) -> u32;

/// `crc32fast::hash` is a function of the bytes.
#[verifier::external_body]
fn checksum(b: &[u8]) -> (r: u32)
    ensures
        r == crc32(b@),
{
    crc32fast::hash(b)
}

/// The atom that some bytes encode, or the error that reports that they encode none.
pub open spec fn unpacked(b: Seq<u8>) -> std::result::Result<AtomView, ErrorView> {
    match codec::packing_fault(b) {
        Some(e) => Err(ErrorView::Storage("deserialization error: "@ + e)),
        None => Ok(choose|a: AtomView| #[trigger] codec::packs(b, a)),
    }
}

/// The atom that a stored record stands for, opened if it is sealed; or why it stands for
/// none.
pub open spec fn decoded<K: KeyProvider>(provider: K, b: Seq<u8>) -> std::result::Result<
    AtomView,
    ErrorView,
> {
    if text::has_prefix(b, cipher::mark()) {
        match cipher::opened(provider, text::after_prefix(b, cipher::mark())) {
            Ok(plain) => unpacked(plain),
            Err(e) => Err(e),
        }
    } else {
        unpacked(b)
    }
}

/// Decodes an atom that is not sealed.
fn unpack_plain(b: &[u8]) -> (r: Result<Atom>)
    ensures
        model::outcome(r) == unpacked(b@),
{
    match unpack_atom(b) {
        Ok(atom) => {
            proof {
                let a = choose|a: AtomView| #[trigger] codec::packs(b@, a);
                codec::packing_determines_atom(b@, a, atom@);
            }
            Ok(atom)
        },
        Err(e) => Err(DwbaseError::Storage(text::joined("deserialization error: ", e.as_str()))),
    }
}

/// Decodes a stored record, opening it if it is sealed.
pub fn decode_atom<K: KeyProvider>(provider: &K, b: &[u8]) -> (r: Result<Atom>)
    ensures
        model::outcome(r) == decoded(*provider, b@),
{
    let mut mark: Vec<u8> = Vec::new();
    mark.push(69);
    mark.push(78);
    mark.push(67);
    mark.push(49);
    assert(mark@ =~= cipher::mark());
    if bytes_start_with(b, mark.as_slice()) {
        let rest = vstd::slice::slice_subrange(b, 4, b.len());
        assert(rest@ =~= text::after_prefix(b@, cipher::mark()));
        match decrypt_bytes(provider, rest) {
            Ok(plain) => unpack_plain(plain.as_slice()),
            Err(e) => Err(e),
        }
    } else {
        unpack_plain(b)
    }
}

/// The atom of a world with an id, if it is stored; or why it cannot be read.
pub open spec fn looked_up<K: KeyProvider>(
    c: Map<Seq<u8>, Seq<u8>>,
    provider: K,
    world: Seq<char>,
    id: Seq<char>,
) -> std::result::Result<Option<AtomView>, ErrorView> {
    match c.get(layout::atom_key(world, id)) {
        None => Ok(None),
        Some(b) => match decoded(provider, b) {
            Ok(a) => Ok(Some(a)),
            Err(e) => Err(e),
        },
    }
}

/// The atom id in a log frame, if the frame can be read.
pub open spec fn framed_id(b: Seq<u8>) -> Option<Seq<char>> {
    match codec::frame_unpacked(b) {
        Ok(frame) => Some(frame.0),
        Err(_) => None,
    }
}

/// The atom of a log entry of a world: none if its frame cannot be read or the atom is not
/// stored.
pub open spec fn logged<K: KeyProvider>(
    c: Map<Seq<u8>, Seq<u8>>,
    provider: K,
    world: Seq<char>,
    entry: (Seq<u8>, Seq<u8>),
) -> std::result::Result<Option<AtomView>, ErrorView> {
    match framed_id(entry.1) {
        None => Ok(None),
        Some(id) => looked_up(c, provider, world, id),
    }
}

/// Whether a scan has found as many atoms as it was asked for.
pub open spec fn is_full(found: Seq<AtomView>, limit: Option<usize>) -> bool {
    limit matches Some(n) && found.len() >= n
}

/// What a scan finds in the entries of the log of a world: the atoms that the filter lets
/// through, in the order of the log, until there are as many as asked for; or the error of
/// the first atom before that which cannot be read.
pub open spec fn scanned<K: KeyProvider>(
    c: Map<Seq<u8>, Seq<u8>>,
    provider: K,
    world: Seq<char>,
    filter: FilterView,
    entries: Seq<(Seq<u8>, Seq<u8>)>,
) -> std::result::Result<Seq<AtomView>, ErrorView>
    decreases entries.len(),
{
    if entries.len() == 0 {
        Ok(Seq::empty())
    } else {
        match scanned(c, provider, world, filter, entries.drop_last()) {
            Err(e) => Err(e),
            Ok(found) => if is_full(found, filter.limit) {
                Ok(found)
            } else {
                match logged(c, provider, world, entries.last()) {
                    Err(e) => Err(e),
                    Ok(next) => Ok(taken_up(found, filter, next)),
                }
            },
        }
    }
}

/// What a scan of a world finds. A filter for another world lets nothing through.
pub open spec fn scan_of<K: KeyProvider>(
    c: Map<Seq<u8>, Seq<u8>>,
    provider: K,
    world: Seq<char>,
    filter: FilterView,
) -> std::result::Result<Seq<AtomView>, ErrorView> {
    if filter.world is Some && filter.world->0 != world {
        Ok(Seq::empty())
    } else {
        scanned(c, provider, world, filter, db::listing(c, layout::log_prefix(world)))
    }
}

/// The ids of the log entries whose atom is stored with a timestamp within the window; or
/// the error of the first atom that cannot be read.
pub open spec fn ids_within<K: KeyProvider>(
    c: Map<Seq<u8>, Seq<u8>>,
    provider: K,
    world: Seq<char>,
    window: TimeWindow,
    entries: Seq<(Seq<u8>, Seq<u8>)>,
) -> std::result::Result<Seq<Seq<char>>, ErrorView>
    decreases entries.len(),
{
    if entries.len() == 0 {
        Ok(Seq::empty())
    } else {
        match ids_within(c, provider, world, window, entries.drop_last()) {
            Err(e) => Err(e),
            Ok(ids) => match logged(c, provider, world, entries.last()) {
                Err(e) => Err(e),
                Ok(None) => Ok(ids),
                Ok(Some(atom)) => match moment::moment_of(atom.timestamp) {
                    Some(at) => if window.covers(at.spec_millis() as int) {
                        Ok(ids.push(framed_id(entries.last().1)->0))
                    } else {
                        Ok(ids)
                    },
                    None => Ok(ids),
                },
            },
        }
    }
}

/// How many of the stored records stand for an atom with a vector.
pub open spec fn vectors_among<K: KeyProvider>(
    provider: K,
    entries: Seq<(Seq<u8>, Seq<u8>)>,
) -> nat
    decreases entries.len(),
{
    if entries.len() == 0 {
        0
    } else {
        vectors_among(provider, entries.drop_last()) + match decoded(provider, entries.last().1) {
            Ok(atom) => if atom.vector is Some {
                1nat
            } else {
                0
            },
            Err(_) => 0,
        }
    }
}

/// The worlds that the keys of the entries name, each once, in the order of the keys.
pub open spec fn worlds_named(entries: Seq<(Seq<u8>, Seq<u8>)>) -> Seq<Seq<char>>
    decreases entries.len(),
{
    if entries.len() == 0 {
        Seq::empty()
    } else {
        let before = worlds_named(entries.drop_last());
        match layout::world_in_key(entries.last().0) {
            Some(world) => if before.contains(world) {
                before
            } else {
                before.push(world)
            },
            None => before,
        }
    }
}

/// The worlds that are stored.
pub open spec fn worlds_of(c: Map<Seq<u8>, Seq<u8>>) -> Seq<Seq<char>> {
    worlds_named(db::listing(c, layout::worlds_prefix()))
}

/// The atom with an id that the index leads to: none if the index has no readable entry for
/// it, or the world it names does not hold the atom.
pub open spec fn indexed<K: KeyProvider>(
    c: Map<Seq<u8>, Seq<u8>>,
    provider: K,
    id: Seq<char>,
) -> std::result::Result<Option<AtomView>, ErrorView> {
    match c.get(layout::index_key(id)) {
        None => Ok(None),
        Some(b) => match codec::entry_unpacked(b) {
            Ok(entry) => looked_up(c, provider, entry.0, id),
            Err(_) => Ok(None),
        },
    }
}

/// The atom with an id in the first of the worlds that hold it, going by the keys of the
/// entries.
pub open spec fn found_by_key<K: KeyProvider>(
    c: Map<Seq<u8>, Seq<u8>>,
    provider: K,
    id: Seq<char>,
    entries: Seq<(Seq<u8>, Seq<u8>)>,
) -> std::result::Result<Option<AtomView>, ErrorView>
    decreases entries.len(),
{
    if entries.len() == 0 {
        Ok(None)
    } else {
        match found_by_key(c, provider, id, entries.drop_last()) {
            Err(e) => Err(e),
            Ok(Some(atom)) => Ok(Some(atom)),
            Ok(None) => {
                let key = entries.last().0;
                if text::has_suffix(key, vstd::utf8::encode_utf8("/atoms/"@ + id))
                    && layout::world_in_key(key) is Some {
                    looked_up(c, provider, layout::world_in_key(key)->0, id)
                } else {
                    Ok(None)
                }
            },
        }
    }
}

/// The atom with an id: the one that the index leads to or else the first one that a scan
/// of all keys finds.
pub open spec fn found<K: KeyProvider>(
    c: Map<Seq<u8>, Seq<u8>>,
    provider: K,
    id: Seq<char>,
) -> std::result::Result<Option<AtomView>, ErrorView> {
    match indexed(c, provider, id) {
        Ok(None) => found_by_key(c, provider, id, db::listing(c, layout::worlds_prefix())),
        other => other,
    }
}

/// The atoms with the ids, those that are there, in the order of the ids; or the first error.
pub open spec fn found_all<K: KeyProvider>(
    c: Map<Seq<u8>, Seq<u8>>,
    provider: K,
    ids: Seq<Seq<char>>,
) -> std::result::Result<Seq<AtomView>, ErrorView>
    decreases ids.len(),
{
    if ids.len() == 0 {
        Ok(Seq::empty())
    } else {
        match found_all(c, provider, ids.drop_last()) {
            Err(e) => Err(e),
            Ok(atoms) => match found(c, provider, ids.last()) {
                Err(e) => Err(e),
                Ok(None) => Ok(atoms),
                Ok(Some(atom)) => Ok(atoms.push(atom)),
            },
        }
    }
}

/// Sled-backed storage.
pub struct SledStorage<K> {
    db: sled::Db,
    flush_on_write: bool,
    encryption_enabled: bool,
    key_id: Option<String>,
    key_provider: K,
    faults: Ghost<nat>,
    recorded: Ghost<Seq<StorageCall>>,
}

/// The sequence number after another, with zero after the largest.
pub open spec fn seq_after(seq: u64) -> u64 {
    if seq == u64::MAX {
        0
    } else {
        (seq + 1) as u64
    }
}

/// The sequence number so many places behind another.
pub open spec fn seq_plus(seq: u64, n: nat) -> u64
    decreases n,
{
    if n == 0 {
        seq
    } else {
        seq_after(seq_plus(seq, (n - 1) as nat))
    }
}

/// The sequence number behind the largest key of a log: one more than the number it ends
/// with, or zero if there is no such key or it ends with no number.
pub open spec fn seq_behind(last: Option<Seq<u8>>) -> u64 {
    match last {
        None => 0,
        Some(key) => match layout::seq_in_key(key) {
            None => 0,
            Some(n) => seq_after(n),
        },
    }
}

/// Whether `seq` is the next place in the log of a world.
pub open spec fn is_next_seq(c: Map<Seq<u8>, Seq<u8>>, world: Seq<char>, seq: u64) -> bool {
    exists|last: Option<Seq<u8>>| #[trigger]
        db::is_last_key(c, layout::log_prefix(world), last) && seq == seq_behind(last)
}

/// Whether atoms are appended to the log of a world from a place on: the next, or the first
/// where the next could not be read.
pub open spec fn starts_at(
    c: Map<Seq<u8>, Seq<u8>>,
    world: Seq<char>,
    seq: u64,
    sound: bool,
) -> bool {
    if sound {
        is_next_seq(c, world, seq)
    } else {
        seq == 0
    }
}

/// The error for a value that cannot be encoded.
pub open spec fn encoding_error(e: Seq<char>) -> ErrorView {
    ErrorView::Storage("serialization error: "@ + e)
}

/// The error for an atom that is appended to another world than its own.
pub open spec fn world_mismatch(atom_world: Seq<char>, world: Seq<char>) -> ErrorView {
    ErrorView::InvalidInput(
        "atom world "@ + atom_world + " does not match target world "@ + world,
    )
}

/// The contents with the record and the log frame of an atom.
pub open spec fn with_record(
    c: Map<Seq<u8>, Seq<u8>>,
    world: Seq<char>,
    seq: u64,
    id: Seq<char>,
    record: Seq<u8>,
    frame: Seq<u8>,
) -> Map<Seq<u8>, Seq<u8>> {
    c.insert(layout::atom_key(world, id), record).insert(layout::log_key(world, seq), frame)
}

/// A failure of the database: what it holds is not known.
pub open spec fn failed_in_db(r: std::result::Result<(), ErrorView>) -> bool {
    r is Err && db::is_db_failure(r->Err_0)
}

/// The key of an entry.
fn entry_key(entry: &(Vec<u8>, Vec<u8>)) -> (r: &[u8])
    ensures
        r@ == entry@.0,
{
    entry.0.as_slice()
}

/// The value of an entry.
fn entry_value(entry: &(Vec<u8>, Vec<u8>)) -> (r: &[u8])
    ensures
        r@ == entry@.1,
{
    entry.1.as_slice()
}

/// Whether the record that was read for a log entry is there and has the checksum of its
/// frame.
pub fn is_sound_record(sum: u32, record: &Option<Vec<u8>>) -> (r: bool)
    ensures
        r == has_checksum(sum, lists::opt_view(*record)),
{
    match record {
        Some(b) => checksum(b.as_slice()) == sum,
        None => false,
    }
}

/// Takes up what a log entry led to, if it is an atom that the filter lets through and there
/// are not as many atoms as were asked for. Says whether there are then.
pub fn take_up(out: &mut Vec<Atom>, filter: &AtomFilter, found: Option<Atom>) -> (full: bool)
    ensures
        lists::views(final(out)@) == if is_full(lists::views(old(out)@), filter@.limit) {
            lists::views(old(out)@)
        } else {
            taken_up(lists::views(old(out)@), filter@, lists::opt_view(found))
        },
        full == is_full(lists::views(final(out)@), filter@.limit),
{
    if let Some(limit) = filter.limit {
        if out.len() >= limit {
            return true;
        }
    }
    if let Some(atom) = found {
        if filter.matches(&atom) {
            out.push(atom);
        }
    }
    match filter.limit {
        Some(limit) => out.len() >= limit,
        None => false,
    }
}

/// The atoms with one more, if it is there and the filter lets it through.
pub open spec fn taken_up(
    atoms: Seq<AtomView>,
    filter: FilterView,
    found: Option<AtomView>,
) -> Seq<AtomView> {
    match found {
        Some(atom) => if filter.admits(atom) {
            atoms.push(atom)
        } else {
            atoms
        },
        None => atoms,
    }
}

/// The worlds that the keys of the entries name, each once, in the order of the keys.
pub fn worlds_in(entries: &Vec<(Vec<u8>, Vec<u8>)>) -> (out: Vec<WorldKey>)
    ensures
        lists::views(out@) == worlds_named(lists::views(entries@)),
{
    let ghost models = lists::views(entries@);
    let mut out: Vec<WorldKey> = Vec::new();
    for i in 0..entries.len()
        invariant
            models == lists::views(entries@),
            lists::views(out@) == worlds_named(models.subrange(0, i as int)),
    {
        proof {
            let upto = models.subrange(0, i + 1);
            assert(upto.drop_last() == models.subrange(0, i as int));
            assert(upto.last() == entries@[i as int]@);
        }
        if let Some(world) = world_from_key(entry_key(&entries[i])) {
            if !has_world(&out, &world) {
                out.push(world);
            }
        }
    }
    assert(models.subrange(0, models.len() as int) == models);
    out
}

/// The keys of the entries.
fn keys_in(entries: &Vec<(Vec<u8>, Vec<u8>)>) -> (keys: Vec<Vec<u8>>)
    ensures
        lists::views(keys@) == keys_of(lists::views(entries@)),
{
    let mut keys: Vec<Vec<u8>> = Vec::new();
    for i in 0..entries.len()
        invariant
            keys@.len() == i,
            forall|j: int| 0 <= j < i ==> (#[trigger] keys@[j])@ == entries@[j]@.0,
    {
        keys.push(entries[i].0.clone());
    }
    assert(lists::views(keys@) =~= keys_of(lists::views(entries@)));
    keys
}

/// The keys of the log entries whose frames name one of the ids.
pub fn keys_naming(entries: &Vec<(Vec<u8>, Vec<u8>)>, ids: &[AtomId]) -> (keys: Vec<Vec<u8>>)
    ensures
        lists::views(keys@) == named_among(lists::views(entries@), lists::views(ids@)),
{
    let ghost listed = lists::views(entries@);
    let ghost models = lists::views(ids@);
    let mut keys: Vec<Vec<u8>> = Vec::new();
    for i in 0..entries.len()
        invariant
            listed == lists::views(entries@),
            models == lists::views(ids@),
            lists::views(keys@) == named_among(listed.subrange(0, i as int), models),
    {
        proof {
            let upto = listed.subrange(0, i + 1);
            assert(upto.drop_last() == listed.subrange(0, i as int));
            assert(upto.last() == entries@[i as int]@);
        }
        if let Ok(frame) = unpack_frame(entry_value(&entries[i])) {
            if has_atom_id(ids, frame.0.as_str()) {
                keys.push(entries[i].0.clone());
            }
        }
    }
    assert(listed.subrange(0, listed.len() as int) == listed);
    keys
}

/// The keys of the entries with a sequence number of at least `bad`.
pub fn keys_at_or_after(entries: &Vec<(Vec<u8>, Vec<u8>)>, bad: u64) -> (keys: Vec<Vec<u8>>)
    ensures
        lists::views(keys@) == keys_from(lists::views(entries@), bad),
{
    let ghost listed = lists::views(entries@);
    let mut keys: Vec<Vec<u8>> = Vec::new();
    for i in 0..entries.len()
        invariant
            listed == lists::views(entries@),
            lists::views(keys@) == keys_from(listed.subrange(0, i as int), bad),
    {
        proof {
            let upto = listed.subrange(0, i + 1);
            assert(upto.drop_last() == listed.subrange(0, i as int));
            assert(upto.last() == entries@[i as int]@);
        }
        if let Some(seq) = seq_from_log_key(entry_key(&entries[i])) {
            if seq >= bad {
                keys.push(entries[i].0.clone());
            }
        }
    }
    assert(listed.subrange(0, listed.len() as int) == listed);
    keys
}

impl<K: KeyProvider> SledStorage<K> {
    /// What the database holds.
    pub closed spec fn contents(self) -> Map<Seq<u8>, Seq<u8>> {
        db::contents(self.db)
    }

    /// Where the keys come from.
    pub closed spec fn provider(self) -> K {
        self.key_provider
    }

    /// Whether records are sealed when they are written.
    pub closed spec fn encrypts(self) -> bool {
        self.encryption_enabled
    }

    /// The id of the key that records are sealed with.
    pub closed spec fn sealing_key(self) -> Option<Seq<char>> {
        lists::opt_view(self.key_id)
    }

    /// How often an operation has gone on in spite of a failure of the database.
    pub closed spec fn faults(self) -> nat {
        self.faults@
    }

    /// Whether two storages differ only in what the database holds and in faults.
    pub open spec fn same_settings(self, other: Self) -> bool {
        &&& self.provider() == other.provider()
        &&& self.encrypts() == other.encrypts()
        &&& self.sealing_key() == other.sealing_key()
        &&& self.flushes() == other.flushes()
    }

    /// Whether what is written is made durable at once.
    pub closed spec fn flushes(self) -> bool {
        self.flush_on_write
    }

    /// Whether what the database holds was made durable.
    pub closed spec fn is_flushed(self) -> bool {
        db::flushed(self.db)
    }

    /// The calls that were recorded.
    pub closed spec fn recorded(self) -> Seq<StorageCall> {
        self.recorded@
    }

    /// Records a call.
    pub(crate) fn record(&mut self, Ghost(call): Ghost<StorageCall>)
        ensures
            final(self).recorded() == old(self).recorded().push(call),
            final(self).same_settings(*old(self)),
            final(self).contents() == old(self).contents(),
            final(self).faults() == old(self).faults(),
            final(self).is_flushed() == old(self).is_flushed(),
    {
        self.recorded = Ghost(self.recorded@.push(call));
    }

    /// What every operation keeps: the settings stay, and a fault is noted only where a call
    /// on the database failed.
    pub open spec fn follows(self, before: Self) -> bool {
        &&& self.same_settings(before)
        &&& self.recorded() == before.recorded()
        &&& self.faults() >= before.faults()
        &&& self.faults() > before.faults() ==> db::call_failed()
    }

    /// Whether an error reports that a call on the database failed, as it is now.
    pub closed spec fn reports(self, e: ErrorView) -> bool {
        db::is_failure_of(self.db, e)
    }

    /// A reading of the storage: exact, or a failure of the database.
    pub open spec fn reads_as<T>(
        self,
        r: std::result::Result<T, ErrorView>,
        exact: std::result::Result<T, ErrorView>,
    ) -> bool {
        r == exact || (r is Err && self.reports(r->Err_0))
    }

    /// An error that reports a failing call on the database is a failure of a database.
    pub proof fn report_is_failure(self, e: ErrorView)
        requires
            self.reports(e),
        ensures
            db::is_db_failure(e),
    {
    }

    /// Whether no failure of the database was passed over since.
    pub open spec fn is_sound_since(self, before: Self) -> bool {
        self.faults() == before.faults()
    }

    /// Notes a failure of the database that is passed over.
    fn note_fault(&mut self)
        requires
            db::call_failed(),
        ensures
            final(self).follows(*old(self)),
            !final(self).is_sound_since(*old(self)),
            final(self).contents() == old(self).contents(),
    {
        self.faults = Ghost(self.faults@ + 1);
    }

    /// The value of a key.
    pub fn raw(&self, key: &[u8]) -> (r: Result<Option<Vec<u8>>>)
        ensures
            r matches Ok(v) ==> lists::opt_view(v) == self.contents().get(key@),
            r matches Err(e) ==> self.reports(e@),
    {
        get_value(&self.db, key)
    }

    /// The entries whose keys start with a prefix.
    fn list(&self, prefix: &[u8]) -> (r: Result<Vec<(Vec<u8>, Vec<u8>)>>)
        ensures
            r matches Ok(l) ==> lists::views(l@) == db::listing(self.contents(), prefix@),
            r matches Err(e) ==> self.reports(e@),
    {
        list_entries(&self.db, prefix)
    }

    /// The atom of a world with an id.
    fn atom_from_store(&self, id: &str, world: &str) -> (r: Result<Option<Atom>>)
        ensures
            self.reads_as(
                model::opt_outcome(r),
                looked_up(self.contents(), self.provider(), world@, id@),
            ),
    {
        let key = atom_key_of(world, id);
        match self.raw(key.as_slice()) {
            Err(e) => Err(e),
            Ok(None) => Ok(None),
            Ok(Some(b)) => match decode_atom(&self.key_provider, b.as_slice()) {
                Ok(atom) => Ok(Some(atom)),
                Err(e) => Err(e),
            },
        }
    }

    /// The atom of a log entry.
    fn atom_of_entry(&self, entry: &(Vec<u8>, Vec<u8>), world: &str) -> (r: Result<Option<Atom>>)
        ensures
            self.reads_as(
                model::opt_outcome(r),
                logged(self.contents(), self.provider(), world@, entry@),
            ),
    {
        match unpack_frame(entry_value(entry)) {
            Ok(frame) => self.atom_from_store(frame.0.as_str(), world),
            Err(_) => Ok(None),
        }
    }

    /// The atoms of a world that a filter lets through, in the order in which they were
    /// appended.
    pub fn scan(&self, world: &WorldKey, filter: &AtomFilter) -> (r: Result<Vec<Atom>>)
        ensures
            self.reads_as(
                model::list_outcome(r),
                scan_of(self.contents(), self.provider(), world@, filter@),
            ),
            filter@.world is Some && filter@.world->0 != world@ ==> r is Ok && r->Ok_0@.len() == 0,
            filter@.limit == Some(0usize) ==> r is Ok && r->Ok_0@.len() == 0,
            r matches Ok(found) ==> filter@.limit is Some ==> found@.len() <= filter@.limit->0,
    {
        if let Some(only) = &filter.world {
            if !text::same(only.text(), world.text()) {
                return Ok(Vec::new());
            }
        }
        if let Some(limit) = filter.limit {
            if limit == 0 {
                proof {
                    nothing_is_asked_for(
                        self.contents(),
                        self.provider(),
                        world@,
                        filter@,
                        db::listing(self.contents(), layout::log_prefix(world@)),
                    );
                }
                return Ok(Vec::new());
            }
        }
        let prefix = log_prefix_of(world.text());
        let entries = match self.list(prefix.as_slice()) {
            Ok(entries) => entries,
            Err(e) => {
                return Err(e);
            },
        };
        let ghost models = lists::views(entries@);
        let ghost c = self.contents();
        let ghost k = self.provider();
        let mut out: Vec<Atom> = Vec::new();
        let mut full: bool = false;
        for i in 0..entries.len()
            invariant
                models == lists::views(entries@),
                models == db::listing(c, layout::log_prefix(world@)),
                c == self.contents(),
                k == self.provider(),
                !(filter@.world is Some && filter@.world->0 != world@),
                full == is_full(lists::views(out@), filter@.limit),
                filter@.limit is Some ==> out@.len() <= filter@.limit->0,
                scanned(c, k, world@, filter@, models.subrange(0, i as int)) == Ok::<
                    Seq<AtomView>,
                    ErrorView,
                >(lists::views(out@)),
        {
            proof {
                let upto = models.subrange(0, i + 1);
                assert(upto.drop_last() == models.subrange(0, i as int));
                assert(upto.last() == entries@[i as int]@);
            }
            if !full {
                match self.atom_of_entry(&entries[i], world.text()) {
                    Err(e) => {
                        proof {
                            if !self.reports(e@) {
                                scan_error_stays(c, k, world@, filter@, models, i + 1);
                            }
                        }
                        return Err(e);
                    },
                    Ok(found) => {
                        full = take_up(&mut out, filter, found);
                    },
                }
            }
        }
        assert(models.subrange(0, models.len() as int) == models);
        Ok(out)
    }

    /// The atom with an id in the first of the worlds that hold it.
    fn find_by_key(&self, id: &str) -> (r: Result<Option<Atom>>)
        ensures
            self.reads_as(
                model::opt_outcome(r),
                found_by_key(
                    self.contents(),
                    self.provider(),
                    id@,
                    db::listing(self.contents(), layout::worlds_prefix()),
                ),
            ),
    {
        let suffix = text::joined("/atoms/", id);
        let entries = match self.list("world/".as_bytes()) {
            Ok(entries) => entries,
            Err(e) => {
                return Err(e);
            },
        };
        let ghost models = lists::views(entries@);
        let ghost c = self.contents();
        let ghost k = self.provider();
        for i in 0..entries.len()
            invariant
                models == lists::views(entries@),
                models == db::listing(c, layout::worlds_prefix()),
                c == self.contents(),
                k == self.provider(),
                suffix@ == "/atoms/"@ + id@,
                found_by_key(c, k, id@, models.subrange(0, i as int)) == Ok::<
                    Option<AtomView>,
                    ErrorView,
                >(None),
        {
            proof {
                let upto = models.subrange(0, i + 1);
                assert(upto.drop_last() == models.subrange(0, i as int));
                assert(upto.last() == entries@[i as int]@);
            }
            let key = entry_key(&entries[i]);
            if bytes_end_with(key, suffix.as_str().as_bytes()) {
                if let Some(world) = world_from_key(key) {
                    match self.atom_from_store(id, world.text()) {
                        Err(e) => {
                            proof {
                                if !self.reports(e@) {
                                    found_by_key_stays(c, k, id@, models, i + 1);
                                }
                            }
                            return Err(e);
                        },
                        Ok(Some(atom)) => {
                            proof {
                                found_by_key_stays(c, k, id@, models, i + 1);
                            }
                            return Ok(Some(atom));
                        },
                        Ok(None) => {},
                    }
                }
            }
        }
        assert(models.subrange(0, models.len() as int) == models);
        Ok(None)
    }

    /// The atom with an id that the index leads to.
    fn find_by_index(&self, id: &str) -> (r: Result<Option<Atom>>)
        ensures
            self.reads_as(model::opt_outcome(r), indexed(self.contents(), self.provider(), id@)),
    {
        let key = index_key_of(id);
        match self.raw(key.as_slice()) {
            Err(e) => Err(e),
            Ok(None) => Ok(None),
            Ok(Some(b)) => match unpack_entry(b.as_slice()) {
                Ok(entry) => self.atom_from_store(id, entry.0.as_str()),
                Err(_) => Ok(None),
            },
        }
    }

    /// The atom with an id: the one that the index leads to or else the first one that a
    /// scan of all keys finds.
    fn find(&self, id: &str) -> (r: Result<Option<Atom>>)
        ensures
            self.reads_as(model::opt_outcome(r), found(self.contents(), self.provider(), id@)),
    {
        match self.find_by_index(id) {
            Err(e) => Err(e),
            Ok(Some(atom)) => Ok(Some(atom)),
            Ok(None) => self.find_by_key(id),
        }
    }

    /// The atoms with the ids, those that are there, in the order of the ids.
    pub fn get_by_ids(&self, ids: &[AtomId]) -> (r: Result<Vec<Atom>>)
        ensures
            self.reads_as(
                model::list_outcome(r),
                found_all(self.contents(), self.provider(), lists::views(ids@)),
            ),
            ids@.len() == 0 ==> r is Ok && r->Ok_0@.len() == 0,
    {
        let ghost models = lists::views(ids@);
        let ghost c = self.contents();
        let ghost k = self.provider();
        let mut out: Vec<Atom> = Vec::new();
        for i in 0..ids.len()
            invariant
                models == lists::views(ids@),
                c == self.contents(),
                k == self.provider(),
                out@.len() <= i,
                found_all(c, k, models.subrange(0, i as int)) == Ok::<Seq<AtomView>, ErrorView>(
                    lists::views(out@),
                ),
        {
            proof {
                let upto = models.subrange(0, i + 1);
                assert(upto.drop_last() == models.subrange(0, i as int));
                assert(upto.last() == ids@[i as int]@);
            }
            match self.find(ids[i].text()) {
                Err(e) => {
                    proof {
                        if !self.reports(e@) {
                            found_all_error_stays(c, k, models, i + 1);
                        }
                    }
                    return Err(e);
                },
                Ok(None) => {},
                Ok(Some(atom)) => {
                    out.push(atom);
                },
            }
        }
        assert(models.subrange(0, models.len() as int) == models);
        Ok(out)
    }

    /// How many atoms a world holds, and how many of them have a vector.
    pub fn stats(&self, world: &WorldKey) -> (r: Result<StorageStats>)
        ensures
            r matches Ok(stats) ==> ({
                let entries = db::listing(self.contents(), layout::atoms_prefix(world@));
                &&& stats.atom_count == entries.len()
                &&& stats.vector_count == vectors_among(self.provider(), entries)
            }),
            r matches Err(e) ==> self.reports(e@),
    {
        let prefix = atoms_prefix_of(world.text());
        let entries = match self.list(prefix.as_slice()) {
            Ok(entries) => entries,
            Err(e) => {
                return Err(e);
            },
        };
        let ghost models = lists::views(entries@);
        let mut vectors: usize = 0;
        for i in 0..entries.len()
            invariant
                models == lists::views(entries@),
                vectors == vectors_among(self.provider(), models.subrange(0, i as int)),
                vectors <= i,
        {
            proof {
                let upto = models.subrange(0, i + 1);
                assert(upto.drop_last() == models.subrange(0, i as int));
                assert(upto.last() == entries@[i as int]@);
            }
            if let Ok(atom) = decode_atom(&self.key_provider, entry_value(&entries[i])) {
                if atom.vector().is_some() {
                    vectors = vectors + 1;
                }
            }
        }
        assert(models.subrange(0, models.len() as int) == models);
        Ok(StorageStats { atom_count: entries.len(), vector_count: vectors })
    }

    /// The ids of the atoms of a world within a time window (ms since epoch), in the order
    /// in which they were appended.
    pub fn list_ids_in_window(&self, world: &WorldKey, window: &TimeWindow) -> (r: Result<
        Vec<AtomId>,
    >)
        ensures
            self.reads_as(
                model::list_outcome(r),
                ids_within(
                    self.contents(),
                    self.provider(),
                    world@,
                    *window,
                    db::listing(self.contents(), layout::log_prefix(world@)),
                ),
            ),
    {
        let prefix = log_prefix_of(world.text());
        let entries = match self.list(prefix.as_slice()) {
            Ok(entries) => entries,
            Err(e) => {
                return Err(e);
            },
        };
        let ghost models = lists::views(entries@);
        let ghost c = self.contents();
        let ghost k = self.provider();
        let mut out: Vec<AtomId> = Vec::new();
        for i in 0..entries.len()
            invariant
                models == lists::views(entries@),
                models == db::listing(c, layout::log_prefix(world@)),
                c == self.contents(),
                k == self.provider(),
                ids_within(c, k, world@, *window, models.subrange(0, i as int)) == Ok::<
                    Seq<Seq<char>>,
                    ErrorView,
                >(lists::views(out@)),
        {
            proof {
                let upto = models.subrange(0, i + 1);
                assert(upto.drop_last() == models.subrange(0, i as int));
                assert(upto.last() == entries@[i as int]@);
            }
            if let Ok(frame) = unpack_frame(entry_value(&entries[i])) {
                match self.atom_from_store(frame.0.as_str(), world.text()) {
                    Err(e) => {
                        proof {
                            if !self.reports(e@) {
                                window_error_stays(c, k, world@, *window, models, i + 1);
                            }
                        }
                        return Err(e);
                    },
                    Ok(None) => {},
                    Ok(Some(atom)) => {
                        if let Ok(at) = parse_ts(atom.timestamp()) {
                            let ms: i64 = at.millis();
                            if ms >= window.start_ms && ms <= window.end_ms {
                                out.push(AtomId(frame.0));
                            }
                        }
                    },
                }
            }
        }
        assert(models.subrange(0, models.len() as int) == models);
        Ok(out)
    }

    /// The worlds that are stored.
    pub fn worlds(&self) -> (r: Result<Vec<WorldKey>>)
        ensures
            r matches Ok(worlds) ==> lists::views(worlds@) == worlds_of(self.contents()),
            r matches Err(e) ==> self.reports(e@),
    {
        let entries = match self.list("world/".as_bytes()) {
            Ok(entries) => entries,
            Err(e) => {
                return Err(e);
            },
        };
        Ok(worlds_in(&entries))
    }

    /// `r` is a possible encoding of an atom as it is written: sealed under a nonce taken at
    /// random if records are sealed.
    pub open spec fn may_encode(
        self,
        atom: AtomView,
        r: std::result::Result<Seq<u8>, ErrorView>,
    ) -> bool {
        match codec::atom_packed(atom) {
            Err(e) => r == Err::<Seq<u8>, ErrorView>(encoding_error(e)),
            Ok(plain) => if !self.encrypts() {
                r == Ok::<Seq<u8>, ErrorView>(plain)
            } else {
                match self.sealing_key() {
                    None => r == Err::<Seq<u8>, ErrorView>(
                        ErrorView::InvalidInput("key_id missing"@),
                    ),
                    Some(id) => match cipher::master_key(self.provider(), id) {
                        Err(e) => r == Err::<Seq<u8>, ErrorView>(e),
                        Ok(master) => exists|nonce: Seq<u8>|
                            nonce.len() == 12 && ids::is_drawn::<12>(nonce) && r
                                == #[trigger] cipher::sealed(
                                master,
                                id,
                                nonce,
                                plain,
                            ),
                    },
                }
            },
        }
    }

    /// Whether all the lengths in the record of an atom, and in its sealed form if records
    /// are sealed, fit in 32 bits.
    pub open spec fn fits(self, atom: AtomView) -> bool {
        &&& codec::record_of(atom).fits()
        &&& self.encrypts() ==> self.sealing_key() is Some && codec::text_fits(
            self.sealing_key()->0,
        ) && codec::atom_packed(atom)->Ok_0.len() + 16 <= u32::MAX
    }

    /// Encodes an atom as it is written.
    pub fn encode_atom(&self, atom: &Atom) -> (r: Result<Vec<u8>>)
        ensures
            self.may_encode(atom@, keys::bytes_outcome(r)),
            r matches Ok(b) ==> self.fits(atom@) ==> decoded(self.provider(), b@) == Ok::<
                AtomView,
                ErrorView,
            >(atom@),
    {
        let plain = match pack_atom(atom) {
            Ok(plain) => plain,
            Err(e) => {
                return Err(
                    DwbaseError::Storage(text::joined("serialization error: ", e.as_str())),
                );
            },
        };
        proof {
            if codec::record_of(atom@).fits() {
                assert(unpacked(plain@) == Ok::<AtomView, ErrorView>(atom@)) by {
                    codec::record_of_atom_is_sound(atom@);
                    let a = choose|a: AtomView| #[trigger] codec::packs(plain@, a);
                    codec::packing_determines_atom(plain@, a, atom@);
                }
            }
            if text::has_prefix(plain@, cipher::mark()) {
                assert(plain@[0] == plain@.subrange(0, 4)[0]);
            }
        }
        if self.encryption_enabled {
            let sealed = encrypt_bytes(&self.key_provider, &self.key_id, plain.as_slice());
            sealed
        } else {
            Ok(plain)
        }
    }

    /// The next place in the log of a world. A failure of the database is passed over, and
    /// the place is then the first.
    fn next_seq(&mut self, world: &str) -> (r: u64)
        ensures
            final(self).follows(*old(self)),
            final(self).contents() == old(self).contents(),
            final(self).is_sound_since(*old(self)) ==> is_next_seq(
                old(self).contents(),
                world@,
                r,
            ),
            !final(self).is_sound_since(*old(self)) ==> r == 0,
    {
        let prefix = log_prefix_of(world);
        match last_key(&self.db, prefix.as_slice()) {
            Err(_) => {
                self.note_fault();
                0
            },
            Ok(None) => 0,
            Ok(Some(key)) => {
                match seq_from_log_key(key.as_slice()) {
                    None => 0,
                    Some(n) => next_in_log(n),
                }
            },
        }
    }

    /// Sets the value of a key.
    fn put(&mut self, key: &[u8], value: &[u8]) -> (r: Result<()>)
        ensures
            final(self).follows(*old(self)),
            final(self).is_sound_since(*old(self)),
            r is Ok ==> final(self).contents() == old(self).contents().insert(key@, value@),
            r matches Err(e) ==> old(self).reports(e@) && db::is_db_failure(e@)
                && db::call_failed(),
    {
        set_value(&mut self.db, key, value)
    }

    /// Takes a key out. A failure of the database is passed over.
    fn take_out(&mut self, key: &[u8])
        ensures
            final(self).follows(*old(self)),
            final(self).is_sound_since(*old(self)) ==> final(self).contents() == old(self).contents().remove(key@),
    {
        if remove_key(&mut self.db, key).is_err() {
            self.note_fault();
        }
    }

    /// Notes in the index where an atom is.
    fn record_index(&mut self, world: &str, id: &str, seq: u64) -> (r: Result<()>)
        ensures
            final(self).follows(*old(self)),
            final(self).is_sound_since(*old(self)),
            match codec::entry_packed(world@, seq) {
                Err(e) => r is Err && r->Err_0@ == encoding_error(e) && final(self).contents()
                    == old(self).contents(),
                Ok(entry) => (r is Ok && final(self).contents() == old(self).contents().insert(
                    layout::index_key(id@),
                    entry,
                )) || (r is Err && db::is_db_failure(r->Err_0@)),
            },
            r is Ok && codec::text_fits(world@) ==> codec::entry_unpacked(
                codec::entry_packed(world@, seq)->Ok_0,
            ) == Ok::<(Seq<char>, u64), Seq<char>>((world@, seq)),
    {
        match pack_entry(world, seq) {
            Err(e) => Err(DwbaseError::Storage(text::joined("serialization error: ", e.as_str()))),
            Ok(entry) => {
                let key = index_key_of(id);
                self.put(key.as_slice(), entry.as_slice())
            },
        }
    }

    /// What appending an atom at a place of the log of a world leads to, from one contents
    /// to the next: the atom must be of that world; its record, the frame with its id, the
    /// checksum and the length of the record, and its index entry are written.
    pub open spec fn appends(
        self,
        before: Map<Seq<u8>, Seq<u8>>,
        after: Map<Seq<u8>, Seq<u8>>,
        world: Seq<char>,
        seq: u64,
        atom: AtomView,
        r: std::result::Result<(), ErrorView>,
    ) -> bool {
        if atom.world != world {
            r == Err::<(), ErrorView>(world_mismatch(atom.world, world)) && after == before
        } else {
            exists|record: std::result::Result<Seq<u8>, ErrorView>| #[trigger]
                self.may_encode(atom, record) && appends_record(
                    before,
                    after,
                    world,
                    seq,
                    atom.id,
                    record,
                    r,
                ) && (r is Ok && self.fits(atom) ==> reads_back(
                    self.provider(),
                    record->Ok_0,
                    seq,
                    atom,
                ))
        }
    }

    /// Appends an atom at a place of the log of a world.
    fn append_at(&mut self, world: &str, seq: u64, atom: &Atom) -> (r: Result<()>)
        ensures
            final(self).follows(*old(self)),
            final(self).is_sound_since(*old(self)),
            failed_in_db(model::done(r)) && atom@.world == world@ || old(self).appends(
                old(self).contents(),
                final(self).contents(),
                world@,
                seq,
                atom@,
                model::done(r),
            ),
    {
        let ghost before = *self;
        let ghost c = self.contents();
        if !text::same(atom.world().text(), world) {
            let mut message = text::joined3(
                "atom world ",
                atom.world().text(),
                " does not match target world ",
            );
            message.append(world);
            return Err(DwbaseError::InvalidInput(message));
        }
        let id = atom.id().text();
        let encoded = self.encode_atom(atom);
        let ghost record = keys::bytes_outcome(encoded);
        assert(before.may_encode(atom@, record));
        let bytes = match encoded {
            Ok(bytes) => bytes,
            Err(e) => {
                assert(appends_record(c, c, world@, seq, atom@.id, record, Err(e@)));
                return Err(e);
            },
        };
        let frame = match pack_frame(id, checksum(bytes.as_slice()), bytes.len() as u64) {
            Ok(frame) => frame,
            Err(e) => {
                assert(appends_record(
                    c,
                    c,
                    world@,
                    seq,
                    atom@.id,
                    record,
                    Err(encoding_error(e@)),
                ));
                return Err(
                    DwbaseError::Storage(text::joined("serialization error: ", e.as_str())),
                );
            },
        };
        let atom_key = atom_key_of(world, id);
        if let Err(e) = self.put(atom_key.as_slice(), bytes.as_slice()) {
            return Err(e);
        }
        let log_key = log_key_of(world, seq);
        if let Err(e) = self.put(log_key.as_slice(), frame.as_slice()) {
            return Err(e);
        }
        let r = self.record_index(world, id, seq);
        assert(failed_in_db(model::done(r)) || appends_record(
            c,
            self.contents(),
            world@,
            seq,
            atom@.id,
            record,
            model::done(r),
        ));
        r
    }

    /// What appending atoms to a world leads to, as many as there are steps in the history:
    /// each step goes from one contents to the next, and only the last may have failed.
    pub open spec fn appends_all(
        self,
        history: Seq<Map<Seq<u8>, Seq<u8>>>,
        world: Seq<char>,
        seq: u64,
        atoms: Seq<AtomView>,
        r: std::result::Result<(), ErrorView>,
    ) -> bool {
        &&& 1 <= history.len() <= atoms.len() + 1
        &&& r is Ok ==> history.len() == atoms.len() + 1
        &&& r is Err ==> history.len() > 1
        &&& forall|i: int|
            #![trigger history[i]]
            0 <= i < history.len() - 1 ==> self.appends(
                history[i],
                history[i + 1],
                world,
                seq_plus(seq, i as nat),
                atoms[i],
                if i + 2 == history.len() {
                    r
                } else {
                    Ok(())
                },
            )
    }

    /// Whether the step of a history with a number appends an atom without failure.
    spec fn appends_nth(
        self,
        history: Seq<Map<Seq<u8>, Seq<u8>>>,
        world: Seq<char>,
        seq: u64,
        atoms: Seq<AtomView>,
        j: int,
    ) -> bool {
        self.appends(
            history[j],
            history[j + 1],
            world,
            seq_plus(seq, j as nat),
            atoms[j],
            Ok(()),
        )
    }

    /// Whether the first steps of a history append atoms without failure.
    spec fn appends_first(
        self,
        history: Seq<Map<Seq<u8>, Seq<u8>>>,
        world: Seq<char>,
        seq: u64,
        atoms: Seq<AtomView>,
        n: int,
    ) -> bool {
        forall|j: int| 0 <= j < n ==> #[trigger] self.appends_nth(history, world, seq, atoms, j)
    }

    /// A history grows by a step.
    proof fn one_more_append(
        self,
        history: Seq<Map<Seq<u8>, Seq<u8>>>,
        next: Map<Seq<u8>, Seq<u8>>,
        world: Seq<char>,
        seq: u64,
        atoms: Seq<AtomView>,
        r: std::result::Result<(), ErrorView>,
    )
        requires
            0 < history.len() <= atoms.len(),
            self.appends_first(history, world, seq, atoms, history.len() - 1),
            self.appends(
                history.last(),
                next,
                world,
                seq_plus(seq, (history.len() - 1) as nat),
                atoms[history.len() - 1],
                r,
            ),
        ensures
            r is Ok ==> self.appends_first(
                history.push(next),
                world,
                seq,
                atoms,
                history.len() as int,
            ),
            r is Err ==> self.appends_all(history.push(next), world, seq, atoms, r),
    {
        let n = history.len() - 1;
        let grown = history.push(next);
        assert(r is Ok ==> r == Ok::<(), ErrorView>(()));
        assert forall|j: int| 0 <= j < n implies #[trigger] self.appends_nth(
            grown,
            world,
            seq,
            atoms,
            j,
        ) by {
            assert(self.appends_nth(history, world, seq, atoms, j));
            assert(grown[j] == history[j] && grown[j + 1] == history[j + 1]);
        }
        assert(grown[n] == history.last() && grown[n + 1] == next);
        if r is Err {
            assert forall|i: int|
                #![trigger grown[i]]
                0 <= i < grown.len() - 1 implies self.appends(
                grown[i],
                grown[i + 1],
                world,
                seq_plus(seq, i as nat),
                atoms[i],
                if i + 2 == grown.len() {
                    r
                } else {
                    Ok(())
                },
            ) by {
                if i < n {
                    assert(self.appends_nth(grown, world, seq, atoms, i));
                }
            }
        }
    }

    /// A history that appends all the atoms.
    proof fn all_are_appended(
        self,
        history: Seq<Map<Seq<u8>, Seq<u8>>>,
        world: Seq<char>,
        seq: u64,
        atoms: Seq<AtomView>,
    )
        requires
            history.len() == atoms.len() + 1,
            self.appends_first(history, world, seq, atoms, atoms.len() as int),
        ensures
            self.appends_all(history, world, seq, atoms, Ok::<(), ErrorView>(())),
    {
        assert forall|i: int|
            #![trigger history[i]]
            0 <= i < history.len() - 1 implies self.appends(
            history[i],
            history[i + 1],
            world,
            seq_plus(seq, i as nat),
            atoms[i],
            Ok(()),
        ) by {
            assert(self.appends_nth(history, world, seq, atoms, i));
        }
    }

    /// Append a batch of atoms to the same world, returning their ids.
    pub fn append_atoms(&mut self, world: &WorldKey, atoms: Vec<Atom>) -> (r: Result<Vec<AtomId>>)
        ensures
            final(self).follows(*old(self)),
            r matches Ok(ids) ==> lists::views(ids@) == ids_of(lists::views(atoms@)),
            r is Ok && old(self).flushes() ==> final(self).is_flushed(),
            failed_in_db(model::done(r)) || exists|
                history: Seq<Map<Seq<u8>, Seq<u8>>>,
                seq: u64,
            | #[trigger]
                old(self).appends_all(history, world@, seq, lists::views(atoms@), model::done(r))
                    && history[0] == old(self).contents() && history.last()
                    == final(self).contents() && starts_at(
                    old(self).contents(),
                    world@,
                    seq,
                    final(self).is_sound_since(*old(self)),
                ),
            atoms@.len() == 0 && !old(self).flushes() ==> r is Ok,
            atoms@.len() > 0 && atoms@[0]@.world != world@ ==> model::done(r) == Err::<
                (),
                ErrorView,
            >(world_mismatch(atoms@[0]@.world, world@)) && final(self).contents()
                == old(self).contents(),
    {
        let ghost before = *self;
        let ghost models = lists::views(atoms@);
        let first: u64 = self.next_seq(world.text());
        let mut seq: u64 = first;
        let ghost mut history: Seq<Map<Seq<u8>, Seq<u8>>> = seq![self.contents()];
        let mut ids: Vec<AtomId> = Vec::new();
        for i in 0..atoms.len()
            invariant
                models == lists::views(atoms@),
                before == *old(self),
                self.follows(before),
                starts_at(before.contents(), world@, first, self.is_sound_since(before)),
                i > 0 ==> models[0].world == world@,
                seq == seq_plus(first, i as nat),
                history.len() == i + 1,
                history[0] == before.contents(),
                history.last() == self.contents(),
                before.appends_first(history, world@, first, models, i as int),
                lists::views(ids@) == ids_of(models).subrange(0, i as int),
        {
            let ghost middle = *self;
            let ghost so_far = history;
            let appended = self.append_at(world.text(), seq, &atoms[i]);
            proof {
                same_settings_append_alike(
                    before,
                    middle,
                    middle.contents(),
                    self.contents(),
                    world@,
                    seq,
                    models[i as int],
                    model::done(appended),
                );
                if !failed_in_db(model::done(appended)) {
                    before.one_more_append(
                        so_far,
                        self.contents(),
                        world@,
                        first,
                        models,
                        model::done(appended),
                    );
                }
                history = so_far.push(self.contents());
            }
            if let Err(e) = appended {
                return Err(e);
            }
            ids.push(atoms[i].id().clone());
            seq = next_in_log(seq);
            assert(lists::views(ids@) =~= ids_of(models).subrange(0, i + 1));
        }
        assert(lists::views(ids@) =~= ids_of(models));
        proof {
            before.all_are_appended(history, world@, first, models);
        }
        if self.flush_on_write {
            if let Err(e) = flush_all(&self.db) {
                return Err(e);
            }
        }
        Ok(ids)
    }

    /// Appends an atom to its world.
    pub fn append(&mut self, atom: Atom) -> (r: Result<()>)
        ensures
            final(self).follows(*old(self)),
            r is Ok && old(self).flushes() ==> final(self).is_flushed(),
            failed_in_db(model::done(r)) || exists|
                history: Seq<Map<Seq<u8>, Seq<u8>>>,
                seq: u64,
            | #[trigger]
                old(self).appends_all(
                    history,
                    atom@.world,
                    seq,
                    seq![atom@],
                    model::done(r),
                ) && history[0] == old(self).contents() && history.last()
                    == final(self).contents() && starts_at(
                    old(self).contents(),
                    atom@.world,
                    seq,
                    final(self).is_sound_since(*old(self)),
                ),
    {
        let world = atom.world().clone();
        let mut batch: Vec<Atom> = Vec::new();
        let ghost model = atom@;
        batch.push(atom);
        assert(lists::views(batch@) =~= seq![model]);
        match self.append_atoms(&world, batch) {
            Ok(_) => Ok(()),
            Err(e) => Err(e),
        }
    }

    /// Deletes atoms of a world by id, with their index entries and the log entries that
    /// name them. Returns how many log entries were removed.
    pub fn delete_atoms(&mut self, world: &WorldKey, ids: &[AtomId]) -> (r: Result<usize>)
        ensures
            final(self).follows(*old(self)),
            r matches Err(e) ==> db::is_db_failure(e@),
            r is Ok && final(self).is_sound_since(*old(self)) ==> ({
                let c = without_atoms(old(self).contents(), world@, lists::views(ids@));
                let entries = db::listing(c, layout::log_prefix(world@));
                &&& r->Ok_0 == named_among(entries, lists::views(ids@)).len()
                &&& final(self).contents() == without_keys(
                    c,
                    named_among(entries, lists::views(ids@)),
                )
            }),
    {
        let ghost models = lists::views(ids@);
        let ghost before = *self;
        for i in 0..ids.len()
            invariant
                models == lists::views(ids@),
                before == *old(self),
                self.follows(before),
                self.is_sound_since(before) ==> self.contents() == without_atoms(
                    before.contents(),
                    world@,
                    models.subrange(0, i as int),
                ),
        {
            proof {
                let upto = models.subrange(0, i + 1);
                assert(upto.drop_last() == models.subrange(0, i as int));
                assert(upto.last() == ids@[i as int]@);
            }
            let atom_key = atom_key_of(world.text(), ids[i].text());
            self.take_out(atom_key.as_slice());
            let index_key = index_key_of(ids[i].text());
            self.take_out(index_key.as_slice());
        }
        assert(models.subrange(0, models.len() as int) == models);
        let ghost c = self.contents();
        let prefix = log_prefix_of(world.text());
        let entries = match self.list(prefix.as_slice()) {
            Ok(entries) => entries,
            Err(e) => {
                return Err(e);
            },
        };
        let keys = keys_naming(&entries, ids);
        self.take_all_out(&keys);
        Ok(keys.len())
    }

    /// Takes keys out. A failure of the database is passed over.
    fn take_all_out(&mut self, keys: &Vec<Vec<u8>>)
        ensures
            final(self).follows(*old(self)),
            final(self).is_sound_since(*old(self)) ==> final(self).contents() == without_keys(
                old(self).contents(),
                lists::views(keys@),
            ),
    {
        let ghost before = *self;
        let ghost models = lists::views(keys@);
        for i in 0..keys.len()
            invariant
                models == lists::views(keys@),
                before == *old(self),
                self.follows(before),
                self.is_sound_since(before) ==> self.contents() == without_keys(
                    before.contents(),
                    models.subrange(0, i as int),
                ),
        {
            self.take_out(keys[i].as_slice());
            proof {
                let upto = models.subrange(0, i + 1);
                assert(upto.drop_last() =~= models.subrange(0, i as int));
                assert(upto.last() == keys@[i as int]@);
            }
        }
        assert(models.subrange(0, models.len() as int) =~= models);
    }

    /// Takes all the entries out of the index.
    pub fn clear_index(&mut self) -> (r: Result<()>)
        ensures
            final(self).follows(*old(self)),
            r matches Err(e) ==> db::is_db_failure(e@),
            r is Ok && final(self).is_sound_since(*old(self)) ==> final(self).contents() == unindexed(
                old(self).contents(),
            ),
    {
        let ghost before = *self;
        let entries = match self.list("idx/atom/".as_bytes()) {
            Ok(entries) => entries,
            Err(e) => {
                return Err(e);
            },
        };
        let keys = keys_in(&entries);
        self.take_all_out(&keys);
        Ok(())
    }

    /// Notes in the index where the atoms of a log are. Returns how many entries it wrote on
    /// top of those before, or the largest number.
    fn index_world(&mut self, world: &str, written: u64) -> (r: Result<u64>)
        ensures
            final(self).follows(*old(self)),
            final(self).is_sound_since(*old(self)),
            r matches Ok(n) ==> ({
                let entries = db::listing(old(self).contents(), layout::log_prefix(world@));
                &&& index_fault(world@, entries) is None
                &&& final(self).contents() == with_index(old(self).contents(), world@, entries)
                &&& n == capped(written + indexable(entries))
            }),
            r matches Err(e) ==> db::is_db_failure(e@) || index_fault(
                world@,
                db::listing(old(self).contents(), layout::log_prefix(world@)),
            ) == Some(e@),
    {
        let ghost before = *self;
        let prefix = log_prefix_of(world);
        let entries = match self.list(prefix.as_slice()) {
            Ok(entries) => entries,
            Err(e) => {
                return Err(e);
            },
        };
        let ghost listed = lists::views(entries@);
        let mut count: u64 = written;
        for i in 0..entries.len()
            invariant
                listed == lists::views(entries@),
                listed == db::listing(before.contents(), layout::log_prefix(world@)),
                before == *old(self),
                self.follows(before),
                self.is_sound_since(before),
                index_fault(world@, listed.subrange(0, i as int)) is None,
                self.contents() == with_index(
                    before.contents(),
                    world@,
                    listed.subrange(0, i as int),
                ),
                count == capped(written + indexable(listed.subrange(0, i as int))),
        {
            proof {
                let upto = listed.subrange(0, i + 1);
                assert(upto.drop_last() == listed.subrange(0, i as int));
                assert(upto.last() == entries@[i as int]@);
            }
            if let Some(seq) = seq_from_log_key(entry_key(&entries[i])) {
                if let Ok(frame) = unpack_frame(entry_value(&entries[i])) {
                    if let Err(e) = self.record_index(world, frame.0.as_str(), seq) {
                        proof {
                            if !db::is_db_failure(e@) {
                                index_fault_stays(world@, listed, i + 1);
                            }
                        }
                        return Err(e);
                    }
                    if count < u64::MAX {
                        count = count + 1;
                    }
                }
            }
        }
        assert(listed.subrange(0, listed.len() as int) == listed);
        Ok(count)
    }

    /// Rebuild the atom id index from existing worlds/logs; returns entries written.
    pub fn rebuild_index(&mut self) -> (r: Result<u64>)
        ensures
            final(self).follows(*old(self)),
            final(self).is_sound_since(*old(self)) ==> (r matches Ok(n) ==> ({
                let c = unindexed(old(self).contents());
                &&& reindex_fault(c, worlds_of(c)) is None
                &&& final(self).contents() == reindexed(c, worlds_of(c))
                &&& n == capped(reindexable(c, worlds_of(c)) as int)
            })),
            final(self).is_sound_since(*old(self)) ==> (r matches Err(e) ==> db::is_db_failure(e@) || ({
                let c = unindexed(old(self).contents());
                reindex_fault(c, worlds_of(c)) == Some(e@)
            })),
    {
        let ghost before = *self;
        if let Err(e) = self.clear_index() {
            return Err(e);
        }
        let ghost c = self.contents();
        let worlds = match self.worlds() {
            Ok(worlds) => worlds,
            Err(e) => {
                return Err(e);
            },
        };
        let ghost names = lists::views(worlds@);
        let mut written: u64 = 0;
        for i in 0..worlds.len()
            invariant
                names == lists::views(worlds@),
                names == worlds_of(c),
                before == *old(self),
                self.follows(before),
                self.is_sound_since(before) ==> c == unindexed(before.contents()),
                reindex_fault(c, names.subrange(0, i as int)) is None,
                self.contents() == reindexed(c, names.subrange(0, i as int)),
                written == capped(reindexable(c, names.subrange(0, i as int)) as int),
        {
            proof {
                let upto = names.subrange(0, i + 1);
                assert(upto.drop_last() == names.subrange(0, i as int));
                assert(upto.last() == worlds@[i as int]@);
            }
            match self.index_world(worlds[i].text(), written) {
                Ok(n) => {
                    written = n;
                },
                Err(e) => {
                    proof {
                        if !db::is_db_failure(e@) {
                            reindex_fault_stays(c, names, i + 1);
                        }
                    }
                    return Err(e);
                },
            }
        }
        assert(names.subrange(0, names.len() as int) == names);
        Ok(written)
    }

    /// The first place of the log of a world whose entry is broken. A failure of the
    /// database counts as a broken entry, and is noted.
    fn first_broken(&mut self, world: &str, entries: &Vec<(Vec<u8>, Vec<u8>)>) -> (r: Option<u64>)
        ensures
            final(self).follows(*old(self)),
            final(self).contents() == old(self).contents(),
            final(self).is_sound_since(*old(self)) ==> r == broken_at(
                old(self).contents(),
                world@,
                lists::views(entries@),
            ),
    {
        let ghost listed = lists::views(entries@);
        let ghost before = *self;
        assert(listed.subrange(0, listed.len() as int) == listed);
        for i in 0..entries.len()
            invariant
                listed == lists::views(entries@),
                before == *old(self),
                self.follows(before),
                self.contents() == before.contents(),
                broken_at(before.contents(), world@, listed) == broken_at(
                    before.contents(),
                    world@,
                    listed.subrange(i as int, listed.len() as int),
                ),
        {
            proof {
                let rest = listed.subrange(i as int, listed.len() as int);
                assert(rest[0] == entries@[i as int]@);
                assert(rest.drop_first() == listed.subrange(i + 1, listed.len() as int));
            }
            if let Some(seq) = seq_from_log_key(entry_key(&entries[i])) {
                let frame = match unpack_frame(entry_value(&entries[i])) {
                    Ok(frame) => frame,
                    Err(_) => {
                        return Some(seq);
                    },
                };
                let key = atom_key_of(world, frame.0.as_str());
                match get_value(&self.db, key.as_slice()) {
                    Ok(record) => {
                        if !is_sound_record(frame.1, &record) {
                            return Some(seq);
                        }
                    },
                    Err(_) => {
                        self.note_fault();
                        return Some(seq);
                    },
                }
            }
        }
        None
    }

    /// Truncates the log of a world at its first broken entry.
    pub fn repair_world_log(&mut self, world: &WorldKey) -> (r: Result<()>)
        ensures
            final(self).follows(*old(self)),
            r matches Err(e) ==> db::is_db_failure(e@),
            r is Ok && final(self).is_sound_since(*old(self)) ==> final(self).contents() == repaired(
                old(self).contents(),
                world@,
            ),
    {
        let ghost before = *self;
        let prefix = log_prefix_of(world.text());
        let entries = match self.list(prefix.as_slice()) {
            Ok(entries) => entries,
            Err(e) => {
                return Err(e);
            },
        };
        let ghost listed = lists::views(entries@);
        if let Some(bad) = self.first_broken(world.text(), &entries) {
            let keys = keys_at_or_after(&entries, bad);
            self.take_all_out(&keys);
        }
        Ok(())
    }

    /// Truncates the logs of all worlds at their first broken entries.
    pub fn repair_logs(&mut self) -> (r: Result<()>)
        ensures
            final(self).follows(*old(self)),
            r matches Err(e) ==> db::is_db_failure(e@),
            r is Ok && final(self).is_sound_since(*old(self)) ==> final(self).contents() == repaired_all(
                old(self).contents(),
                worlds_of(old(self).contents()),
            ),
    {
        let ghost before = *self;
        let worlds = match self.worlds() {
            Ok(worlds) => worlds,
            Err(e) => {
                return Err(e);
            },
        };
        let ghost names = lists::views(worlds@);
        for i in 0..worlds.len()
            invariant
                names == lists::views(worlds@),
                names == worlds_of(before.contents()),
                before == *old(self),
                self.follows(before),
                self.is_sound_since(before) ==> self.contents() == repaired_all(
                    before.contents(),
                    names.subrange(0, i as int),
                ),
        {
            proof {
                let upto = names.subrange(0, i + 1);
                assert(upto.drop_last() == names.subrange(0, i as int));
                assert(upto.last() == worlds@[i as int]@);
            }
            if let Err(e) = self.repair_world_log(&worlds[i]) {
                return Err(e);
            }
        }
        assert(names.subrange(0, names.len() as int) == names);
        Ok(())
    }

    /// Puts some bytes in a place of the log of a world.
    pub fn corrupt_log_entry(&mut self, world: &WorldKey, seq: u64, bytes: &[u8])
        ensures
            final(self).follows(*old(self)),
            final(self).is_sound_since(*old(self)) ==> final(self).contents() == old(self).contents().insert(layout::log_key(world@, seq), bytes@),
    {
        let key = log_key_of(world.text(), seq);
        if self.put(key.as_slice(), bytes).is_err() {
            self.note_fault();
        }
    }

    /// Opens a storage, repairs its logs and rebuilds its index.
    pub fn open(config: SledConfig, key_provider: K) -> (r: Result<Self>)
        ensures
            config.encryption_enabled && config.key_id is None ==> model_err(r) == Some(
                ErrorView::InvalidInput("encryption enabled but key_id missing"@),
            ),
            !(config.encryption_enabled && config.key_id is None) ==> (r matches Err(e)
                ==> db::is_open_failure(config.path@, e@) || db::is_db_failure(e@)),
            r matches Ok(storage) ==> storage.provider() == key_provider && storage.encrypts()
                == config.encryption_enabled && storage.sealing_key() == lists::opt_view(
                config.key_id,
            ),
            r matches Ok(storage) ==> storage.flushes() == config.flush_on_write,
            r matches Ok(storage) ==> storage.recorded() == Seq::<StorageCall>::empty(),
            r matches Ok(storage) ==> exists|db: sled::Db| #[trigger]
                db::opened(config.path@, db) && opens_as(
                    db::contents(db),
                    storage.contents(),
                    storage.faults(),
                ),
    {
        if config.encryption_enabled && config.key_id.is_none() {
            return Err(
                DwbaseError::InvalidInput("encryption enabled but key_id missing".to_owned()),
            );
        }
        let db = match open_at(config.path.as_str()) {
            Ok(db) => db,
            Err(e) => {
                return Err(e);
            },
        };
        let ghost found = db;
        let mut storage = SledStorage {
            db,
            flush_on_write: config.flush_on_write,
            encryption_enabled: config.encryption_enabled,
            key_id: config.key_id,
            key_provider,
            faults: Ghost(0),
            recorded: Ghost(Seq::empty()),
        };
        let ghost on_disk = storage.contents();
        if let Err(e) = storage.repair_logs() {
            return Err(e);
        }
        let ghost mended = storage.contents();
        if let Err(e) = storage.rebuild_index() {
            let ghost noted = if db::is_db_failure(e@) {
                storage.faults() + 1
            } else {
                storage.faults()
            };
            storage.faults = Ghost(noted);
        }
        assert(db::opened(config.path@, found) && on_disk == db::contents(found));
        assert(opens_as(on_disk, storage.contents(), storage.faults()));
        Ok(storage)
    }
}

impl SledStorage<EnvKeyProvider> {
    /// Opens a storage whose keys come from the environment.
    pub fn open_with_env(config: SledConfig, environment: EnvKeyProvider) -> (r: Result<Self>)
        ensures
            config.encryption_enabled && config.key_id is None ==> model_err(r) == Some(
                ErrorView::InvalidInput("encryption enabled but key_id missing"@),
            ),
            !(config.encryption_enabled && config.key_id is None) ==> (r matches Err(e)
                ==> db::is_open_failure(config.path@, e@) || db::is_db_failure(e@)),
            r matches Ok(storage) ==> storage.provider() == environment && storage.encrypts()
                == config.encryption_enabled && storage.sealing_key() == lists::opt_view(
                config.key_id,
            ),
            r matches Ok(storage) ==> storage.flushes() == config.flush_on_write,
            r matches Ok(storage) ==> storage.recorded() == Seq::<StorageCall>::empty(),
            r matches Ok(storage) ==> exists|db: sled::Db| #[trigger]
                db::opened(config.path@, db) && opens_as(
                    db::contents(db),
                    storage.contents(),
                    storage.faults(),
                ),
    {
        SledStorage::open(config, environment)
    }
}

/// What a storage holds once it was opened, given what was on disk: the logs are repaired,
/// and the index is rebuilt.
pub open spec fn is_opened(
    on_disk: Map<Seq<u8>, Seq<u8>>,
    c: Map<Seq<u8>, Seq<u8>>,
) -> bool {
    let mended = unindexed(repaired_all(on_disk, worlds_of(on_disk)));
    c == reindexed(mended, worlds_of(mended))
}

/// What was on disk, what a storage holds once it was opened, and the faults noted on the
/// way: without a fault the storage is opened, unless an index entry cannot be encoded.
pub open spec fn opens_as(
    on_disk: Map<Seq<u8>, Seq<u8>>,
    c: Map<Seq<u8>, Seq<u8>>,
    faults: nat,
) -> bool {
    let mended = unindexed(repaired_all(on_disk, worlds_of(on_disk)));
    if faults > 0 {
        db::call_failed()
    } else {
        is_opened(on_disk, c) || reindex_fault(mended, worlds_of(mended)) is Some
    }
}

/// The error of an operation, if it failed.
pub open spec fn model_err<T>(r: Result<T>) -> Option<ErrorView> {
    match r {
        Ok(_) => None,
        Err(e) => Some(e@),
    }
}

/// The contents without the records and index entries of atoms of a world.
pub open spec fn without_atoms(
    c: Map<Seq<u8>, Seq<u8>>,
    world: Seq<char>,
    ids: Seq<Seq<char>>,
) -> Map<Seq<u8>, Seq<u8>>
    decreases ids.len(),
{
    if ids.len() == 0 {
        c
    } else {
        without_atoms(c, world, ids.drop_last()).remove(
            layout::atom_key(world, ids.last()),
        ).remove(layout::index_key(ids.last()))
    }
}

/// The contents without some keys.
pub open spec fn without_keys(c: Map<Seq<u8>, Seq<u8>>, keys: Seq<Seq<u8>>) -> Map<Seq<u8>, Seq<u8>>
    decreases keys.len(),
{
    if keys.len() == 0 {
        c
    } else {
        without_keys(c, keys.drop_last()).remove(keys.last())
    }
}

/// The keys of the entries.
pub open spec fn keys_of(entries: Seq<(Seq<u8>, Seq<u8>)>) -> Seq<Seq<u8>> {
    Seq::new(entries.len(), |i: int| entries[i].0)
}

/// The keys of the log entries whose frames name one of the ids.
pub open spec fn named_among(
    entries: Seq<(Seq<u8>, Seq<u8>)>,
    ids: Seq<Seq<char>>,
) -> Seq<Seq<u8>>
    decreases entries.len(),
{
    if entries.len() == 0 {
        Seq::empty()
    } else {
        let before = named_among(entries.drop_last(), ids);
        match framed_id(entries.last().1) {
            Some(id) => if ids.contains(id) {
                before.push(entries.last().0)
            } else {
                before
            },
            None => before,
        }
    }
}

/// The contents without the index.
pub open spec fn unindexed(c: Map<Seq<u8>, Seq<u8>>) -> Map<Seq<u8>, Seq<u8>> {
    without_keys(c, keys_of(db::listing(c, layout::index_prefix())))
}

/// Whether a log entry is taken into the index: its key ends with a sequence number and its
/// frame can be read.
pub open spec fn is_indexable(entry: (Seq<u8>, Seq<u8>)) -> bool {
    layout::seq_in_key(entry.0) is Some && framed_id(entry.1) is Some
}

/// How many of the log entries are taken into the index.
pub open spec fn indexable(entries: Seq<(Seq<u8>, Seq<u8>)>) -> nat
    decreases entries.len(),
{
    if entries.len() == 0 {
        0
    } else {
        indexable(entries.drop_last()) + if is_indexable(entries.last()) {
            1nat
        } else {
            0
        }
    }
}

/// The contents with index entries for the log entries of a world.
pub open spec fn with_index(
    c: Map<Seq<u8>, Seq<u8>>,
    world: Seq<char>,
    entries: Seq<(Seq<u8>, Seq<u8>)>,
) -> Map<Seq<u8>, Seq<u8>>
    decreases entries.len(),
{
    if entries.len() == 0 {
        c
    } else {
        let before = with_index(c, world, entries.drop_last());
        let entry = entries.last();
        if is_indexable(entry) {
            before.insert(
                layout::index_key(framed_id(entry.1)->0),
                codec::entry_packed(world, layout::seq_in_key(entry.0)->0)->Ok_0,
            )
        } else {
            before
        }
    }
}

/// The first error in encoding the index entries for the log entries of a world.
pub open spec fn index_fault(
    world: Seq<char>,
    entries: Seq<(Seq<u8>, Seq<u8>)>,
) -> Option<ErrorView>
    decreases entries.len(),
{
    if entries.len() == 0 {
        None
    } else {
        match index_fault(world, entries.drop_last()) {
            Some(e) => Some(e),
            None => {
                let entry = entries.last();
                if is_indexable(entry) {
                    match codec::entry_packed(world, layout::seq_in_key(entry.0)->0) {
                        Err(e) => Some(encoding_error(e)),
                        Ok(_) => None,
                    }
                } else {
                    None
                }
            },
        }
    }
}

/// An error for the first entries is the outcome for all of them.
proof fn index_fault_stays(world: Seq<char>, entries: Seq<(Seq<u8>, Seq<u8>)>, n: int)
    requires
        0 <= n <= entries.len(),
        index_fault(world, entries.subrange(0, n)) is Some,
    ensures
        index_fault(world, entries) == index_fault(world, entries.subrange(0, n)),
    decreases entries.len() - n,
{
    if n < entries.len() {
        assert(entries.subrange(0, n + 1).drop_last() =~= entries.subrange(0, n));
        index_fault_stays(world, entries, n + 1);
    } else {
        assert(entries.subrange(0, n) =~= entries);
    }
}

/// A number, or the largest of 64 bits.
pub open spec fn capped(n: int) -> int {
    if n > u64::MAX {
        u64::MAX as int
    } else {
        n
    }
}

/// The contents with index entries for the logs of some worlds, one after the other.
pub open spec fn reindexed(
    c: Map<Seq<u8>, Seq<u8>>,
    worlds: Seq<Seq<char>>,
) -> Map<Seq<u8>, Seq<u8>>
    decreases worlds.len(),
{
    if worlds.len() == 0 {
        c
    } else {
        let before = reindexed(c, worlds.drop_last());
        with_index(
            before,
            worlds.last(),
            db::listing(before, layout::log_prefix(worlds.last())),
        )
    }
}

/// How many log entries of some worlds are taken into the index.
pub open spec fn reindexable(c: Map<Seq<u8>, Seq<u8>>, worlds: Seq<Seq<char>>) -> nat
    decreases worlds.len(),
{
    if worlds.len() == 0 {
        0
    } else {
        reindexable(c, worlds.drop_last()) + indexable(
            db::listing(
                reindexed(c, worlds.drop_last()),
                layout::log_prefix(worlds.last()),
            ),
        )
    }
}

/// The first error in encoding the index entries for the logs of some worlds.
pub open spec fn reindex_fault(
    c: Map<Seq<u8>, Seq<u8>>,
    worlds: Seq<Seq<char>>,
) -> Option<ErrorView>
    decreases worlds.len(),
{
    if worlds.len() == 0 {
        None
    } else {
        match reindex_fault(c, worlds.drop_last()) {
            Some(e) => Some(e),
            None => index_fault(
                worlds.last(),
                db::listing(
                    reindexed(c, worlds.drop_last()),
                    layout::log_prefix(worlds.last()),
                ),
            ),
        }
    }
}

/// An error for the first worlds is the outcome for all of them.
proof fn reindex_fault_stays(c: Map<Seq<u8>, Seq<u8>>, worlds: Seq<Seq<char>>, n: int)
    requires
        0 <= n <= worlds.len(),
        reindex_fault(c, worlds.subrange(0, n)) is Some,
    ensures
        reindex_fault(c, worlds) == reindex_fault(c, worlds.subrange(0, n)),
    decreases worlds.len() - n,
{
    if n < worlds.len() {
        assert(worlds.subrange(0, n + 1).drop_last() =~= worlds.subrange(0, n));
        reindex_fault_stays(c, worlds, n + 1);
    } else {
        assert(worlds.subrange(0, n) =~= worlds);
    }
}

/// Whether a log entry is broken: its frame cannot be read, the atom it names is not stored,
/// or the record of the atom has another checksum.
pub open spec fn is_broken(
    c: Map<Seq<u8>, Seq<u8>>,
    world: Seq<char>,
    entry: (Seq<u8>, Seq<u8>),
) -> bool {
    match codec::frame_unpacked(entry.1) {
        Err(_) => true,
        Ok(frame) => !has_checksum(frame.1, c.get(layout::atom_key(world, frame.0))),
    }
}

/// Whether a record is there and has a checksum.
pub open spec fn has_checksum(sum: u32, record: Option<Seq<u8>>) -> bool {
    record is Some && crc32(record->0) == sum
}

/// The sequence number of the first broken entry; entries whose keys end with no number are
/// passed over.
pub open spec fn broken_at(
    c: Map<Seq<u8>, Seq<u8>>,
    world: Seq<char>,
    entries: Seq<(Seq<u8>, Seq<u8>)>,
) -> Option<u64>
    decreases entries.len(),
{
    if entries.len() == 0 {
        None
    } else if layout::seq_in_key(entries[0].0) is Some && is_broken(c, world, entries[0]) {
        layout::seq_in_key(entries[0].0)
    } else {
        broken_at(c, world, entries.drop_first())
    }
}

/// The keys of the entries with a sequence number of at least `bad`.
pub open spec fn keys_from(entries: Seq<(Seq<u8>, Seq<u8>)>, bad: u64) -> Seq<Seq<u8>>
    decreases entries.len(),
{
    if entries.len() == 0 {
        Seq::empty()
    } else {
        let before = keys_from(entries.drop_last(), bad);
        match layout::seq_in_key(entries.last().0) {
            Some(seq) => if seq >= bad {
                before.push(entries.last().0)
            } else {
                before
            },
            None => before,
        }
    }
}

/// The contents with the log of a world truncated at its first broken entry.
pub open spec fn repaired(c: Map<Seq<u8>, Seq<u8>>, world: Seq<char>) -> Map<Seq<u8>, Seq<u8>> {
    let entries = db::listing(c, layout::log_prefix(world));
    match broken_at(c, world, entries) {
        None => c,
        Some(bad) => without_keys(c, keys_from(entries, bad)),
    }
}

/// The contents with the logs of some worlds truncated, one after the other.
pub open spec fn repaired_all(
    c: Map<Seq<u8>, Seq<u8>>,
    worlds: Seq<Seq<char>>,
) -> Map<Seq<u8>, Seq<u8>>
    decreases worlds.len(),
{
    if worlds.len() == 0 {
        c
    } else {
        repaired(repaired_all(c, worlds.drop_last()), worlds.last())
    }
}

/// The sequence number after another, with zero after the largest.
fn next_in_log(seq: u64) -> (r: u64)
    ensures
        r == seq_after(seq),
{
    if seq == u64::MAX {
        0
    } else {
        seq + 1
    }
}

/// The ids of the atoms.
pub open spec fn ids_of(atoms: Seq<AtomView>) -> Seq<Seq<char>> {
    Seq::new(atoms.len(), |i: int| atoms[i].id)
}

/// The record of an atom, its log frame and its index entry are read back as what they were
/// made from.
pub open spec fn reads_back<K: KeyProvider>(
    provider: K,
    record: Seq<u8>,
    seq: u64,
    atom: AtomView,
) -> bool {
    let frame = codec::frame_packed(atom.id, crc32(record), record.len() as u64);
    let entry = codec::entry_packed(atom.world, seq);
    &&& decoded(provider, record) == Ok::<AtomView, ErrorView>(atom)
    &&& codec::frame_unpacked(frame->Ok_0) == Ok::<(Seq<char>, u32, u64), Seq<char>>(
        (atom.id, crc32(record), record.len() as u64),
    )
    &&& codec::entry_unpacked(entry->Ok_0) == Ok::<(Seq<char>, u64), Seq<char>>(
        (atom.world, seq),
    )
}

/// What writing the record of an atom leads to, from one contents to the next.
pub open spec fn appends_record(
    before: Map<Seq<u8>, Seq<u8>>,
    after: Map<Seq<u8>, Seq<u8>>,
    world: Seq<char>,
    seq: u64,
    id: Seq<char>,
    record: std::result::Result<Seq<u8>, ErrorView>,
    r: std::result::Result<(), ErrorView>,
) -> bool {
    match record {
        Err(e) => r == Err::<(), ErrorView>(e) && after == before,
        Ok(b) => match codec::frame_packed(id, crc32(b), b.len() as u64) {
            Err(e) => r == Err::<(), ErrorView>(encoding_error(e)) && after == before,
            Ok(frame) => {
                let written = with_record(before, world, seq, id, b, frame);
                match codec::entry_packed(world, seq) {
                    Err(e) => r == Err::<(), ErrorView>(encoding_error(e)) && after == written,
                    Ok(entry) => r == Ok::<(), ErrorView>(()) && after == written.insert(
                        layout::index_key(id),
                        entry,
                    ),
                }
            },
        },
    }
}

/// Storages with the same settings append in the same way.
proof fn same_settings_append_alike<K: KeyProvider>(
    a: SledStorage<K>,
    b: SledStorage<K>,
    before: Map<Seq<u8>, Seq<u8>>,
    after: Map<Seq<u8>, Seq<u8>>,
    world: Seq<char>,
    seq: u64,
    atom: AtomView,
    r: std::result::Result<(), ErrorView>,
)
    requires
        a.same_settings(b),
    ensures
        b.appends(before, after, world, seq, atom, r) ==> a.appends(
            before,
            after,
            world,
            seq,
            atom,
            r,
        ),
{
    if b.appends(before, after, world, seq, atom, r) && atom.world == world {
        let record = choose|record: std::result::Result<Seq<u8>, ErrorView>| #[trigger]
            b.may_encode(atom, record) && appends_record(
                before,
                after,
                world,
                seq,
                atom.id,
                record,
                r,
            ) && (r is Ok && b.fits(atom) ==> reads_back(
                b.provider(),
                record->Ok_0,
                seq,
                atom,
            ));
        assert(a.may_encode(atom, record));
    }
}

/// Whether an id is listed.
pub fn has_atom_id(ids: &[AtomId], id: &str) -> (r: bool)
    ensures
        r == lists::views(ids@).contains(id@),
{
    for i in 0..ids.len()
        invariant
            forall|j: int| 0 <= j < i ==> lists::views(ids@)[j] != id@,
    {
        assert(lists::views(ids@)[i as int] == ids@[i as int]@);
        if text::same(ids[i].text(), id) {
            return true;
        }
    }
    false
}

/// A scan that asks for no atom finds none.
proof fn nothing_is_asked_for<K: KeyProvider>(
    c: Map<Seq<u8>, Seq<u8>>,
    provider: K,
    world: Seq<char>,
    filter: FilterView,
    entries: Seq<(Seq<u8>, Seq<u8>)>,
)
    requires
        filter.limit == Some(0usize),
    ensures
        scanned(c, provider, world, filter, entries) == Ok::<Seq<AtomView>, ErrorView>(
            Seq::empty(),
        ),
    decreases entries.len(),
{
    if entries.len() > 0 {
        nothing_is_asked_for(c, provider, world, filter, entries.drop_last());
    }
}

/// What is found, or the error, in the first entries is the outcome for all of them.
proof fn found_by_key_stays<K: KeyProvider>(
    c: Map<Seq<u8>, Seq<u8>>,
    provider: K,
    id: Seq<char>,
    entries: Seq<(Seq<u8>, Seq<u8>)>,
    n: int,
)
    requires
        0 <= n <= entries.len(),
        found_by_key(c, provider, id, entries.subrange(0, n)) != Ok::<Option<AtomView>, ErrorView>(
            None,
        ),
    ensures
        found_by_key(c, provider, id, entries) == found_by_key(
            c,
            provider,
            id,
            entries.subrange(0, n),
        ),
    decreases entries.len() - n,
{
    if n < entries.len() {
        assert(entries.subrange(0, n + 1).drop_last() =~= entries.subrange(0, n));
        found_by_key_stays(c, provider, id, entries, n + 1);
    } else {
        assert(entries.subrange(0, n) =~= entries);
    }
}

/// An error for the first ids is the outcome for all of them.
proof fn found_all_error_stays<K: KeyProvider>(
    c: Map<Seq<u8>, Seq<u8>>,
    provider: K,
    ids: Seq<Seq<char>>,
    n: int,
)
    requires
        0 <= n <= ids.len(),
        found_all(c, provider, ids.subrange(0, n)) is Err,
    ensures
        found_all(c, provider, ids) == found_all(c, provider, ids.subrange(0, n)),
    decreases ids.len() - n,
{
    if n < ids.len() {
        assert(ids.subrange(0, n + 1).drop_last() =~= ids.subrange(0, n));
        found_all_error_stays(c, provider, ids, n + 1);
    } else {
        assert(ids.subrange(0, n) =~= ids);
    }
}

/// An error in the first entries is the outcome for all of them.
proof fn window_error_stays<K: KeyProvider>(
    c: Map<Seq<u8>, Seq<u8>>,
    provider: K,
    world: Seq<char>,
    window: TimeWindow,
    entries: Seq<(Seq<u8>, Seq<u8>)>,
    n: int,
)
    requires
        0 <= n <= entries.len(),
        ids_within(c, provider, world, window, entries.subrange(0, n)) is Err,
    ensures
        ids_within(c, provider, world, window, entries) == ids_within(
            c,
            provider,
            world,
            window,
            entries.subrange(0, n),
        ),
    decreases entries.len() - n,
{
    if n < entries.len() {
        assert(entries.subrange(0, n + 1).drop_last() =~= entries.subrange(0, n));
        window_error_stays(c, provider, world, window, entries, n + 1);
    } else {
        assert(entries.subrange(0, n) =~= entries);
    }
}

/// An error in the first entries is the outcome for all of them.
proof fn scan_error_stays<K: KeyProvider>(
    c: Map<Seq<u8>, Seq<u8>>,
    provider: K,
    world: Seq<char>,
    filter: FilterView,
    entries: Seq<(Seq<u8>, Seq<u8>)>,
    n: int,
)
    requires
        0 <= n <= entries.len(),
        scanned(c, provider, world, filter, entries.subrange(0, n)) is Err,
    ensures
        scanned(c, provider, world, filter, entries) == scanned(
            c,
            provider,
            world,
            filter,
            entries.subrange(0, n),
        ),
    decreases entries.len() - n,
{
    if n < entries.len() {
        assert(entries.subrange(0, n + 1).drop_last() =~= entries.subrange(0, n));
        scan_error_stays(c, provider, world, filter, entries, n + 1);
    } else {
        assert(entries.subrange(0, n) =~= entries);
    }
}

}
