//! What holds of the storage as a whole: what was appended is read back, what was deleted is
//! gone, and a repaired log is sound.

use vstd::prelude::*;
use vstd::string::*;
use vstd::utf8::*;

use crate::atom::AtomView;
use crate::bytes;
use crate::codec;
use crate::db;
use crate::keys::KeyProvider;
use crate::layout;
use crate::model::{ErrorView, FilterView};
use crate::sled_store;
use crate::sled_store::SledStorage;
use crate::text;

verus! {

/// Every key in the log of a world is that of a place before `seq`.
pub open spec fn log_below(c: Map<Seq<u8>, Seq<u8>>, world: Seq<char>, seq: u64) -> bool {
    forall|k: Seq<u8>| #[trigger]
        c.contains_key(k) && text::has_prefix(k, layout::log_prefix(world)) ==> is_place_below(
            k,
            world,
            seq,
        )
}

/// The key is that of a place before `seq` in the log of a world.
pub open spec fn is_place_below(k: Seq<u8>, world: Seq<char>, seq: u64) -> bool {
    exists|s: u64| s < seq && k == #[trigger] layout::log_key(world, s)
}

/// Every key in the log of a world is that of a place in it.
pub open spec fn log_is_clean(c: Map<Seq<u8>, Seq<u8>>, world: Seq<char>) -> bool {
    forall|k: Seq<u8>| #[trigger]
        c.contains_key(k) && text::has_prefix(k, layout::log_prefix(world)) ==> exists|s: u64|
            k == #[trigger] layout::log_key(world, s)
}

/// No entry of the list names the id.
pub open spec fn names_no(entries: Seq<(Seq<u8>, Seq<u8>)>, id: Seq<char>) -> bool {
    forall|i: int|
        0 <= i < entries.len() ==> sled_store::framed_id((#[trigger] entries[i]).1) != Some(id)
}

/// In a clean log that is not used up, the next place lies behind all places that are taken.
pub proof fn next_place_is_behind_all(
    c: Map<Seq<u8>, Seq<u8>>,
    world: Seq<char>,
    seq: u64,
)
    requires
        log_is_clean(c, world),
        sled_store::is_next_seq(c, world, seq),
        !c.contains_key(layout::log_key(world, u64::MAX)),
    ensures
        log_below(c, world, seq),
{
    let prefix = layout::log_prefix(world);
    let last = choose|last: Option<Seq<u8>>| #[trigger]
        db::is_last_key(c, prefix, last) && seq == sled_store::seq_behind(last);
    if let Some(top) = last {
        let t = choose|s: u64| top == #[trigger] layout::log_key(world, s);
        layout::log_key_holds_seq(world, t);
        assert(t != u64::MAX);
        assert forall|k: Seq<u8>| #[trigger]
            c.contains_key(k) && text::has_prefix(k, prefix) implies is_place_below(
            k,
            world,
            seq,
        ) by {
            let s = choose|s: u64| k == #[trigger] layout::log_key(world, s);
            if s > t {
                layout::log_keys_are_in_order(world, t, s);
            }
            assert(s < seq);
        }
    }
}

/// Keys of atoms and of index entries differ from each other and from those of the log.
proof fn keys_are_apart(world: Seq<char>, id: Seq<char>, other: Seq<char>, seq: u64)
    ensures
        layout::atom_key(world, id) != layout::log_key(world, seq),
        layout::index_key(other) != layout::log_key(world, seq),
        layout::atom_key(world, id) != layout::index_key(other),
{
    layout::log_key_holds_seq(world, seq);
    layout::atom_and_index_keys_are_not_in_log(world, id);
    layout::atom_and_index_keys_are_not_in_log(world, other);
    if layout::atom_key(world, id) == layout::index_key(other) {
        bytes::encoding_is_injective(layout::atoms_path(world) + id, "idx/atom/"@ + other);
        reveal_strlit("world/");
        reveal_strlit("idx/atom/");
        assert((layout::atoms_path(world) + id)[0] == 'w');
        assert(("idx/atom/"@ + other)[0] == 'i');
    }
}

/// An atom that was appended is found by its id.
pub proof fn appended_atom_is_found<K: KeyProvider>(
    storage: SledStorage<K>,
    before: Map<Seq<u8>, Seq<u8>>,
    after: Map<Seq<u8>, Seq<u8>>,
    world: Seq<char>,
    seq: u64,
    atom: AtomView,
)
    requires
        storage.appends(before, after, world, seq, atom, Ok(())),
        storage.fits(atom),
    ensures
        sled_store::found(after, storage.provider(), atom.id) == Ok::<
            Option<AtomView>,
            ErrorView,
        >(Some(atom)),
{
    let record = appended_record(storage, before, after, world, seq, atom);
    keys_are_apart(world, atom.id, atom.id, seq);
}

/// The record that an append wrote, and what it left behind.
proof fn appended_record<K: KeyProvider>(
    storage: SledStorage<K>,
    before: Map<Seq<u8>, Seq<u8>>,
    after: Map<Seq<u8>, Seq<u8>>,
    world: Seq<char>,
    seq: u64,
    atom: AtomView,
) -> (record: Seq<u8>)
    requires
        storage.appends(before, after, world, seq, atom, Ok(())),
        storage.fits(atom),
    ensures
        atom.world == world,
        sled_store::reads_back(storage.provider(), record, seq, atom),
        after == sled_store::with_record(
            before,
            world,
            seq,
            atom.id,
            record,
            codec::frame_packed(atom.id, sled_store::crc32(record), record.len() as u64)->Ok_0,
        ).insert(layout::index_key(atom.id), codec::entry_packed(world, seq)->Ok_0),
{
    let r = Ok::<(), ErrorView>(());
    let record = choose|record: Result<Seq<u8>, ErrorView>| #[trigger]
        storage.may_encode(atom, record) && sled_store::appends_record(
            before,
            after,
            world,
            seq,
            atom.id,
            record,
            r,
        ) && (r is Ok && storage.fits(atom) ==> sled_store::reads_back(
            storage.provider(),
            record->Ok_0,
            seq,
            atom,
        ));
    record->Ok_0
}

/// The list of the log of a world is longer by one entry after an append behind it.
proof fn append_extends_log<K: KeyProvider>(
    storage: SledStorage<K>,
    before: Map<Seq<u8>, Seq<u8>>,
    after: Map<Seq<u8>, Seq<u8>>,
    world: Seq<char>,
    seq: u64,
    atom: AtomView,
    entries: Seq<(Seq<u8>, Seq<u8>)>,
) -> (frame: Seq<u8>)
    requires
        storage.appends(before, after, world, seq, atom, Ok(())),
        storage.fits(atom),
        log_below(before, world, seq),
        db::is_listing(before, layout::log_prefix(world), entries),
    ensures
        db::is_listing(
            after,
            layout::log_prefix(world),
            entries.push((layout::log_key(world, seq), frame)),
        ),
        sled_store::framed_id(frame) == Some(atom.id),
        sled_store::looked_up(after, storage.provider(), world, atom.id) == Ok::<
            Option<AtomView>,
            ErrorView,
        >(Some(atom)),
        forall|id: Seq<char>|
            id != atom.id ==> after.get(#[trigger] layout::atom_key(world, id)) == before.get(
                layout::atom_key(world, id),
            ),
        seq < u64::MAX ==> log_below(after, world, (seq + 1) as u64),
{
    let record = appended_record(storage, before, after, world, seq, atom);
    let frame = codec::frame_packed(
        atom.id,
        sled_store::crc32(record),
        record.len() as u64,
    )->Ok_0;
    let prefix = layout::log_prefix(world);
    let a = layout::atom_key(world, atom.id);
    let l = layout::log_key(world, seq);
    let x = layout::index_key(atom.id);
    keys_are_apart(world, atom.id, atom.id, seq);
    layout::atom_and_index_keys_are_not_in_log(world, atom.id);
    layout::log_key_holds_seq(world, seq);
    let one = before.insert(a, record);
    db::inserting_elsewhere_keeps_listing(before, prefix, entries, a, record);
    assert forall|i: int| 0 <= i < entries.len() implies bytes::bytes_before(
        (#[trigger] entries[i]).0,
        l,
    ) by {
        let k = entries[i].0;
        assert(before.contains_pair(k, entries[i].1));
        assert(is_place_below(k, world, seq));
        let s = choose|s: u64| s < seq && k == #[trigger] layout::log_key(world, s);
        layout::log_keys_are_in_order(world, s, seq);
    }
    db::inserting_last_extends_listing(one, prefix, entries, l, frame);
    let two = one.insert(l, frame);
    let longer = entries.push((l, frame));
    db::inserting_elsewhere_keeps_listing(
        two,
        prefix,
        longer,
        x,
        codec::entry_packed(world, seq)->Ok_0,
    );
    assert forall|id: Seq<char>| id != atom.id implies after.get(
        #[trigger] layout::atom_key(world, id),
    ) == before.get(layout::atom_key(world, id)) by {
        layout::atom_keys_differ(world, id, atom.id);
        keys_are_apart(world, id, atom.id, seq);
    }
    if seq < u64::MAX {
        let next = (seq + 1) as u64;
        assert forall|k: Seq<u8>| #[trigger]
            after.contains_key(k) && text::has_prefix(k, prefix) implies is_place_below(
            k,
            world,
            next,
        ) by {
            if k == l {
                assert(seq < next);
            } else {
                assert(before.contains_key(k));
                assert(is_place_below(k, world, seq));
                let s = choose|s: u64| s < seq && k == #[trigger] layout::log_key(world, s);
                assert(s < next);
            }
        }
    }
    frame
}

/// A scan of entries that do not name an atom does not depend on the record of that atom.
proof fn scan_is_unchanged<K: KeyProvider>(
    before: Map<Seq<u8>, Seq<u8>>,
    after: Map<Seq<u8>, Seq<u8>>,
    provider: K,
    world: Seq<char>,
    filter: FilterView,
    entries: Seq<(Seq<u8>, Seq<u8>)>,
    id: Seq<char>,
)
    requires
        names_no(entries, id),
        forall|other: Seq<char>|
            other != id ==> after.get(#[trigger] layout::atom_key(world, other)) == before.get(
                layout::atom_key(world, other),
            ),
    ensures
        sled_store::scanned(after, provider, world, filter, entries) == sled_store::scanned(
            before,
            provider,
            world,
            filter,
            entries,
        ),
    decreases entries.len(),
{
    if entries.len() > 0 {
        let rest = entries.drop_last();
        assert(names_no(rest, id)) by {
            assert forall|i: int| 0 <= i < rest.len() implies sled_store::framed_id(
                (#[trigger] rest[i]).1,
            ) != Some(id) by {
                assert(rest[i] == entries[i]);
            }
        }
        scan_is_unchanged(before, after, provider, world, filter, rest, id);
        let last = entries[entries.len() - 1];
        assert(sled_store::framed_id(last.1) != Some(id));
        if let Some(other) = sled_store::framed_id(last.1) {
            assert(after.get(layout::atom_key(world, other)) == before.get(
                layout::atom_key(world, other),
            ));
        }
    }
}

/// An atom that was appended behind the log of its world, and that the log did not name yet,
/// is found last by a scan that lets it through and is not full before it; what the scan
/// found before is found as before.
pub proof fn appended_atom_is_scanned_last<K: KeyProvider>(
    storage: SledStorage<K>,
    before: Map<Seq<u8>, Seq<u8>>,
    after: Map<Seq<u8>, Seq<u8>>,
    world: Seq<char>,
    seq: u64,
    atom: AtomView,
    entries: Seq<(Seq<u8>, Seq<u8>)>,
    filter: FilterView,
)
    requires
        storage.appends(before, after, world, seq, atom, Ok(())),
        storage.fits(atom),
        log_below(before, world, seq),
        db::is_listing(before, layout::log_prefix(world), entries),
        names_no(entries, atom.id),
        filter.world is None || filter.world == Some(world),
        sled_store::scan_of(before, storage.provider(), world, filter) is Ok,
    ensures
        ({
            let found = sled_store::scan_of(before, storage.provider(), world, filter)->Ok_0;
            sled_store::scan_of(after, storage.provider(), world, filter) == Ok::<
                Seq<AtomView>,
                ErrorView,
            >(
                if !sled_store::is_full(found, filter.limit) && filter.admits(atom) {
                    found.push(atom)
                } else {
                    found
                },
            )
        }),
{
    let prefix = layout::log_prefix(world);
    let frame = append_extends_log(storage, before, after, world, seq, atom, entries);
    let longer = entries.push((layout::log_key(world, seq), frame));
    db::listing_is_unique(before, prefix, entries);
    db::listing_is_unique(after, prefix, longer);
    assert(longer.drop_last() =~= entries);
    scan_is_unchanged(before, after, storage.provider(), world, filter, entries, atom.id);
}

/// A batch that was appended to a world, of distinct atoms that its log did not name yet, is
/// replayed behind what the log held, in the order of the batch.
pub proof fn appended_batch_is_replayed_in_order<K: KeyProvider>(
    storage: SledStorage<K>,
    history: Seq<Map<Seq<u8>, Seq<u8>>>,
    world: Seq<char>,
    seq: u64,
    atoms: Seq<AtomView>,
    entries: Seq<(Seq<u8>, Seq<u8>)>,
)
    requires
        storage.appends_all(history, world, seq, atoms, Ok(())),
        forall|i: int| 0 <= i < atoms.len() ==> storage.fits(#[trigger] atoms[i]),
        forall|i: int, j: int|
            0 <= i < j < atoms.len() ==> (#[trigger] atoms[i]).id != (#[trigger] atoms[j]).id,
        log_below(history[0], world, seq),
        seq + atoms.len() <= u64::MAX,
        db::is_listing(history[0], layout::log_prefix(world), entries),
        forall|i: int| 0 <= i < atoms.len() ==> names_no(entries, (#[trigger] atoms[i]).id),
        sled_store::scan_of(history[0], storage.provider(), world, FilterView::all()) is Ok,
    ensures
        sled_store::scan_of(history.last(), storage.provider(), world, FilterView::all()) == Ok::<
            Seq<AtomView>,
            ErrorView,
        >(
            sled_store::scan_of(
                history[0],
                storage.provider(),
                world,
                FilterView::all(),
            )->Ok_0 + atoms,
        ),
{
    let found = sled_store::scan_of(
        history[0],
        storage.provider(),
        world,
        FilterView::all(),
    )->Ok_0;
    let longer = batch_prefix_is_replayed(
        storage,
        history,
        world,
        seq,
        atoms,
        entries,
        atoms.len(),
    );
    assert(atoms.subrange(0, atoms.len() as int) =~= atoms);
    assert(history.last() == history[atoms.len() as int]);
}

proof fn batch_prefix_is_replayed<K: KeyProvider>(
    storage: SledStorage<K>,
    history: Seq<Map<Seq<u8>, Seq<u8>>>,
    world: Seq<char>,
    seq: u64,
    atoms: Seq<AtomView>,
    entries: Seq<(Seq<u8>, Seq<u8>)>,
    n: nat,
) -> (longer: Seq<(Seq<u8>, Seq<u8>)>)
    requires
        n <= atoms.len(),
        storage.appends_all(history, world, seq, atoms, Ok(())),
        forall|i: int| 0 <= i < atoms.len() ==> storage.fits(#[trigger] atoms[i]),
        forall|i: int, j: int|
            0 <= i < j < atoms.len() ==> (#[trigger] atoms[i]).id != (#[trigger] atoms[j]).id,
        log_below(history[0], world, seq),
        seq + atoms.len() <= u64::MAX,
        db::is_listing(history[0], layout::log_prefix(world), entries),
        forall|i: int| 0 <= i < atoms.len() ==> names_no(entries, (#[trigger] atoms[i]).id),
        sled_store::scan_of(history[0], storage.provider(), world, FilterView::all()) is Ok,
    ensures
        sled_store::seq_plus(seq, n) == seq + n,
        log_below(history[n as int], world, (seq + n) as u64),
        db::is_listing(history[n as int], layout::log_prefix(world), longer),
        forall|i: int| n <= i < atoms.len() ==> names_no(longer, (#[trigger] atoms[i]).id),
        sled_store::scan_of(
            history[n as int],
            storage.provider(),
            world,
            FilterView::all(),
        ) == Ok::<Seq<AtomView>, ErrorView>(
            sled_store::scan_of(
                history[0],
                storage.provider(),
                world,
                FilterView::all(),
            )->Ok_0 + atoms.subrange(0, n as int),
        ),
    decreases n,
{
    let provider = storage.provider();
    let all = FilterView::all();
    let found = sled_store::scan_of(history[0], provider, world, all)->Ok_0;
    if n == 0 {
        assert(found + atoms.subrange(0, 0) =~= found);
        entries
    } else {
        let m = (n - 1) as nat;
        let shorter = batch_prefix_is_replayed(
            storage,
            history,
            world,
            seq,
            atoms,
            entries,
            m,
        );
        let atom = atoms[m as int];
        let place = (seq + m) as u64;
        let before = history[m as int];
        let after = history[n as int];
        assert(storage.appends(before, after, world, place, atom, Ok(())));
        let frame = append_extends_log(storage, before, after, world, place, atom, shorter);
        let longer = shorter.push((layout::log_key(world, place), frame));
        appended_atom_is_scanned_last(
            storage,
            before,
            after,
            world,
            place,
            atom,
            shorter,
            all,
        );
        assert(all.admits(atom));
        assert forall|i: int| n <= i < atoms.len() implies names_no(
            longer,
            (#[trigger] atoms[i]).id,
        ) by {
            assert(names_no(shorter, atoms[i].id));
            assert(atoms[m as int].id != atoms[i].id);
            assert forall|j: int| 0 <= j < longer.len() implies sled_store::framed_id(
                (#[trigger] longer[j]).1,
            ) != Some(atoms[i].id) by {
                if j < shorter.len() {
                    assert(longer[j] == shorter[j]);
                }
            }
        }
        assert((found + atoms.subrange(0, m as int)).push(atom) =~= found + atoms.subrange(
            0,
            n as int,
        ));
        longer
    }
}

/// A key that was taken out is gone; the other keys keep their values.
proof fn keys_taken_out(c: Map<Seq<u8>, Seq<u8>>, keys: Seq<Seq<u8>>, k: Seq<u8>)
    ensures
        keys.contains(k) ==> !sled_store::without_keys(c, keys).contains_key(k),
        !keys.contains(k) ==> sled_store::without_keys(c, keys).get(k) == c.get(k),
    decreases keys.len(),
{
    if keys.len() > 0 {
        let rest = keys.drop_last();
        keys_taken_out(c, rest, k);
        if keys.contains(k) && k != keys.last() {
            let i = choose|i: int| 0 <= i < keys.len() && keys[i] == k;
            assert(rest[i] == k);
        }
        if rest.contains(k) {
            let i = choose|i: int| 0 <= i < rest.len() && rest[i] == k;
            assert(keys[i] == k);
        }
        assert(keys[keys.len() - 1] == keys.last());
    }
}

proof fn atoms_taken_out(
    c: Map<Seq<u8>, Seq<u8>>,
    world: Seq<char>,
    ids: Seq<Seq<char>>,
    id: Seq<char>,
)
    requires
        ids.contains(id),
    ensures
        !sled_store::without_atoms(c, world, ids).contains_key(layout::atom_key(world, id)),
        !sled_store::without_atoms(c, world, ids).contains_key(layout::index_key(id)),
    decreases ids.len(),
{
    let rest = ids.drop_last();
    if id != ids.last() {
        let i = choose|i: int| 0 <= i < ids.len() && ids[i] == id;
        assert(rest[i] == id);
        atoms_taken_out(c, world, rest, id);
    } else {
        let before = sled_store::without_atoms(c, world, rest);
    }
}

/// After atoms of a world were deleted, the records and index entries of their ids are gone,
/// and no entry that is left in the log of the world names one of them.
pub proof fn deleted_atoms_are_gone(
    before: Map<Seq<u8>, Seq<u8>>,
    world: Seq<char>,
    ids: Seq<Seq<char>>,
    id: Seq<char>,
    entries: Seq<(Seq<u8>, Seq<u8>)>,
)
    requires
        ids.contains(id),
        db::is_listing(
            sled_store::without_atoms(before, world, ids),
            layout::log_prefix(world),
            entries,
        ),
    ensures
        ({
            let after = sled_store::without_keys(
                sled_store::without_atoms(before, world, ids),
                sled_store::named_among(entries, ids),
            );
            &&& !after.contains_key(layout::atom_key(world, id))
            &&& !after.contains_key(layout::index_key(id))
            &&& forall|k: Seq<u8>| #[trigger]
                after.contains_key(k) && text::has_prefix(k, layout::log_prefix(world))
                    ==> sled_store::framed_id(after[k]) != Some(id)
        }),
{
    let c = sled_store::without_atoms(before, world, ids);
    let named = sled_store::named_among(entries, ids);
    let after = sled_store::without_keys(c, named);
    atoms_taken_out(before, world, ids, id);
    keys_taken_out(c, named, layout::atom_key(world, id));
    keys_taken_out(c, named, layout::index_key(id));
    assert forall|k: Seq<u8>| #[trigger]
        after.contains_key(k) && text::has_prefix(
            k,
            layout::log_prefix(world),
        ) implies sled_store::framed_id(after[k]) != Some(id) by {
        keys_taken_out(c, named, k);
        assert(c.contains_key(k));
        let i = choose|i: int| 0 <= i < entries.len() && (#[trigger] entries[i]).0 == k;
        assert(c.contains_pair(entries[i].0, entries[i].1));
        if sled_store::framed_id(after[k]) == Some(id) {
            named_entry_is_among(entries, ids, i);
        }
    }
}

proof fn named_entry_is_among(
    entries: Seq<(Seq<u8>, Seq<u8>)>,
    ids: Seq<Seq<char>>,
    i: int,
)
    requires
        0 <= i < entries.len(),
        sled_store::framed_id(entries[i].1) matches Some(id) && ids.contains(id),
    ensures
        sled_store::named_among(entries, ids).contains(entries[i].0),
    decreases entries.len(),
{
    let rest = entries.drop_last();
    let before = sled_store::named_among(rest, ids);
    let after = sled_store::named_among(entries, ids);
    if i < rest.len() {
        named_entry_is_among(rest, ids, i);
        let j = choose|j: int| 0 <= j < before.len() && before[j] == entries[i].0;
        assert(after[j] == entries[i].0);
    } else {
        assert(after.last() == entries[i].0);
    }
}

/// After the clean log of a world was repaired, no entry that is left in it is broken.
pub proof fn repaired_log_is_sound(
    c: Map<Seq<u8>, Seq<u8>>,
    world: Seq<char>,
    entries: Seq<(Seq<u8>, Seq<u8>)>,
    k: Seq<u8>,
)
    requires
        log_is_clean(c, world),
        db::is_listing(c, layout::log_prefix(world), entries),
        sled_store::repaired(c, world).contains_key(k),
        text::has_prefix(k, layout::log_prefix(world)),
    ensures
        !sled_store::is_broken(
            sled_store::repaired(c, world),
            world,
            (k, sled_store::repaired(c, world)[k]),
        ),
{
    let prefix = layout::log_prefix(world);
    db::listing_is_unique(c, prefix, entries);
    let after = sled_store::repaired(c, world);
    let found = sled_store::broken_at(c, world, entries);
    if let Some(bad) = found {
        let gone = sled_store::keys_from(entries, bad);
        keys_taken_out(c, gone, k);
        assert(c.contains_key(k));
        let i = choose|i: int| 0 <= i < entries.len() && (#[trigger] entries[i]).0 == k;
        assert(c.contains_pair(entries[i].0, entries[i].1));
        let s = choose|s: u64| k == #[trigger] layout::log_key(world, s);
        layout::log_key_holds_seq(world, s);
        if s >= bad {
            late_key_is_gone(entries, bad, i);
        }
        early_entry_is_whole(c, world, entries, i);
        if let Ok(frame) = codec::frame_unpacked(entries[i].1) {
            let a = layout::atom_key(world, frame.0);
            layout::atom_and_index_keys_are_not_in_log(world, frame.0);
            keys_taken_out(c, gone, a);
            if gone.contains(a) {
                gone_keys_are_listed(entries, bad, a);
                let j = choose|j: int| 0 <= j < entries.len() && (#[trigger] entries[j]).0 == a;
                assert(text::has_prefix(entries[j].0, prefix));
            }
        }
    } else {
        assert(c.contains_key(k));
        let i = choose|i: int| 0 <= i < entries.len() && (#[trigger] entries[i]).0 == k;
        assert(c.contains_pair(entries[i].0, entries[i].1));
        let s = choose|s: u64| k == #[trigger] layout::log_key(world, s);
        layout::log_key_holds_seq(world, s);
        no_entry_is_broken(c, world, entries, i);
    }
}

proof fn gone_keys_are_listed(entries: Seq<(Seq<u8>, Seq<u8>)>, bad: u64, k: Seq<u8>)
    requires
        sled_store::keys_from(entries, bad).contains(k),
    ensures
        db::lists_key(entries, k),
    decreases entries.len(),
{
    let rest = entries.drop_last();
    let before = sled_store::keys_from(rest, bad);
    let all = sled_store::keys_from(entries, bad);
    let i = choose|i: int| 0 <= i < all.len() && all[i] == k;
    if i < before.len() {
        assert(before[i] == k);
        gone_keys_are_listed(rest, bad, k);
        let j = choose|j: int| 0 <= j < rest.len() && (#[trigger] rest[j]).0 == k;
        assert(entries[j].0 == k);
    } else {
        assert(entries[entries.len() - 1].0 == k);
    }
}

proof fn late_key_is_gone(entries: Seq<(Seq<u8>, Seq<u8>)>, bad: u64, i: int)
    requires
        0 <= i < entries.len(),
        layout::seq_in_key(entries[i].0) matches Some(s) && s >= bad,
    ensures
        sled_store::keys_from(entries, bad).contains(entries[i].0),
    decreases entries.len(),
{
    let rest = entries.drop_last();
    let before = sled_store::keys_from(rest, bad);
    let all = sled_store::keys_from(entries, bad);
    if i < rest.len() {
        late_key_is_gone(rest, bad, i);
        let j = choose|j: int| 0 <= j < before.len() && before[j] == entries[i].0;
        assert(all[j] == entries[i].0);
    } else {
        assert(all.last() == entries[i].0);
    }
}

/// Where no entry was found broken, none with a sequence number is.
proof fn no_entry_is_broken(
    c: Map<Seq<u8>, Seq<u8>>,
    world: Seq<char>,
    entries: Seq<(Seq<u8>, Seq<u8>)>,
    i: int,
)
    requires
        sled_store::broken_at(c, world, entries) is None,
        0 <= i < entries.len(),
        layout::seq_in_key(entries[i].0) is Some,
    ensures
        !sled_store::is_broken(c, world, entries[i]),
    decreases entries.len(),
{
    if i > 0 {
        let rest = entries.drop_first();
        assert(rest[i - 1] == entries[i]);
        no_entry_is_broken(c, world, rest, i - 1);
    }
}

/// An entry of a log whose sequence number is below that of the first broken one is whole.
proof fn early_entry_is_whole(
    c: Map<Seq<u8>, Seq<u8>>,
    world: Seq<char>,
    entries: Seq<(Seq<u8>, Seq<u8>)>,
    i: int,
)
    requires
        log_is_clean(c, world),
        forall|j: int|
            0 <= j < entries.len() ==> c.contains_pair((#[trigger] entries[j]).0, entries[j].1)
                && text::has_prefix(entries[j].0, layout::log_prefix(world)),
        db::ascends(entries),
        0 <= i < entries.len(),
        layout::seq_in_key(entries[i].0) is Some,
        sled_store::broken_at(c, world, entries) matches Some(bad) && layout::seq_in_key(
            entries[i].0,
        )->0 < bad,
    ensures
        !sled_store::is_broken(c, world, entries[i]),
    decreases entries.len(),
{
    let bad = sled_store::broken_at(c, world, entries)->0;
    if layout::seq_in_key(entries[0].0) is Some && sled_store::is_broken(c, world, entries[0]) {
        // The first entry is the broken one; an entry behind it has a larger number.
        assert(c.contains_pair(entries[0].0, entries[0].1));
        assert(c.contains_pair(entries[i].0, entries[i].1));
        let s = choose|s: u64| entries[0].0 == #[trigger] layout::log_key(world, s);
        let t = choose|t: u64| entries[i].0 == #[trigger] layout::log_key(world, t);
        layout::log_key_holds_seq(world, s);
        layout::log_key_holds_seq(world, t);
        layout::log_keys_are_in_order(world, t, s);
        assert(i > 0);
        assert(bytes::bytes_before(entries[0].0, entries[i].0));
        bytes::bytes_before_transitive(entries[0].0, entries[i].0, entries[0].0);
        bytes::bytes_before_irreflexive(entries[0].0);
    } else if i > 0 {
        let rest = entries.drop_first();
        assert(rest[i - 1] == entries[i]);
        assert forall|j: int| 0 <= j < rest.len() implies c.contains_pair(
            (#[trigger] rest[j]).0,
            rest[j].1,
        ) && text::has_prefix(rest[j].0, layout::log_prefix(world)) by {
            assert(rest[j] == entries[j + 1]);
        }
        assert forall|x: int, y: int| 0 <= x < y < rest.len() implies bytes::bytes_before(
            (#[trigger] rest[x]).0,
            (#[trigger] rest[y]).0,
        ) by {
            assert(rest[x] == entries[x + 1] && rest[y] == entries[y + 1]);
        }
        early_entry_is_whole(c, world, rest, i - 1);
    }
}

/// Repairing leaves a log alone in which no entry is broken: nothing that was written is lost
/// by opening the storage again.
pub proof fn whole_log_is_left_alone(
    c: Map<Seq<u8>, Seq<u8>>,
    world: Seq<char>,
    entries: Seq<(Seq<u8>, Seq<u8>)>,
)
    requires
        db::is_listing(c, layout::log_prefix(world), entries),
        forall|i: int|
            0 <= i < entries.len() ==> !sled_store::is_broken(c, world, #[trigger] entries[i]),
    ensures
        sled_store::repaired(c, world) == c,
{
    db::listing_is_unique(c, layout::log_prefix(world), entries);
    nothing_is_found_broken(c, world, entries);
}

proof fn nothing_is_found_broken(
    c: Map<Seq<u8>, Seq<u8>>,
    world: Seq<char>,
    entries: Seq<(Seq<u8>, Seq<u8>)>,
)
    requires
        forall|i: int|
            0 <= i < entries.len() ==> !sled_store::is_broken(c, world, #[trigger] entries[i]),
    ensures
        sled_store::broken_at(c, world, entries) is None,
    decreases entries.len(),
{
    if entries.len() > 0 {
        let rest = entries.drop_first();
        assert forall|i: int| 0 <= i < rest.len() implies !sled_store::is_broken(
            c,
            world,
            #[trigger] rest[i],
        ) by {
            assert(rest[i] == entries[i + 1]);
        }
        nothing_is_found_broken(c, world, rest);
    }
}

/// Repairing the clean log of a world a second time changes nothing.
pub proof fn repairing_again_changes_nothing(
    c: Map<Seq<u8>, Seq<u8>>,
    world: Seq<char>,
    entries: Seq<(Seq<u8>, Seq<u8>)>,
    left: Seq<(Seq<u8>, Seq<u8>)>,
)
    requires
        log_is_clean(c, world),
        db::is_listing(c, layout::log_prefix(world), entries),
        db::is_listing(sled_store::repaired(c, world), layout::log_prefix(world), left),
    ensures
        sled_store::repaired(sled_store::repaired(c, world), world) == sled_store::repaired(
            c,
            world,
        ),
{
    let after = sled_store::repaired(c, world);
    assert forall|i: int| 0 <= i < left.len() implies !sled_store::is_broken(
        after,
        world,
        #[trigger] left[i],
    ) by {
        assert(after.contains_pair(left[i].0, left[i].1));
        repaired_log_is_sound(c, world, entries, left[i].0);
    }
    whole_log_is_left_alone(after, world, left);
}

/// Repairing the log of a world takes out nothing but entries of the log from the first broken
/// one on.
pub proof fn repair_keeps_what_comes_before(
    c: Map<Seq<u8>, Seq<u8>>,
    world: Seq<char>,
    entries: Seq<(Seq<u8>, Seq<u8>)>,
    k: Seq<u8>,
)
    requires
        db::is_listing(c, layout::log_prefix(world), entries),
        !(text::has_prefix(k, layout::log_prefix(world)) && (sled_store::broken_at(
            c,
            world,
            entries,
        ) matches Some(bad) && (layout::seq_in_key(k) matches Some(s) && s >= bad))),
    ensures
        sled_store::repaired(c, world).get(k) == c.get(k),
{
    db::listing_is_unique(c, layout::log_prefix(world), entries);
    if let Some(bad) = sled_store::broken_at(c, world, entries) {
        let gone = sled_store::keys_from(entries, bad);
        keys_taken_out(c, gone, k);
        if gone.contains(k) {
            gone_keys_are_late(entries, bad, k);
            let j = choose|j: int| 0 <= j < entries.len() && (#[trigger] entries[j]).0 == k;
            assert(text::has_prefix(entries[j].0, layout::log_prefix(world)));
        }
    }
}

proof fn gone_keys_are_late(entries: Seq<(Seq<u8>, Seq<u8>)>, bad: u64, k: Seq<u8>)
    requires
        sled_store::keys_from(entries, bad).contains(k),
    ensures
        db::lists_key(entries, k),
        layout::seq_in_key(k) matches Some(s) && s >= bad,
    decreases entries.len(),
{
    gone_keys_are_listed(entries, bad, k);
    let rest = entries.drop_last();
    let before = sled_store::keys_from(rest, bad);
    let all = sled_store::keys_from(entries, bad);
    let i = choose|i: int| 0 <= i < all.len() && all[i] == k;
    if i < before.len() {
        assert(before[i] == k);
        gone_keys_are_late(rest, bad, k);
    }
}

/// Building the index from the log of a world gives every atom that the log names an entry.
pub proof fn logged_atoms_are_indexed(
    c: Map<Seq<u8>, Seq<u8>>,
    world: Seq<char>,
    entries: Seq<(Seq<u8>, Seq<u8>)>,
    i: int,
)
    requires
        0 <= i < entries.len(),
        sled_store::is_indexable(entries[i]),
    ensures
        sled_store::with_index(c, world, entries).contains_key(
            layout::index_key(sled_store::framed_id(entries[i].1)->0),
        ),
    decreases entries.len(),
{
    if i < entries.len() - 1 {
        logged_atoms_are_indexed(c, world, entries.drop_last(), i);
    }
}

/// Building the index changes nothing but index entries.
pub proof fn indexing_keeps_the_rest(
    c: Map<Seq<u8>, Seq<u8>>,
    world: Seq<char>,
    entries: Seq<(Seq<u8>, Seq<u8>)>,
    k: Seq<u8>,
)
    requires
        forall|id: Seq<char>| k != #[trigger] layout::index_key(id),
    ensures
        sled_store::with_index(c, world, entries).get(k) == c.get(k),
    decreases entries.len(),
{
    if entries.len() > 0 {
        indexing_keeps_the_rest(c, world, entries.drop_last(), k);
        if sled_store::is_indexable(entries.last()) {
            assert(k != layout::index_key(sled_store::framed_id(entries.last().1)->0));
        }
    }
}

/// A world that an atom was appended to is listed, under the whole of its name.
pub proof fn appended_world_is_listed<K: KeyProvider>(
    storage: SledStorage<K>,
    before: Map<Seq<u8>, Seq<u8>>,
    after: Map<Seq<u8>, Seq<u8>>,
    world: Seq<char>,
    seq: u64,
    atom: AtomView,
    entries: Seq<(Seq<u8>, Seq<u8>)>,
)
    requires
        storage.appends(before, after, world, seq, atom, Ok(())),
        db::is_listing(after, layout::worlds_prefix(), entries),
        !text::has_infix(world.push('/'), "/atoms/"@),
    ensures
        sled_store::worlds_of(after).contains(world),
{
    let key = layout::log_key(world, seq);
    let record = choose|record: std::result::Result<Seq<u8>, ErrorView>| #[trigger]
        storage.may_encode(atom, record) && sled_store::appends_record(
            before,
            after,
            world,
            seq,
            atom.id,
            record,
            Ok(()),
        );
    assert(after.contains_key(key));
    log_key_is_of_a_world(world, seq);
    assert(db::lists_key(entries, key));
    let i = choose|i: int| 0 <= i < entries.len() && (#[trigger] entries[i]).0 == key;
    layout::keys_name_their_world(world, atom.id, seq);
    named_world_is_listed(entries, i);
    db::listing_is_unique(after, layout::worlds_prefix(), entries);
}

proof fn log_key_is_of_a_world(world: Seq<char>, seq: u64)
    ensures
        text::has_prefix(layout::log_key(world, seq), layout::worlds_prefix()),
{
    let rest = world + "/log/"@ + text::padded(seq as nat, layout::LOG_SEQ_WIDTH as nat);
    assert(layout::log_path(world) + text::padded(seq as nat, layout::LOG_SEQ_WIDTH as nat)
        =~= "world/"@ + rest);
    bytes::encoding_of_joined("world/"@, rest);
    let p = layout::worlds_prefix();
    assert((p + encode_utf8(rest)).subrange(0, p.len() as int) =~= p);
}

proof fn named_world_is_listed(entries: Seq<(Seq<u8>, Seq<u8>)>, i: int)
    requires
        0 <= i < entries.len(),
        layout::world_in_key(entries[i].0) is Some,
    ensures
        sled_store::worlds_named(entries).contains(layout::world_in_key(entries[i].0)->0),
    decreases entries.len(),
{
    let world = layout::world_in_key(entries[i].0)->0;
    let before = sled_store::worlds_named(entries.drop_last());
    let all = sled_store::worlds_named(entries);
    if i < entries.len() - 1 {
        assert(entries.drop_last()[i] == entries[i]);
        named_world_is_listed(entries.drop_last(), i);
        let j = choose|j: int| 0 <= j < before.len() && before[j] == world;
        assert(all[j] == world);
    } else if !before.contains(world) {
        assert(all.last() == world);
    }
}

/// Every world that is listed is named by the key of some entry, and no world is listed twice.
pub proof fn listed_worlds_are_named(entries: Seq<(Seq<u8>, Seq<u8>)>, world: Seq<char>)
    ensures
        sled_store::worlds_named(entries).no_duplicates(),
        sled_store::worlds_named(entries).contains(world) ==> exists|i: int|
            0 <= i < entries.len() && layout::world_in_key((#[trigger] entries[i]).0) == Some(
                world,
            ),
    decreases entries.len(),
{
    if entries.len() > 0 {
        let rest = entries.drop_last();
        listed_worlds_are_named(rest, world);
        if sled_store::worlds_named(entries).contains(world) {
            if sled_store::worlds_named(rest).contains(world) {
                let i = choose|i: int|
                    0 <= i < rest.len() && layout::world_in_key((#[trigger] rest[i]).0) == Some(
                        world,
                    );
                assert(entries[i] == rest[i]);
            } else {
                assert(entries[entries.len() - 1] == entries.last());
            }
        }
    }
}

/// Every world that the key of some entry names is listed.
pub proof fn named_worlds_are_listed(entries: Seq<(Seq<u8>, Seq<u8>)>, i: int, world: Seq<char>)
    requires
        0 <= i < entries.len(),
        layout::world_in_key(entries[i].0) == Some(world),
    ensures
        sled_store::worlds_named(entries).contains(world),
    decreases entries.len(),
{
    let rest = entries.drop_last();
    let before = sled_store::worlds_named(rest);
    let after = sled_store::worlds_named(entries);
    if i < rest.len() {
        assert(rest[i] == entries[i]);
        named_worlds_are_listed(rest, i, world);
        let k = choose|k: int| 0 <= k < before.len() && before[k] == world;
        assert(after[k] == world);
    } else if !before.contains(world) {
        assert(after.last() == world);
    }
}

/// Deleting atoms of a world leaves all other records and index entries alone, and the entries
/// of its log that name none of them; nothing of another world is deleted but index entries of
/// the ids.
pub proof fn deletion_keeps_the_rest(
    before: Map<Seq<u8>, Seq<u8>>,
    world: Seq<char>,
    ids: Seq<Seq<char>>,
    entries: Seq<(Seq<u8>, Seq<u8>)>,
    k: Seq<u8>,
)
    requires
        db::is_listing(
            sled_store::without_atoms(before, world, ids),
            layout::log_prefix(world),
            entries,
        ),
        forall|i: int|
            0 <= i < ids.len() ==> k != layout::atom_key(world, #[trigger] ids[i]) && k
                != layout::index_key(ids[i]),
        before.contains_key(k) && text::has_prefix(k, layout::log_prefix(world))
            && sled_store::framed_id(before[k]) is Some ==> !ids.contains(
            sled_store::framed_id(before[k])->0,
        ),
    ensures
        sled_store::without_keys(
            sled_store::without_atoms(before, world, ids),
            sled_store::named_among(entries, ids),
        ).get(k) == before.get(k),
{
    let c = sled_store::without_atoms(before, world, ids);
    let named = sled_store::named_among(entries, ids);
    other_keys_stay(before, world, ids, k);
    if named.contains(k) {
        named_keys_name_ids(entries, ids, k);
        let i = choose|i: int|
            #![trigger entries[i]]
            0 <= i < entries.len() && entries[i].0 == k && sled_store::framed_id(entries[i].1)
                is Some && ids.contains(sled_store::framed_id(entries[i].1)->0);
        assert(c.contains_pair(entries[i].0, entries[i].1));
        assert(c.get(k) == Some(c[k]));
        assert(before.get(k) == Some(before[k]));
        assert(before[k] == entries[i].1);
    }
    keys_taken_out(c, named, k);
}

proof fn other_keys_stay(
    c: Map<Seq<u8>, Seq<u8>>,
    world: Seq<char>,
    ids: Seq<Seq<char>>,
    k: Seq<u8>,
)
    requires
        forall|i: int|
            0 <= i < ids.len() ==> k != layout::atom_key(world, #[trigger] ids[i]) && k
                != layout::index_key(ids[i]),
    ensures
        sled_store::without_atoms(c, world, ids).get(k) == c.get(k),
    decreases ids.len(),
{
    if ids.len() > 0 {
        let rest = ids.drop_last();
        assert forall|i: int| 0 <= i < rest.len() implies k != layout::atom_key(
            world,
            #[trigger] rest[i],
        ) && k != layout::index_key(rest[i]) by {
            assert(rest[i] == ids[i]);
        }
        other_keys_stay(c, world, rest, k);
        assert(ids[ids.len() - 1] == ids.last());
    }
}

proof fn named_keys_name_ids(
    entries: Seq<(Seq<u8>, Seq<u8>)>,
    ids: Seq<Seq<char>>,
    k: Seq<u8>,
)
    requires
        sled_store::named_among(entries, ids).contains(k),
    ensures
        exists|i: int|
            #![trigger entries[i]]
            0 <= i < entries.len() && entries[i].0 == k && sled_store::framed_id(entries[i].1)
                is Some && ids.contains(sled_store::framed_id(entries[i].1)->0),
    decreases entries.len(),
{
    if entries.len() > 0 {
        let rest = entries.drop_last();
        let before = sled_store::named_among(rest, ids);
        let after = sled_store::named_among(entries, ids);
        let j = choose|j: int| 0 <= j < after.len() && after[j] == k;
        if j < before.len() {
            assert(before[j] == k);
            named_keys_name_ids(rest, ids, k);
            let i = choose|i: int|
                #![trigger rest[i]]
                0 <= i < rest.len() && rest[i].0 == k && sled_store::framed_id(rest[i].1) is Some
                    && ids.contains(sled_store::framed_id(rest[i].1)->0);
            assert(entries[i] == rest[i]);
        } else {
            assert(entries[entries.len() - 1] == entries.last());
        }
    }
}

/// As many entries are deleted as there are in the log that name one of the ids.
pub proof fn deleted_entries_are_counted(
    entries: Seq<(Seq<u8>, Seq<u8>)>,
    entry: (Seq<u8>, Seq<u8>),
    ids: Seq<Seq<char>>,
)
    ensures
        sled_store::named_among(Seq::empty(), ids).len() == 0,
        sled_store::named_among(entries.push(entry), ids).len() == sled_store::named_among(
            entries,
            ids,
        ).len() + if sled_store::framed_id(entry.1) is Some && ids.contains(
            sled_store::framed_id(entry.1)->0,
        ) {
            1nat
        } else {
            0nat
        },
{
    assert(entries.push(entry).drop_last() =~= entries);
}

/// Atoms that are requested by id come in the order of the ids, each that is there; one that
/// cannot be read fails the request.
pub proof fn requested_atoms_come_in_order<K: KeyProvider>(
    c: Map<Seq<u8>, Seq<u8>>,
    provider: K,
    ids: Seq<Seq<char>>,
    id: Seq<char>,
)
    ensures
        sled_store::found_all(c, provider, Seq::empty()) == Ok::<Seq<AtomView>, ErrorView>(
            Seq::empty(),
        ),
        sled_store::found_all(c, provider, ids) matches Err(e) ==> sled_store::found_all(
            c,
            provider,
            ids.push(id),
        ) == Err::<Seq<AtomView>, ErrorView>(e),
        sled_store::found_all(c, provider, ids) matches Ok(atoms) ==> match sled_store::found(
            c,
            provider,
            id,
        ) {
            Ok(Some(atom)) => sled_store::found_all(c, provider, ids.push(id)) == Ok::<
                Seq<AtomView>,
                ErrorView,
            >(atoms.push(atom)),
            Ok(None) => sled_store::found_all(c, provider, ids.push(id)) == Ok::<
                Seq<AtomView>,
                ErrorView,
            >(atoms),
            Err(e) => sled_store::found_all(c, provider, ids.push(id)) == Err::<
                Seq<AtomView>,
                ErrorView,
            >(e),
        },
{
    assert(ids.push(id).drop_last() =~= ids);
}

/// An atom that is found by its id is stored under it, in some world.
pub proof fn found_atom_is_stored<K: KeyProvider>(
    c: Map<Seq<u8>, Seq<u8>>,
    provider: K,
    id: Seq<char>,
    atom: AtomView,
)
    requires
        sled_store::found(c, provider, id) == Ok::<Option<AtomView>, ErrorView>(Some(atom)),
    ensures
        exists|world: Seq<char>|
            #![trigger layout::atom_key(world, id)]
            c.contains_key(layout::atom_key(world, id)) && sled_store::decoded(
                provider,
                c[layout::atom_key(world, id)],
            ) == Ok::<AtomView, ErrorView>(atom),
{
    match sled_store::indexed(c, provider, id) {
        Ok(Some(a)) => {
            let world = codec::entry_unpacked(c[layout::index_key(id)])->Ok_0.0;
            assert(c.contains_key(layout::atom_key(world, id)));
        },
        _ => {
            atom_found_by_key_is_stored(
                c,
                provider,
                id,
                atom,
                db::listing(c, layout::worlds_prefix()),
            );
        },
    }
}

proof fn atom_found_by_key_is_stored<K: KeyProvider>(
    c: Map<Seq<u8>, Seq<u8>>,
    provider: K,
    id: Seq<char>,
    atom: AtomView,
    entries: Seq<(Seq<u8>, Seq<u8>)>,
)
    requires
        sled_store::found_by_key(c, provider, id, entries) == Ok::<Option<AtomView>, ErrorView>(
            Some(atom),
        ),
    ensures
        exists|world: Seq<char>|
            #![trigger layout::atom_key(world, id)]
            c.contains_key(layout::atom_key(world, id)) && sled_store::decoded(
                provider,
                c[layout::atom_key(world, id)],
            ) == Ok::<AtomView, ErrorView>(atom),
    decreases entries.len(),
{
    if entries.len() > 0 {
        let rest = entries.drop_last();
        match sled_store::found_by_key(c, provider, id, rest) {
            Ok(Some(a)) => {
                atom_found_by_key_is_stored(c, provider, id, atom, rest);
            },
            _ => {
                let world = layout::world_in_key(entries.last().0)->0;
                assert(c.contains_key(layout::atom_key(world, id)));
            },
        }
    }
}

/// An atom that is stored in a world is found by its id where the index names that world,
/// wherever else it may be.
pub proof fn index_leads_to_the_atom<K: KeyProvider>(
    c: Map<Seq<u8>, Seq<u8>>,
    provider: K,
    id: Seq<char>,
    world: Seq<char>,
    seq: u64,
    atom: AtomView,
)
    requires
        c.contains_key(layout::index_key(id)),
        codec::entry_unpacked(c[layout::index_key(id)]) == Ok::<(Seq<char>, u64), Seq<char>>(
            (world, seq),
        ),
        c.contains_key(layout::atom_key(world, id)),
        sled_store::decoded(provider, c[layout::atom_key(world, id)]) == Ok::<AtomView, ErrorView>(
            atom,
        ),
    ensures
        sled_store::found(c, provider, id) == Ok::<Option<AtomView>, ErrorView>(Some(atom)),
{
}

/// Of the records of a world those count that can be read and have a vector.
pub proof fn vectors_are_counted<K: KeyProvider>(
    provider: K,
    entries: Seq<(Seq<u8>, Seq<u8>)>,
    entry: (Seq<u8>, Seq<u8>),
)
    ensures
        sled_store::vectors_among(provider, Seq::empty()) == 0,
        sled_store::vectors_among(provider, entries.push(entry)) == sled_store::vectors_among(
            provider,
            entries,
        ) + match sled_store::decoded(provider, entry.1) {
            Ok(atom) => if atom.vector is Some {
                1nat
            } else {
                0nat
            },
            Err(_) => 0nat,
        },
{
    assert(entries.push(entry).drop_last() =~= entries);
}

/// Taking the index away takes away all that is listed under it, and nothing else.
pub proof fn taking_the_index_away_keeps_the_rest(
    c: Map<Seq<u8>, Seq<u8>>,
    listed: Seq<(Seq<u8>, Seq<u8>)>,
    k: Seq<u8>,
)
    requires
        db::is_listing(c, encode_utf8("idx/atom/"@), listed),
    ensures
        text::has_prefix(k, encode_utf8("idx/atom/"@)) ==> !sled_store::unindexed(c).contains_key(k),
        !text::has_prefix(k, encode_utf8("idx/atom/"@)) ==> sled_store::unindexed(c).get(k)
            == c.get(k),
{
    let entries = db::listing(c, layout::index_prefix());
    assert(db::is_listing(c, layout::index_prefix(), entries));
    let keys = sled_store::keys_of(entries);
    keys_taken_out(c, keys, k);
    if keys.contains(k) {
        let i = choose|i: int| 0 <= i < keys.len() && keys[i] == k;
        assert(entries[i].0 == k);
    } else if c.contains_key(k) && text::has_prefix(k, layout::index_prefix()) {
        assert(db::lists_key(entries, k));
        let i = choose|i: int| 0 <= i < entries.len() && (#[trigger] entries[i]).0 == k;
        assert(keys[i] == k);
    }
}

/// The places of a log follow each other by one, and the first comes after the last there can
/// be.
pub proof fn places_follow_each_other(seq: u64, n: nat)
    ensures
        seq < u64::MAX ==> sled_store::seq_after(seq) == seq + 1,
        sled_store::seq_after(u64::MAX) == 0,
        seq + n <= u64::MAX ==> sled_store::seq_plus(seq, n) == seq + n,
        sled_store::seq_behind(None) == 0,
    decreases n,
{
    if n > 0 {
        places_follow_each_other(seq, (n - 1) as nat);
    }
}

/// Building the index of some worlds goes through them one after the other, and repairing
/// their logs does.
pub proof fn worlds_are_gone_through(
    c: Map<Seq<u8>, Seq<u8>>,
    worlds: Seq<Seq<char>>,
    world: Seq<char>,
)
    ensures
        sled_store::repaired_all(c, Seq::empty()) == c,
        sled_store::repaired_all(c, worlds.push(world)) == sled_store::repaired(
            sled_store::repaired_all(c, worlds),
            world,
        ),
        sled_store::reindexed(c, Seq::empty()) == c,
        sled_store::reindexed(c, worlds.push(world)) == sled_store::with_index(
            sled_store::reindexed(c, worlds),
            world,
            db::listing(sled_store::reindexed(c, worlds), layout::log_prefix(world)),
        ),
{
    assert(worlds.push(world).drop_last() =~= worlds);
}

/// The place behind the last one of a log is the next; behind a key that names no place it is
/// the first.
pub proof fn next_place_follows_the_last(world: Seq<char>, n: u64, k: Seq<u8>)
    ensures
        n < u64::MAX ==> sled_store::seq_behind(Some(layout::log_key(world, n))) == n + 1,
        layout::seq_in_key(k) is None ==> sled_store::seq_behind(Some(k)) == 0,
{
    layout::log_key_holds_seq(world, n);
}

/// Those log entries are counted that name a place and an atom.
pub proof fn indexed_entries_are_counted(
    entries: Seq<(Seq<u8>, Seq<u8>)>,
    entry: (Seq<u8>, Seq<u8>),
)
    ensures
        sled_store::indexable(Seq::empty()) == 0,
        sled_store::indexable(entries.push(entry)) == sled_store::indexable(entries) + if
            layout::seq_in_key(entry.0) is Some && codec::frame_unpacked(entry.1) is Ok {
            1nat
        } else {
            0nat
        },
{
    assert(entries.push(entry).drop_last() =~= entries);
}

/// An outcome counts as a failure of the database only if it is one.
pub proof fn success_is_no_failure(r: std::result::Result<(), ErrorView>)
    ensures
        sled_store::failed_in_db(r) ==> r is Err && db::is_db_failure(r->Err_0),
        r matches Err(e) ==> db::is_db_failure(e) ==> sled_store::failed_in_db(r),
{
}

/// No operation changes how a storage encrypts, or whether it makes what it writes durable.
pub proof fn operations_keep_the_settings<K: KeyProvider>(
    before: SledStorage<K>,
    after: SledStorage<K>,
)
    requires
        after.follows(before),
    ensures
        after.provider() == before.provider(),
        after.encrypts() == before.encrypts(),
        after.sealing_key() == before.sealing_key(),
        after.flushes() == before.flushes(),
        after.recorded() == before.recorded(),
{
}

/// A reading that succeeds is exact, and one that fails is either exact or reports a failure of
/// the database.
pub proof fn readings_are_exact<K: KeyProvider, T>(
    s: SledStorage<K>,
    r: std::result::Result<T, ErrorView>,
    exact: std::result::Result<T, ErrorView>,
)
    requires
        s.reads_as(r, exact),
    ensures
        r is Ok ==> r == exact,
        r matches Err(e) ==> !s.reports(e) ==> r == exact,
{
}

/// An entry of a log is whole exactly if its frame can be read, the atom that it names is
/// stored in the world, and the record of the atom has the checksum of the frame.
pub proof fn entry_is_whole_with_its_record(
    c: Map<Seq<u8>, Seq<u8>>,
    world: Seq<char>,
    entry: (Seq<u8>, Seq<u8>),
)
    ensures
        codec::frame_unpacked(entry.1) is Err ==> sled_store::is_broken(c, world, entry),
        codec::frame_unpacked(entry.1) matches Ok(frame) ==> {
            let key = layout::atom_key(world, frame.0);
            sled_store::is_broken(c, world, entry) <==> !c.contains_key(key) || sled_store::crc32(
                c[key],
            ) != frame.1
        },
{
}

/// An atom of another world is refused, and both worlds are told.
pub proof fn atom_of_another_world_is_refused<K: KeyProvider>(
    s: SledStorage<K>,
    before: Map<Seq<u8>, Seq<u8>>,
    after: Map<Seq<u8>, Seq<u8>>,
    world: Seq<char>,
    seq: u64,
    atom: AtomView,
    r: std::result::Result<(), ErrorView>,
)
    requires
        s.appends(before, after, world, seq, atom, r),
        atom.world != world,
    ensures
        after == before,
        r == Err::<(), ErrorView>(
            ErrorView::InvalidInput(
                "atom world "@ + atom.world + " does not match target world "@ + world,
            ),
        ),
{
}

/// Opening a storage whose logs need no repair changes nothing but index entries.
pub proof fn opening_changes_only_the_index(
    on_disk: Map<Seq<u8>, Seq<u8>>,
    c: Map<Seq<u8>, Seq<u8>>,
    indexes: Seq<(Seq<u8>, Seq<u8>)>,
    k: Seq<u8>,
)
    requires
        sled_store::is_opened(on_disk, c),
        forall|i: int|
            0 <= i < sled_store::worlds_of(on_disk).len() ==> sled_store::repaired(
                on_disk,
                #[trigger] sled_store::worlds_of(on_disk)[i],
            ) == on_disk,
        db::is_listing(on_disk, layout::index_prefix(), indexes),
        forall|id: Seq<char>| k != #[trigger] layout::index_key(id),
        !text::has_prefix(k, layout::index_prefix()),
    ensures
        c.get(k) == on_disk.get(k),
{
    let worlds = sled_store::worlds_of(on_disk);
    whole_logs_are_left_alone(on_disk, worlds);
    let mended = sled_store::unindexed(on_disk);
    taking_the_index_away_keeps_the_rest(on_disk, indexes, k);
    reindexing_keeps_the_rest(mended, sled_store::worlds_of(mended), k);
}

proof fn whole_logs_are_left_alone(c: Map<Seq<u8>, Seq<u8>>, worlds: Seq<Seq<char>>)
    requires
        forall|i: int| 0 <= i < worlds.len() ==> sled_store::repaired(c, #[trigger] worlds[i]) == c,
    ensures
        sled_store::repaired_all(c, worlds) == c,
    decreases worlds.len(),
{
    if worlds.len() > 0 {
        let rest = worlds.drop_last();
        assert forall|i: int| 0 <= i < rest.len() implies sled_store::repaired(
            c,
            #[trigger] rest[i],
        ) == c by {
            assert(rest[i] == worlds[i]);
        }
        whole_logs_are_left_alone(c, rest);
        assert(worlds[worlds.len() - 1] == worlds.last());
    }
}

proof fn reindexing_keeps_the_rest(
    c: Map<Seq<u8>, Seq<u8>>,
    worlds: Seq<Seq<char>>,
    k: Seq<u8>,
)
    requires
        forall|id: Seq<char>| k != #[trigger] layout::index_key(id),
    ensures
        sled_store::reindexed(c, worlds).get(k) == c.get(k),
    decreases worlds.len(),
{
    if worlds.len() > 0 {
        let before = sled_store::reindexed(c, worlds.drop_last());
        reindexing_keeps_the_rest(c, worlds.drop_last(), k);
        indexing_keeps_the_rest(
            before,
            worlds.last(),
            db::listing(before, layout::log_prefix(worlds.last())),
            k,
        );
    }
}

}
