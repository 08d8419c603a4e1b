//! The storage on `sled` as a component of an engine.

use vstd::prelude::*;

use crate::atom::{Atom, AtomId, WorldKey};
use crate::calls::StorageCall;
use crate::db;
use crate::engine::StorageEngine;
use crate::keys::KeyProvider;
use crate::layout;
use crate::lists;
use crate::model;
use crate::model::{AtomFilter, Result, StorageStats, TimeWindow};
use crate::sled_store;
use crate::sled_store::SledStorage;

verus! {

broadcast use crate::lists::group_views;

impl<K: KeyProvider> StorageEngine for SledStorage<K> {
    open spec fn history(&self) -> Seq<StorageCall> {
        self.recorded()
    }

    fn append(&mut self, atom: Atom) -> (r: Result<()>)
        ensures
            final(self).same_settings(*old(self)),
            r is Ok && old(self).flushes() ==> final(self).is_flushed(),
            sled_store::failed_in_db(model::done(r)) || exists|
                history: Seq<Map<Seq<u8>, Seq<u8>>>,
                seq: u64,
            | #[trigger]
                old(self).appends_all(
                    history,
                    atom@.world,
                    seq,
                    seq![atom@],
                    model::done(r),
                ) && history[0] == old(self).contents() && history.last()
                    == final(self).contents() && sled_store::starts_at(
                    old(self).contents(),
                    atom@.world,
                    seq,
                    final(self).is_sound_since(*old(self)),
                ),
    {
        let ghost model = atom@;
        let r = SledStorage::append(self, atom);
        self.record(Ghost(StorageCall::Append { atom: model, reply: model::done(r) }));
        r
    }

    fn get_by_ids(&mut self, ids: &[AtomId]) -> (r: Result<Vec<Atom>>)
        ensures
            final(self).same_settings(*old(self)),
            final(self).contents() == old(self).contents(),
            old(self).reads_as(
                model::list_outcome(r),
                sled_store::found_all(
                    old(self).contents(),
                    old(self).provider(),
                    lists::views(ids@),
                ),
            ),
    {
        let r = SledStorage::get_by_ids(&*self, ids);
        self.record(
            Ghost(
                StorageCall::Get { ids: lists::views(ids@), reply: model::list_outcome(r) },
            ),
        );
        r
    }

    fn scan(&mut self, world: &WorldKey, filter: &AtomFilter) -> (r: Result<Vec<Atom>>)
        ensures
            final(self).same_settings(*old(self)),
            final(self).contents() == old(self).contents(),
            old(self).reads_as(
                model::list_outcome(r),
                sled_store::scan_of(
                    old(self).contents(),
                    old(self).provider(),
                    world@,
                    filter@,
                ),
            ),
    {
        let r = SledStorage::scan(&*self, world, filter);
        self.record(
            Ghost(
                StorageCall::Scan {
                    world: world@,
                    filter: filter@,
                    reply: model::list_outcome(r),
                },
            ),
        );
        r
    }

    fn stats(&mut self, world: &WorldKey) -> (r: Result<StorageStats>)
        ensures
            final(self).same_settings(*old(self)),
            final(self).contents() == old(self).contents(),
            r matches Ok(stats) ==> ({
                let entries = db::listing(old(self).contents(), layout::atoms_prefix(world@));
                &&& stats.atom_count == entries.len()
                &&& stats.vector_count == sled_store::vectors_among(old(self).provider(), entries)
            }),
            r matches Err(e) ==> old(self).reports(e@),
    {
        let r = SledStorage::stats(&*self, world);
        self.record(
            Ghost(StorageCall::Stats { world: world@, reply: model::plain_outcome(r) }),
        );
        r
    }

    fn list_ids_in_window(&mut self, world: &WorldKey, window: &TimeWindow) -> (r: Result<
        Vec<AtomId>,
    >)
        ensures
            final(self).same_settings(*old(self)),
            final(self).contents() == old(self).contents(),
            old(self).reads_as(
                model::list_outcome(r),
                sled_store::ids_within(
                    old(self).contents(),
                    old(self).provider(),
                    world@,
                    *window,
                    db::listing(old(self).contents(), layout::log_prefix(world@)),
                ),
            ),
    {
        let r = SledStorage::list_ids_in_window(&*self, world, window);
        self.record(
            Ghost(
                StorageCall::Window {
                    world: world@,
                    window: *window,
                    reply: model::list_outcome(r),
                },
            ),
        );
        r
    }

    fn delete_atoms(&mut self, world: &WorldKey, ids: &[AtomId]) -> (r: Result<usize>)
        ensures
            final(self).same_settings(*old(self)),
            r matches Err(e) ==> db::is_db_failure(e@),
            r is Ok && final(self).is_sound_since(*old(self)) ==> ({
                let c = sled_store::without_atoms(
                    old(self).contents(),
                    world@,
                    lists::views(ids@),
                );
                let entries = db::listing(c, layout::log_prefix(world@));
                let gone = sled_store::named_among(entries, lists::views(ids@));
                &&& r->Ok_0 == gone.len()
                &&& final(self).contents() == sled_store::without_keys(c, gone)
            }),
    {
        let r = SledStorage::delete_atoms(self, world, ids);
        self.record(
            Ghost(
                StorageCall::Delete {
                    world: world@,
                    ids: lists::views(ids@),
                    reply: model::plain_outcome(r),
                },
            ),
        );
        r
    }

    fn worlds(&mut self) -> (r: Result<Vec<WorldKey>>)
        ensures
            final(self).same_settings(*old(self)),
            final(self).contents() == old(self).contents(),
            r matches Ok(worlds) ==> lists::views(worlds@) == sled_store::worlds_of(
                old(self).contents(),
            ),
            r matches Err(e) ==> old(self).reports(e@),
    {
        let r = SledStorage::worlds(&*self);
        self.record(Ghost(StorageCall::Worlds { reply: model::list_outcome(r) }));
        r
    }
}

}
