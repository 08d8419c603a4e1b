//! Index of the links by which atoms supersede, contradict and confirm each other.

use vstd::prelude::*;
use vstd::string::*;

use crate::atom::{Atom, AtomId, AtomView, LinkKind, LinkView};
use crate::lists;
use crate::table::Table;

verus! {

broadcast use crate::lists::group_views;

/// Which atoms supersede, contradict and confirm which.
#[derive(Debug)]
pub struct ConflictIndex {
    supersedes: Table<AtomId>,
    contradicts: Table<Vec<AtomId>>,
    confirms: Table<Vec<AtomId>>,
}

/// Model of the index: for each atom the one that superseded it last, and those that
/// contradict and confirm it, in the order in which they came.
#[verifier::ext_equal]
pub ghost struct ConflictView {
    pub supersedes: Map<Seq<char>, Seq<char>>,
    pub contradicts: Map<Seq<char>, Seq<Seq<char>>>,
    pub confirms: Map<Seq<char>, Seq<Seq<char>>>,
}

/// The list of a key, empty where there is none.
pub open spec fn listed(map: Map<Seq<char>, Seq<Seq<char>>>, key: Seq<char>) -> Seq<Seq<char>> {
    if map.contains_key(key) {
        map[key]
    } else {
        Seq::empty()
    }
}

/// The map with an id put at the end of the list of a key.
pub open spec fn with_listed(
    map: Map<Seq<char>, Seq<Seq<char>>>,
    key: Seq<char>,
    id: Seq<char>,
) -> Map<Seq<char>, Seq<Seq<char>>> {
    map.insert(key, listed(map, key).push(id))
}

impl ConflictView {
    pub open spec fn empty() -> ConflictView {
        ConflictView {
            supersedes: Map::empty(),
            contradicts: Map::empty(),
            confirms: Map::empty(),
        }
    }

    /// The index after one link of the atom `id`.
    pub open spec fn linked(self, id: Seq<char>, link: LinkView) -> ConflictView {
        match link.kind {
            LinkKind::Supersedes => ConflictView {
                supersedes: self.supersedes.insert(link.target, id),
                ..self
            },
            LinkKind::Contradicts => ConflictView {
                contradicts: with_listed(self.contradicts, link.target, id),
                ..self
            },
            LinkKind::Confirms => ConflictView {
                confirms: with_listed(self.confirms, link.target, id),
                ..self
            },
            LinkKind::References => self,
        }
    }

    /// The index after the links of the atom `id`, one after the other.
    pub open spec fn linked_all(self, id: Seq<char>, links: Seq<LinkView>) -> ConflictView
        decreases links.len(),
    {
        if links.len() == 0 {
            self
        } else {
            self.linked_all(id, links.drop_last()).linked(id, links.last())
        }
    }

    /// The index after an atom.
    pub open spec fn registered(self, atom: AtomView) -> ConflictView {
        self.linked_all(atom.id, atom.links)
    }
}

impl View for ConflictIndex {
    type V = ConflictView;

    closed spec fn view(&self) -> ConflictView {
        ConflictView {
            supersedes: self.supersedes.map().map_values(|id: AtomId| id@),
            contradicts: self.contradicts.map().map_values(|ids: Vec<AtomId>| lists::views(ids@)),
            confirms: self.confirms.map().map_values(|ids: Vec<AtomId>| lists::views(ids@)),
        }
    }
}

/// Puts an id at the end of the list of a key.
fn push_listed(table: &mut Table<Vec<AtomId>>, key: &str, id: AtomId)
    ensures
        final(table).map().map_values(|ids: Vec<AtomId>| lists::views(ids@)) == with_listed(
            old(table).map().map_values(|ids: Vec<AtomId>| lists::views(ids@)),
            key@,
            id@,
        ),
{
    let ghost f = |ids: Vec<AtomId>| lists::views(ids@);
    let ghost before = table.map();
    match table.position(key) {
        Some(i) => {
            let mut ids = table.replace_at(i, Vec::new());
            let ghost had = ids@;
            ids.push(id);
            let _ = table.replace_at(i, ids);
            assert(lists::views(ids@) == lists::views(had).push(id@));
            assert(table.map().map_values(f) =~= with_listed(before.map_values(f), key@, id@));
        },
        None => {
            let mut ids: Vec<AtomId> = Vec::new();
            ids.push(id);
            table.insert(key, ids);
            assert(lists::views(ids@) == Seq::<Seq<char>>::empty().push(id@));
            assert(table.map().map_values(f) =~= with_listed(before.map_values(f), key@, id@));
        },
    }
}

impl Default for ConflictIndex {
    fn default() -> (r: Self)
        ensures
            r@ == ConflictView::empty(),
    {
        let r = ConflictIndex {
            supersedes: Table::new(),
            contradicts: Table::new(),
            confirms: Table::new(),
        };
        assert(r@ =~= ConflictView::empty());
        r
    }
}

impl ConflictIndex {
    /// Takes in the links of an atom.
    pub fn register(&mut self, atom: &Atom)
        ensures
            final(self)@ == old(self)@.registered(atom@),
    {
        let links = atom.links();
        let ghost before = self@;
        let ghost models = lists::views(links@);
        for i in 0..links.len()
            invariant
                models == lists::views(links@),
                models == atom@.links,
                self@ == before.linked_all(atom@.id, models.subrange(0, i as int)),
        {
            let link = &links[i];
            proof {
                let upto = models.subrange(0, i + 1);
                assert(upto.drop_last() == models.subrange(0, i as int));
                assert(upto.last() == link@);
            }
            let ghost step = self@;
            match link.kind {
                LinkKind::Supersedes => {
                    self.supersedes.insert(link.target.text(), atom.id().clone());
                    assert(self@ =~= step.linked(atom@.id, link@));
                },
                LinkKind::Contradicts => {
                    push_listed(&mut self.contradicts, link.target.text(), atom.id().clone());
                },
                LinkKind::Confirms => {
                    push_listed(&mut self.confirms, link.target.text(), atom.id().clone());
                },
                LinkKind::References => {},
            }
        }
        assert(models.subrange(0, models.len() as int) == models);
    }

    /// The atom that superseded an atom last.
    pub fn superseded_by(&self, id: &AtomId) -> (r: Option<AtomId>)
        ensures
            lists::opt_view(r) == self@.supersedes.get(id@),
    {
        match self.supersedes.get(id.text()) {
            Some(by) => Some(by.clone()),
            None => None,
        }
    }

    /// How often an atom is contradicted.
    pub fn contradiction_count(&self, id: &AtomId) -> (r: usize)
        ensures
            r == listed(self@.contradicts, id@).len(),
    {
        match self.contradicts.get(id.text()) {
            Some(ids) => ids.len(),
            None => 0,
        }
    }

    /// How often an atom is confirmed.
    pub fn confirmation_count(&self, id: &AtomId) -> (r: usize)
        ensures
            r == listed(self@.confirms, id@).len(),
    {
        match self.confirms.get(id.text()) {
            Some(ids) => ids.len(),
            None => 0,
        }
    }
}

/// How many of the links are of the kind and to the target.
pub open spec fn count_links(
    links: Seq<LinkView>,
    kind: LinkKind,
    target: Seq<char>,
) -> nat
    decreases links.len(),
{
    if links.len() == 0 {
        0
    } else {
        count_links(links.drop_last(), kind, target) + if links.last() == (LinkView {
            target,
            kind,
        }) {
            1nat
        } else {
            0
        }
    }
}

/// Registering an atom adds to the contradictions and confirmations of every other atom
/// as many as the atom has links of that kind to it, and makes the atom the one that
/// supersedes exactly those it has such a link to; everything else is as before.
pub proof fn registering_counts_links(index: ConflictView, atom: AtomView, target: Seq<char>)
    ensures
        ({
            let after = index.registered(atom);
            &&& listed(after.contradicts, target).len() == listed(index.contradicts, target).len()
                + count_links(atom.links, LinkKind::Contradicts, target)
            &&& listed(after.confirms, target).len() == listed(index.confirms, target).len()
                + count_links(atom.links, LinkKind::Confirms, target)
            &&& after.supersedes.get(target) == if count_links(
                atom.links,
                LinkKind::Supersedes,
                target,
            ) > 0 {
                Some(atom.id)
            } else {
                index.supersedes.get(target)
            }
        }),
{
    linking_counts(index, atom.id, atom.links, target);
}

proof fn linking_counts(
    index: ConflictView,
    id: Seq<char>,
    links: Seq<LinkView>,
    target: Seq<char>,
)
    ensures
        ({
            let after = index.linked_all(id, links);
            &&& listed(after.contradicts, target).len() == listed(index.contradicts, target).len()
                + count_links(links, LinkKind::Contradicts, target)
            &&& listed(after.confirms, target).len() == listed(index.confirms, target).len()
                + count_links(links, LinkKind::Confirms, target)
            &&& after.supersedes.get(target) == if count_links(links, LinkKind::Supersedes, target)
                > 0 {
                Some(id)
            } else {
                index.supersedes.get(target)
            }
        }),
    decreases links.len(),
{
    if links.len() > 0 {
        linking_counts(index, id, links.drop_last(), target);
        let link = links.last();
        let middle = index.linked_all(id, links.drop_last());
        assert(link == (LinkView { target: link.target, kind: link.kind }));
    }
}

}
