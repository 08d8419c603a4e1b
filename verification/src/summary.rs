//! Summaries that worlds advertise.

use vstd::prelude::*;
use vstd::string::*;

use crate::atom::WorldKey;
use crate::lists;
use crate::lists::Duplicate;
use crate::model::SummaryWindow;
use crate::table::Table;
use crate::text;

verus! {

broadcast use crate::lists::group_views;

/// Advertises summary availability for a world.
#[derive(Debug, PartialEq)]
pub struct SummaryAdvert {
    pub world: WorldKey,
    pub windows: Vec<SummaryWindow>,
    pub digest: String,
}

/// Model of an advert.
#[verifier::ext_equal]
pub ghost struct AdvertView {
    pub world: Seq<char>,
    pub windows: Seq<SummaryWindow>,
    pub digest: Seq<char>,
}

impl View for SummaryAdvert {
    type V = AdvertView;

    open spec fn view(&self) -> AdvertView {
        AdvertView { world: self.world@, windows: self.windows@, digest: self.digest@ }
    }
}

impl SummaryAdvert {
    pub fn new(world: WorldKey, windows: Vec<SummaryWindow>, digest: &str) -> (r: Self)
        ensures
            r@ == (AdvertView { world: world@, windows: windows@, digest: digest@ }),
    {
        SummaryAdvert { world, windows, digest: digest.to_owned() }
    }
}

impl Clone for SummaryAdvert {
    fn clone(&self) -> (r: Self)
        ensures
            r@ == self@,
    {
        let mut windows: Vec<SummaryWindow> = Vec::new();
        for i in 0..self.windows.len()
            invariant
                windows@ == self.windows@.subrange(0, i as int),
        {
            windows.push(self.windows[i]);
        }
        assert(windows@ == self.windows@);
        SummaryAdvert { world: self.world.clone(), windows, digest: self.digest.clone() }
    }
}

impl Duplicate for SummaryAdvert {
    fn duplicate(&self) -> (r: Self) {
        self.clone()
    }
}

/// In-memory catalog of summaries; read-only queries with simple upserts.
#[derive(Debug)]
pub struct SummaryCatalog {
    entries: Table<Vec<SummaryAdvert>>,
}

/// The adverts of a world with one put in: in the place of the first with the same digest,
/// or at the end.
pub open spec fn upserted(adverts: Seq<AdvertView>, advert: AdvertView) -> Seq<AdvertView>
    decreases adverts.len(),
{
    if adverts.len() == 0 {
        seq![advert]
    } else if adverts[0].digest == advert.digest {
        adverts.update(0, advert)
    } else {
        seq![adverts[0]] + upserted(adverts.drop_first(), advert)
    }
}

/// The adverts of a world, none where it is not in the catalog.
pub open spec fn adverts_of(
    catalog: Map<Seq<char>, Seq<AdvertView>>,
    world: Seq<char>,
) -> Seq<AdvertView> {
    if catalog.contains_key(world) {
        catalog[world]
    } else {
        Seq::empty()
    }
}

/// The catalog with an advert put in.
pub open spec fn with_advert(
    catalog: Map<Seq<char>, Seq<AdvertView>>,
    advert: AdvertView,
) -> Map<Seq<char>, Seq<AdvertView>> {
    catalog.insert(advert.world, upserted(adverts_of(catalog, advert.world), advert))
}

impl View for SummaryCatalog {
    type V = Map<Seq<char>, Seq<AdvertView>>;

    closed spec fn view(&self) -> Map<Seq<char>, Seq<AdvertView>> {
        self.entries.map().map_values(|a: Vec<SummaryAdvert>| lists::views(a@))
    }
}

/// The position of the first advert with a digest, or the number of adverts.
fn position_of_digest(adverts: &Vec<SummaryAdvert>, digest: &str) -> (r: usize)
    ensures
        r <= adverts@.len(),
        r < adverts@.len() ==> adverts@[r as int].digest@ == digest@,
        forall|j: int| 0 <= j < r ==> #[trigger] adverts@[j].digest@ != digest@,
{
    let mut i: usize = 0;
    while i < adverts.len() && !text::same(adverts[i].digest.as_str(), digest)
        invariant
            i <= adverts@.len(),
            forall|j: int| 0 <= j < i ==> #[trigger] adverts@[j].digest@ != digest@,
        decreases adverts@.len() - i,
    {
        i = i + 1;
    }
    i
}

/// Where the first advert with the digest is known, so is the list with an advert put in.
proof fn upserted_at(adverts: Seq<AdvertView>, advert: AdvertView, at: int)
    requires
        0 <= at <= adverts.len(),
        at < adverts.len() ==> adverts[at].digest == advert.digest,
        forall|j: int| 0 <= j < at ==> #[trigger] adverts[j].digest != advert.digest,
    ensures
        upserted(adverts, advert) == if at < adverts.len() {
            adverts.update(at, advert)
        } else {
            adverts.push(advert)
        },
    decreases adverts.len(),
{
    if adverts.len() > 0 {
        if at == 0 {
        } else {
            let rest = adverts.drop_first();
            assert(adverts[0].digest != advert.digest);
            assert forall|j: int| 0 <= j < at - 1 implies #[trigger] rest[j].digest
                != advert.digest by {
                assert(adverts[j + 1].digest != advert.digest);
            }
            upserted_at(rest, advert, at - 1);
            if at < adverts.len() {
                assert(seq![adverts[0]] + rest.update(at - 1, advert) =~= adverts.update(
                    at,
                    advert,
                ));
            } else {
                assert(seq![adverts[0]] + rest.push(advert) =~= adverts.push(advert));
            }
        }
    } else {
        assert(adverts.push(advert) =~= seq![advert]);
    }
}

/// The adverts with one put in.
fn put_advert(adverts: Vec<SummaryAdvert>, advert: SummaryAdvert) -> (r: Vec<SummaryAdvert>)
    ensures
        lists::views(r@) == upserted(lists::views(adverts@), advert@),
{
    let mut list = adverts;
    let at: usize = position_of_digest(&list, advert.digest.as_str());
    let ghost models = lists::views(adverts@);
    proof {
        assert forall|j: int| 0 <= j < at implies #[trigger] models[j].digest
            != advert@.digest by {
            assert(adverts@[j].digest@ != advert@.digest);
        }
        upserted_at(models, advert@, at as int);
    }
    if at < list.len() {
        let ghost model = advert@;
        list.set(at, advert);
        assert(lists::views(list@) =~= models.update(at as int, model));
    } else {
        list.push(advert);
    }
    list
}

/// No world has an empty list.
pub open spec fn lists_no_empty(catalog: Map<Seq<char>, Seq<AdvertView>>) -> bool {
    forall|w: Seq<char>| #[trigger] catalog.contains_key(w) ==> catalog[w].len() > 0
}

impl SummaryCatalog {
    /// A world is in the catalog only with its adverts.
    #[verifier::type_invariant]
    spec fn is_sound(self) -> bool {
        lists_no_empty(self@)
    }

    pub fn new() -> (r: Self)
        ensures
            r@ == Map::<Seq<char>, Seq<AdvertView>>::empty(),
    {
        let r = SummaryCatalog { entries: Table::new() };
        assert(r@ =~= Map::<Seq<char>, Seq<AdvertView>>::empty());
        r
    }

    /// Upsert a summary advert, replacing any existing advert for the same digest.
    pub fn upsert(&mut self, advert: SummaryAdvert)
        ensures
            final(self)@ == with_advert(old(self)@, advert@),
    {
        let ghost before = self@;
        let ghost model = advert@;
        proof {
            use_type_invariant(&*self);
            upserted_has(adverts_of(before, model.world), model);
        }
        let world = advert.world.clone();
        let mut entries: Table<Vec<SummaryAdvert>> = Table::new();
        std::mem::swap(&mut self.entries, &mut entries);
        match entries.position(world.text()) {
            Some(i) => {
                let adverts = entries.replace_at(i, Vec::new());
                let next = put_advert(adverts, advert);
                let _ = entries.replace_at(i, next);
            },
            None => {
                let next = put_advert(Vec::new(), advert);
                entries.insert(world.text(), next);
            },
        }
        proof {
            let after = entries.map().map_values(|a: Vec<SummaryAdvert>| lists::views(a@));
            assert(after =~= with_advert(before, model));
            assert(lists_no_empty(after));
        }
        self.entries = entries;
    }

    /// List adverts known for a world (cloned).
    pub fn list(&self, world: &WorldKey) -> (r: Vec<SummaryAdvert>)
        ensures
            lists::views(r@) == adverts_of(self@, world@),
    {
        match self.entries.get(world.text()) {
            Some(adverts) => lists::duplicate_all(adverts.as_slice()),
            None => Vec::new(),
        }
    }

    /// List worlds with known adverts.
    pub fn worlds(&self) -> (r: Vec<WorldKey>)
        ensures
            lists::views(r@).no_duplicates(),
            forall|w: Seq<char>| #[trigger]
                lists::views(r@).contains(w) <==> adverts_of(self@, w).len() > 0,
    {
        proof {
            use_type_invariant(self);
        }
        let n: usize = self.entries.len();
        let mut out: Vec<WorldKey> = Vec::new();
        for i in 0..n
            invariant
                n == self.entries.spec_keys().len(),
                lists::views(out@) == self.entries.spec_keys().subrange(0, i as int),
        {
            out.push(WorldKey::new(self.entries.key_at(i)));
            assert(lists::views(out@) =~= self.entries.spec_keys().subrange(0, i + 1));
        }
        assert(lists::views(out@) =~= self.entries.spec_keys());
        out
    }
}

impl Default for SummaryCatalog {
    fn default() -> (r: Self)
        ensures
            r@ == Map::<Seq<char>, Seq<AdvertView>>::empty(),
    {
        SummaryCatalog::new()
    }
}

/// A catalog without empty lists stays so when an advert is put in: it names a world exactly
/// when it has adverts for it.
pub proof fn named_worlds_have_adverts(
    catalog: Map<Seq<char>, Seq<AdvertView>>,
    advert: AdvertView,
    world: Seq<char>,
)
    requires
        lists_no_empty(catalog),
    ensures
        lists_no_empty(with_advert(catalog, advert)),
        with_advert(catalog, advert).contains_key(world) <==> adverts_of(
            with_advert(catalog, advert),
            world,
        ).len() > 0,
{
    upserted_has(adverts_of(catalog, advert.world), advert);
}

/// An advert that was put in is listed under its world.
pub proof fn upsert_is_listed(
    catalog: Map<Seq<char>, Seq<AdvertView>>,
    advert: AdvertView,
)
    ensures
        adverts_of(with_advert(catalog, advert), advert.world).contains(advert),
{
    upserted_has(adverts_of(catalog, advert.world), advert);
}

proof fn upserted_has(adverts: Seq<AdvertView>, advert: AdvertView)
    ensures
        upserted(adverts, advert).contains(advert),
    decreases adverts.len(),
{
    let after = upserted(adverts, advert);
    if adverts.len() == 0 {
        assert(after[0] == advert);
    } else if adverts[0].digest == advert.digest {
        assert(after[0] == advert);
    } else {
        upserted_has(adverts.drop_first(), advert);
        let i = choose|i: int|
            0 <= i < upserted(adverts.drop_first(), advert).len() && upserted(
                adverts.drop_first(),
                advert,
            )[i] == advert;
        assert(after[i + 1] == advert);
    }
}

/// Putting the same advert in twice is the same as putting it in once.
pub proof fn upsert_is_idempotent(
    catalog: Map<Seq<char>, Seq<AdvertView>>,
    advert: AdvertView,
)
    ensures
        with_advert(with_advert(catalog, advert), advert) == with_advert(catalog, advert),
{
    let once = with_advert(catalog, advert);
    upserted_twice(adverts_of(catalog, advert.world), advert);
    assert(with_advert(once, advert) =~= once);
}

proof fn upserted_twice(adverts: Seq<AdvertView>, advert: AdvertView)
    ensures
        upserted(upserted(adverts, advert), advert) == upserted(adverts, advert),
    decreases adverts.len(),
{
    let once = upserted(adverts, advert);
    if adverts.len() == 0 {
        assert(once.update(0, advert) =~= once);
    } else if adverts[0].digest == advert.digest {
        assert(once.update(0, advert) =~= once);
    } else {
        upserted_twice(adverts.drop_first(), advert);
        assert(once.drop_first() =~= upserted(adverts.drop_first(), advert));
        assert(once[0] == adverts[0]);
    }
}

/// Putting an advert in leaves the adverts of the other worlds as they are.
pub proof fn upsert_leaves_other_worlds(
    catalog: Map<Seq<char>, Seq<AdvertView>>,
    advert: AdvertView,
    world: Seq<char>,
)
    requires
        world != advert.world,
    ensures
        adverts_of(with_advert(catalog, advert), world) == adverts_of(catalog, world),
{
}

}
