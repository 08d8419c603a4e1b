//! Translations of the component's texts.

use vstd::prelude::*;
use vstd::string::*;

use crate::lists;
use crate::lists::sort_texts;
use crate::table::Table;
use crate::text;

verus! {

broadcast use crate::lists::group_views;

/// The texts of each locale, by key.
#[derive(Debug)]
pub struct LocaleBundle {
    locales: Table<Table<String>>,
}

/// Model of the texts of a locale.
pub open spec fn messages_view(t: Table<String>) -> Map<Seq<char>, Seq<char>> {
    t.map().map_values(|s: String| s@)
}

impl View for LocaleBundle {
    type V = Map<Seq<char>, Map<Seq<char>, Seq<char>>>;

    closed spec fn view(&self) -> Map<Seq<char>, Map<Seq<char>, Seq<char>>> {
        self.locales.map().map_values(|t: Table<String>| messages_view(t))
    }
}

/// A copy of the texts of a locale.
fn copy_messages(t: &Table<String>) -> (r: Table<String>)
    ensures
        messages_view(r) == messages_view(*t),
{
    let n: usize = t.len();
    let mut out: Table<String> = Table::new();
    for i in 0..n
        invariant
            n == t.spec_keys().len(),
            forall|k: Seq<char>| #[trigger]
                out.map().contains_key(k) ==> t.map().contains_key(k) && out.map()[k]@
                    == t.map()[k]@,
            forall|j: int|
                0 <= j < i ==> out.map().contains_key(#[trigger] t.spec_keys()[j]),
    {
        let key = t.key_at(i);
        let value = t.value_at(i);
        assert(t.map()[key@] == *value);
        out.insert(key, value.clone());
    }
    proof {
        assert forall|k: Seq<char>| #[trigger]
            messages_view(out).contains_key(k) == messages_view(*t).contains_key(k) by {
            if t.map().contains_key(k) {
                let j = t.spec_keys().index_of(k);
                assert(t.spec_keys()[j] == k);
            }
        }
        assert(messages_view(out) =~= messages_view(*t));
    }
    out
}

impl LocaleBundle {
    /// No texts.
    pub fn new() -> (r: Self)
        ensures
            r@ == Map::<Seq<char>, Map<Seq<char>, Seq<char>>>::empty(),
    {
        let r = LocaleBundle { locales: Table::new() };
        assert(r@ =~= Map::<Seq<char>, Map<Seq<char>, Seq<char>>>::empty());
        r
    }

    /// Sets a text of a locale.
    pub fn add(&mut self, locale: &str, key: &str, message: &str)
        ensures
            final(self)@ == old(self)@.insert(
                locale@,
                (if old(self)@.contains_key(locale@) {
                    old(self)@[locale@]
                } else {
                    Map::empty()
                }).insert(key@, message@),
            ),
    {
        let ghost before = self@;
        let mut messages = match self.locales.get(locale) {
            Some(t) => copy_messages(t),
            None => Table::new(),
        };
        let ghost so_far = messages_view(messages);
        assert(so_far =~= if before.contains_key(locale@) {
            before[locale@]
        } else {
            Map::empty()
        });
        messages.insert(key, message.to_owned());
        let ghost next = messages_view(messages);
        assert(next =~= so_far.insert(key@, message@));
        self.locales.insert(locale, messages);
        assert(self@ =~= before.insert(locale@, next));
    }
}

/// The texts that were unpacked; none if they could not be.
pub fn bundle(unpacked: Option<LocaleBundle>) -> (r: LocaleBundle)
    ensures
        unpacked matches Some(b) ==> r == b,
        unpacked is None ==> r@ == Map::<Seq<char>, Map<Seq<char>, Seq<char>>>::empty(),
{
    match unpacked {
        Some(b) => b,
        None => LocaleBundle::new(),
    }
}

/// The locales to look in: the one that is asked for, its language, and English.
pub open spec fn chain_of(locale: Seq<char>) -> Seq<Seq<char>> {
    let normalized = text::replaced(locale, '_', '-');
    if normalized.contains('-') {
        seq![normalized, text::first_part(normalized, '-'), "en"@]
    } else {
        seq![normalized, "en"@]
    }
}

/// The locales to look in: the one that is asked for, its language, and English.
pub fn locale_chain(locale: &str) -> (r: Vec<String>)
    ensures
        lists::views(r@) == chain_of(locale@),
{
    let normalized = text::replace_char(locale, '_', '-');
    let mut chain: Vec<String> = Vec::new();
    chain.push(normalized.clone());
    if text::split_once(normalized.as_str(), '-').is_some() {
        chain.push(text::before_first(normalized.as_str(), '-').to_owned());
    }
    chain.push("en".to_owned());
    assert(lists::views(chain@) =~= chain_of(locale@));
    chain
}

/// The text of a key in a locale, if there is one.
pub open spec fn message_in(
    b: Map<Seq<char>, Map<Seq<char>, Seq<char>>>,
    locale: Seq<char>,
    key: Seq<char>,
) -> Option<Seq<char>> {
    if b.contains_key(locale) && b[locale].contains_key(key) {
        Some(b[locale][key])
    } else {
        None
    }
}

/// The text of a key in the first of some locales that has one; the key itself if none has.
pub open spec fn message_of(
    b: Map<Seq<char>, Map<Seq<char>, Seq<char>>>,
    locales: Seq<Seq<char>>,
    key: Seq<char>,
) -> Seq<char>
    decreases locales.len(),
{
    if locales.len() == 0 {
        key
    } else {
        match message_in(b, locales[0], key) {
            Some(s) => s,
            None => message_of(b, locales.drop_first(), key),
        }
    }
}

/// The text of a key in a locale; in its language or in English where it has none, and the key
/// itself where no locale has one.
pub fn t(bundle: &LocaleBundle, locale: &str, key: &str) -> (r: String)
    ensures
        r@ == message_of(bundle@, chain_of(locale@), key@),
{
    let chain = locale_chain(locale);
    let ghost all = chain_of(locale@);
    let n: usize = chain.len();
    assert(all.skip(0) =~= all);
    for i in 0..n
        invariant
            n == chain@.len(),
            all == lists::views(chain@),
            message_of(bundle@, all, key@) == message_of(bundle@, all.skip(i as int), key@),
            all == chain_of(locale@),
    {
        let candidate = chain[i].as_str();
        proof {
            assert(all.skip(i as int)[0] == candidate@);
            assert(all.skip(i as int).drop_first() =~= all.skip(i + 1));
        }
        if let Some(messages) = bundle.locales.get(candidate) {
            assert(bundle@[candidate@] == messages_view(*messages));
            if let Some(s) = messages.get(key) {
                return s.clone();
            }
        }
    }
    assert(all.skip(n as int).len() == 0);
    key.to_owned()
}

/// The English texts.
pub open spec fn english(b: Map<Seq<char>, Map<Seq<char>, Seq<char>>>) -> Map<
    Seq<char>,
    Seq<char>,
> {
    if b.contains_key("en"@) {
        b["en"@]
    } else {
        Map::empty()
    }
}

/// Whether texts are in dictionary order, each once.
pub open spec fn is_strictly_sorted(texts: Seq<Seq<char>>) -> bool {
    forall|i: int, j: int|
        0 <= i < j < texts.len() ==> text::before(#[trigger] texts[i], #[trigger] texts[j])
}

/// Whether a list holds the keys of some texts, in dictionary order, each once.
pub open spec fn is_key_list(texts: Map<Seq<char>, Seq<char>>, keys: Seq<Seq<char>>) -> bool {
    &&& is_strictly_sorted(keys)
    &&& forall|k: Seq<char>| #[trigger] keys.contains(k) <==> texts.contains_key(k)
}

/// The keys of the English texts, in dictionary order.
pub open spec fn keys_listed(b: Map<Seq<char>, Map<Seq<char>, Seq<char>>>) -> Seq<Seq<char>> {
    choose|keys: Seq<Seq<char>>| #[trigger] is_key_list(english(b), keys)
}

/// There is only one list of the keys of some texts: two lists of the same bundle are the same.
pub proof fn key_list_is_unique(
    texts: Map<Seq<char>, Seq<char>>,
    a: Seq<Seq<char>>,
    b: Seq<Seq<char>>,
)
    requires
        is_key_list(texts, a),
        is_key_list(texts, b),
    ensures
        a == b,
{
    assert forall|k: Seq<char>| #[trigger] a.contains(k) <==> b.contains(k) by {
        assert(a.contains(k) <==> texts.contains_key(k));
        assert(b.contains(k) <==> texts.contains_key(k));
    }
    sorted_lists_agree(a, b);
}

/// The last text of a sorted list does not come before any in it.
proof fn last_is_latest(a: Seq<Seq<char>>, k: Seq<char>)
    requires
        is_strictly_sorted(a),
        a.contains(k),
    ensures
        k == a.last() || text::before(k, a.last()),
{
    let i = choose|i: int| 0 <= i < a.len() && a[i] == k;
    if i < a.len() - 1 {
        assert(text::before(a[i], a[a.len() - 1]));
    }
}

proof fn sorted_lists_agree(a: Seq<Seq<char>>, b: Seq<Seq<char>>)
    requires
        is_strictly_sorted(a),
        is_strictly_sorted(b),
        forall|k: Seq<char>| #[trigger] a.contains(k) <==> b.contains(k),
    ensures
        a == b,
    decreases a.len(),
{
    if a.len() == 0 {
        if b.len() > 0 {
            assert(b.contains(b[0]));
            assert(a.contains(b[0]));
        }
        assert(a =~= b);
    } else {
        assert(a.contains(a[0]));
        let (x, y) = (a.last(), b.last());
        assert(a[a.len() - 1] == x && a.contains(x));
        assert(b[b.len() - 1] == y && b.contains(y));
        last_is_latest(a, y);
        last_is_latest(b, x);
        if x != y {
            text::before_transitive(x, y, x);
            text::before_irreflexive(x);
        }
        let (c, d) = (a.drop_last(), b.drop_last());
        assert forall|k: Seq<char>| #[trigger] c.contains(k) <==> d.contains(k) by {
            front_holds_all_but_last(a, k);
            front_holds_all_but_last(b, k);
        }
        assert forall|i: int, j: int| 0 <= i < j < c.len() implies text::before(
            #[trigger] c[i],
            #[trigger] c[j],
        ) by {
            assert(text::before(a[i], a[j]));
        }
        assert forall|i: int, j: int| 0 <= i < j < d.len() implies text::before(
            #[trigger] d[i],
            #[trigger] d[j],
        ) by {
            assert(text::before(b[i], b[j]));
        }
        sorted_lists_agree(c, d);
        assert(a =~= c.push(x));
        assert(b =~= d.push(y));
    }
}

/// All of a sorted list but the last is what differs from the last.
proof fn front_holds_all_but_last(a: Seq<Seq<char>>, k: Seq<char>)
    requires
        is_strictly_sorted(a),
        a.len() > 0,
    ensures
        a.drop_last().contains(k) <==> a.contains(k) && k != a.last(),
{
    let front = a.drop_last();
    if front.contains(k) {
        let i = choose|i: int| 0 <= i < front.len() && front[i] == k;
        assert(a[i] == k);
        assert(text::before(a[i], a[a.len() - 1]));
        text::before_irreflexive(k);
    }
    if a.contains(k) && k != a.last() {
        let i = choose|i: int| 0 <= i < a.len() && a[i] == k;
        assert(front[i] == k);
    }
}

/// The keys of the English texts, in dictionary order.
pub fn all_keys(bundle: &LocaleBundle) -> (r: Vec<String>)
    ensures
        lists::views(r@) == keys_listed(bundle@),
        is_key_list(english(bundle@), lists::views(r@)),
{
    let keys = match bundle.locales.get("en") {
        Some(messages) => {
            let n: usize = messages.len();
            assert(bundle@["en"@] == messages_view(*messages));
            assert(messages.spec_keys().no_duplicates());
            messages.key_list()
        },
        None => Vec::new(),
    };
    let ghost names = lists::views(keys@);
    let r = sort_texts(&keys);
    proof {
        let sorted = lists::views(r@);
        names.lemma_multiset_has_no_duplicates();
        assert(sorted.to_multiset() == names.to_multiset());
        sorted.lemma_multiset_has_no_duplicates_conv();
        sorted.to_multiset_ensures();
        names.to_multiset_ensures();
        assert forall|k: Seq<char>| #[trigger] sorted.contains(k) <==> english(
            bundle@,
        ).contains_key(k) by {
            assert(sorted.contains(k) <==> sorted.to_multiset().count(k) > 0);
            assert(names.contains(k) <==> names.to_multiset().count(k) > 0);
        }
        assert forall|i: int, j: int| 0 <= i < j < sorted.len() implies text::before(
            #[trigger] sorted[i],
            #[trigger] sorted[j],
        ) by {
            assert(!text::before(sorted[j], sorted[i]));
            assert(sorted[i] != sorted[j]);
            text::before_total(sorted[i], sorted[j]);
        }
        assert(is_key_list(english(bundle@), sorted));
        key_list_is_unique(english(bundle@), sorted, keys_listed(bundle@));
    }
    r
}

/// The English texts.
pub fn en_messages(bundle: &LocaleBundle) -> (r: Table<String>)
    ensures
        messages_view(r) == english(bundle@),
{
    match bundle.locales.get("en") {
        Some(messages) => copy_messages(messages),
        None => {
            let r: Table<String> = Table::new();
            assert(messages_view(r) =~= Map::empty());
            r
        },
    }
}

/// A text of the locale itself goes before all others, and an English one is better than none.
pub proof fn own_text_comes_first(
    b: Map<Seq<char>, Map<Seq<char>, Seq<char>>>,
    locale: Seq<char>,
    key: Seq<char>,
)
    ensures
        ({
            let normalized = text::replaced(locale, '_', '-');
            message_in(b, normalized, key) matches Some(s) ==> message_of(
                b,
                chain_of(locale),
                key,
            ) == s
        }),
        english(b).contains_key(key) ==> exists|l: Seq<char>|
            #![trigger message_in(b, l, key)]
            chain_of(locale).contains(l) && message_in(b, l, key) == Some(
                message_of(b, chain_of(locale), key),
            ),
{
    let chain = chain_of(locale);
    if english(b).contains_key(key) {
        assert(chain.last() == "en"@);
        some_locale_has_text(b, chain, key);
    }
}

proof fn some_locale_has_text(
    b: Map<Seq<char>, Map<Seq<char>, Seq<char>>>,
    locales: Seq<Seq<char>>,
    key: Seq<char>,
)
    requires
        locales.len() > 0,
        message_in(b, locales.last(), key) is Some,
    ensures
        exists|l: Seq<char>|
            #![trigger message_in(b, l, key)]
            locales.contains(l) && message_in(b, l, key) == Some(message_of(b, locales, key)),
    decreases locales.len(),
{
    if message_in(b, locales[0], key) is Some {
        assert(locales.contains(locales[0]));
    } else {
        let rest = locales.drop_first();
        assert(rest.last() == locales.last());
        some_locale_has_text(b, rest, key);
        let l = choose|l: Seq<char>|
            #![trigger message_in(b, l, key)]
            rest.contains(l) && message_in(b, l, key) == Some(message_of(b, rest, key));
        let i = choose|i: int| 0 <= i < rest.len() && rest[i] == l;
        assert(locales[i + 1] == l);
    }
}

}
