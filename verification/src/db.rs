//! The ordered key-value store underneath: `sled`.
//!
//! A `sled::Db` is taken for a map from byte strings to byte strings. The handle is owned by
//! one `SledStorage`, which neither copies it nor hands it out, and `sled` locks its files
//! against a second opening, so nothing else changes the map between two calls.

use vstd::prelude::*;
use vstd::string::*;

use crate::bytes;
use crate::lists;
use crate::model::DwbaseError;
use crate::model::ErrorView;
use crate::text;

verus! {

broadcast use crate::lists::group_views;

/// `sled::Db`, an open database.
#[verifier::external_type_specification]
#[verifier::external_body]
pub struct ExDb(sled::Db);

/// `sled::Error`, why an operation on a database failed.
#[verifier::external_type_specification]
#[verifier::external_body]
pub struct ExSledError(sled::Error);

/// What a database maps each key to.
pub uninterp spec fn contents(db: sled::Db) -> Map<Seq<u8>, Seq<u8>>;

/// `sled::open` opens the database at a path, creating it if need be. Nothing is said of
/// what it holds: that is what is on disk.
#[verifier::external_body]
fn db_open(path: &str) -> Result<sled::Db, sled::Error> {
    sled::open(path)
}

/// The `Display` text of a `sled::Error`. Nothing is said of it.
#[verifier::external_body]
fn error_text(e: &sled::Error) -> String {
    e.to_string()
}

/// `sled::Tree::get`: the value of a key, if it has one.
#[verifier::external_body]
fn db_get(db: &sled::Db, key: &[u8]) -> (r: Result<Option<Vec<u8>>, sled::Error>)
    ensures
        r matches Ok(v) ==> lists::opt_view(v) == contents(*db).get(key@),
{
    db.get(key).map(|v| v.map(|b| b.to_vec()))
}

/// `sled::Tree::insert` sets the value of a key. Of what the database holds after a failure
/// nothing is said.
#[verifier::external_body]
fn db_insert(db: &mut sled::Db, key: &[u8], value: &[u8]) -> (r: Result<
    (),
    sled::Error,
>)
    ensures
        r is Ok ==> contents(*final(db)) == contents(*old(db)).insert(key@, value@),
{
    db.insert(key, value).map(|_| ())
}

/// `sled::Tree::remove` takes a key out. Of what the database holds after a failure nothing
/// is said.
#[verifier::external_body]
fn db_remove(db: &mut sled::Db, key: &[u8]) -> (r: Result<(), sled::Error>)
    ensures
        r is Ok ==> contents(*final(db)) == contents(*old(db)).remove(key@),
{
    db.remove(key).map(|_| ())
}

/// `sled::Tree::flush` makes what was written durable; it changes nothing that can be read.
#[verifier::external_body]
fn db_flush(db: &sled::Db) -> Result<(), sled::Error> {
    db.flush().map(|_| ())
}

/// `list` holds the entries whose keys start with `prefix`, in ascending order of the keys.
pub open spec fn is_listing(
    c: Map<Seq<u8>, Seq<u8>>,
    prefix: Seq<u8>,
    list: Seq<(Seq<u8>, Seq<u8>)>,
) -> bool {
    &&& forall|i: int|
        0 <= i < list.len() ==> c.contains_pair((#[trigger] list[i]).0, list[i].1)
            && text::has_prefix(list[i].0, prefix)
    &&& forall|k: Seq<u8>| #[trigger]
        c.contains_key(k) && text::has_prefix(k, prefix) ==> lists_key(list, k)
    &&& ascends(list)
}

/// The keys of the list are in strictly ascending order.
pub open spec fn ascends(list: Seq<(Seq<u8>, Seq<u8>)>) -> bool {
    forall|i: int, j: int|
        0 <= i < j < list.len() ==> bytes::bytes_before(
            (#[trigger] list[i]).0,
            (#[trigger] list[j]).0,
        )
}

/// The key is one of the list.
pub open spec fn lists_key(list: Seq<(Seq<u8>, Seq<u8>)>, k: Seq<u8>) -> bool {
    exists|i: int| 0 <= i < list.len() && (#[trigger] list[i]).0 == k
}

/// The entries whose keys start with `prefix`, in ascending order of the keys.
pub open spec fn listing(c: Map<Seq<u8>, Seq<u8>>, prefix: Seq<u8>) -> Seq<(Seq<u8>, Seq<u8>)> {
    choose|list: Seq<(Seq<u8>, Seq<u8>)>| #[trigger] is_listing(c, prefix, list)
}

/// `sled::Tree::scan_prefix`, read to its end: the entries whose keys start with the prefix,
/// in ascending order of the keys.
#[verifier::external_body]
fn db_list(db: &sled::Db, prefix: &[u8]) -> (r: Result<
    Vec<(Vec<u8>, Vec<u8>)>,
    sled::Error,
>)
    ensures
        r matches Ok(list) ==> is_listing(contents(*db), prefix@, lists::views(list@)),
{
    db.scan_prefix(prefix).map(|entry| entry.map(|(k, v)| (k.to_vec(), v.to_vec()))).collect()
}

/// `sled::Tree::scan_prefix`, read from its end: the largest key that starts with the prefix,
/// if there is one.
#[verifier::external_body]
fn db_last(db: &sled::Db, prefix: &[u8]) -> (r: Result<Option<Vec<u8>>, sled::Error>)
    ensures
        r matches Ok(None) ==> forall|k: Seq<u8>| #[trigger]
            contents(*db).contains_key(k) ==> !text::has_prefix(k, prefix@),
        r matches Ok(Some(last)) ==> contents(*db).contains_key(last@) && text::has_prefix(
            last@,
            prefix@,
        ) && forall|k: Seq<u8>| #[trigger]
            contents(*db).contains_key(k) && text::has_prefix(k, prefix@)
                ==> !bytes::bytes_before(last@, k),
{
    db.scan_prefix(prefix).next_back().transpose().map(|e| e.map(|(k, _)| k.to_vec()))
}

/// Some call on a database, as it was before the call, has answered with an error.
pub closed spec fn answered(db: sled::Db, e: sled::Error) -> bool {
    ||| exists|key: &[u8]| #[trigger]
        call_ensures(db_get, (&db, key), Err::<Option<Vec<u8>>, _>(e))
    ||| exists|d: &mut sled::Db, key: &[u8], value: &[u8]|
        *d == db && #[trigger] call_ensures(db_insert, (d, key, value), Err::<(), _>(e))
    ||| exists|d: &mut sled::Db, key: &[u8]|
        *d == db && #[trigger] call_ensures(db_remove, (d, key), Err::<(), _>(e))
    ||| call_ensures(db_flush, (&db,), Err::<(), _>(e))
    ||| exists|prefix: &[u8]| #[trigger]
        call_ensures(db_list, (&db, prefix), Err::<Vec<(Vec<u8>, Vec<u8>)>, _>(e))
    ||| exists|prefix: &[u8]| #[trigger]
        call_ensures(db_last, (&db, prefix), Err::<Option<Vec<u8>>, _>(e))
}

/// Opening a database at a path has answered with an error.
pub closed spec fn refused(path: Seq<char>, e: sled::Error) -> bool {
    exists|p: &str| p@ == path && #[trigger] call_ensures(db_open, (p,), Err::<sled::Db, _>(e))
}

/// Opening a path has answered with a database.
pub closed spec fn opened(path: Seq<char>, db: sled::Db) -> bool {
    exists|p: &str| p@ == path && #[trigger] call_ensures(db_open, (p,), Ok::<_, sled::Error>(db))
}

/// What was written to a database, as it now is, was made durable.
pub closed spec fn flushed(db: sled::Db) -> bool {
    exists|done: ()| #[trigger] call_ensures(db_flush, (&db,), Ok::<_, sled::Error>(done))
}

/// What the text of an error may be.
pub closed spec fn says(e: sled::Error, detail: Seq<char>) -> bool {
    exists|s: String| s@ == detail && #[trigger] call_ensures(error_text, (&e,), s)
}

/// Whether some call on a database has failed.
pub open spec fn call_failed() -> bool {
    exists|db: sled::Db, e: sled::Error| #[trigger] answered(db, e)
}

/// Whether an error reports an error of the database, in its words.
pub open spec fn reports(e: ErrorView, cause: sled::Error) -> bool {
    exists|detail: Seq<char>| #[trigger]
        says(cause, detail) && e == ErrorView::Storage("sled error: "@ + detail)
}

/// Whether an error reports that a call on a database failed.
pub open spec fn is_failure_of(db: sled::Db, e: ErrorView) -> bool {
    exists|cause: sled::Error| #[trigger] answered(db, cause) && reports(e, cause)
}

/// Whether an error reports that a call on some database failed.
pub open spec fn is_db_failure(e: ErrorView) -> bool {
    exists|db: sled::Db| #[trigger] is_failure_of(db, e)
}

/// Whether an error reports that the database at a path could not be opened.
pub open spec fn is_open_failure(path: Seq<char>, e: ErrorView) -> bool {
    exists|cause: sled::Error| #[trigger] refused(path, cause) && reports(e, cause)
}

/// The error that reports an error of the database.
fn db_failure(e: sled::Error) -> (r: DwbaseError)
    ensures
        reports(r@, e),
{
    let detail = error_text(&e);
    assert(says(e, detail@));
    DwbaseError::Storage(text::joined("sled error: ", detail.as_str()))
}

/// Opens the database at a path.
pub(crate) fn open_at(path: &str) -> (r: Result<sled::Db, DwbaseError>)
    ensures
        r matches Ok(db) ==> opened(path@, db),
        r matches Err(e) ==> is_open_failure(path@, e@),
{
    match db_open(path) {
        Ok(db) => {
            assert(opened(path@, db));
            Ok(db)
        },
        Err(e) => {
            assert(refused(path@, e));
            Err(db_failure(e))
        },
    }
}

/// The value of a key.
pub(crate) fn get_value(db: &sled::Db, key: &[u8]) -> (r: Result<Option<Vec<u8>>, DwbaseError>)
    ensures
        r matches Ok(v) ==> lists::opt_view(v) == contents(*db).get(key@),
        r matches Err(e) ==> is_failure_of(*db, e@) && call_failed(),
{
    match db_get(db, key) {
        Ok(v) => Ok(v),
        Err(e) => {
            assert(answered(*db, e));
            Err(db_failure(e))
        },
    }
}

/// Sets the value of a key.
pub(crate) fn set_value(db: &mut sled::Db, key: &[u8], value: &[u8]) -> (r: Result<
    (),
    DwbaseError,
>)
    ensures
        r is Ok ==> contents(*final(db)) == contents(*old(db)).insert(key@, value@),
        r matches Err(e) ==> is_failure_of(*old(db), e@) && call_failed(),
{
    let ghost before = *db;
    match db_insert(db, key, value) {
        Ok(_) => Ok(()),
        Err(e) => {
            assert(answered(before, e));
            Err(db_failure(e))
        },
    }
}

/// Takes a key out.
pub(crate) fn remove_key(db: &mut sled::Db, key: &[u8]) -> (r: Result<(), DwbaseError>)
    ensures
        r is Ok ==> contents(*final(db)) == contents(*old(db)).remove(key@),
        r matches Err(e) ==> is_failure_of(*old(db), e@) && call_failed(),
{
    let ghost before = *db;
    match db_remove(db, key) {
        Ok(_) => Ok(()),
        Err(e) => {
            assert(answered(before, e));
            Err(db_failure(e))
        },
    }
}

/// Makes what was written durable.
pub(crate) fn flush_all(db: &sled::Db) -> (r: Result<(), DwbaseError>)
    ensures
        r is Ok ==> flushed(*db),
        r matches Err(e) ==> is_failure_of(*db, e@) && call_failed(),
{
    match db_flush(db) {
        Ok(done) => {
            assert(call_ensures(db_flush, (db,), Ok::<(), sled::Error>(done)));
            Ok(())
        },
        Err(e) => {
            assert(answered(*db, e));
            Err(db_failure(e))
        },
    }
}

/// The entries whose keys start with a prefix, in ascending order of the keys.
pub(crate) fn list_entries(db: &sled::Db, prefix: &[u8]) -> (r: Result<
    Vec<(Vec<u8>, Vec<u8>)>,
    DwbaseError,
>)
    ensures
        r matches Ok(list) ==> lists::views(list@) == listing(contents(*db), prefix@),
        r matches Err(e) ==> is_failure_of(*db, e@) && call_failed(),
{
    match db_list(db, prefix) {
        Ok(list) => {
            proof {
                listing_is_unique(contents(*db), prefix@, lists::views(list@));
            }
            Ok(list)
        },
        Err(e) => {
            assert(answered(*db, e));
            Err(db_failure(e))
        },
    }
}

/// `key` is the largest key that starts with `prefix`, if there is one.
pub open spec fn is_last_key(
    c: Map<Seq<u8>, Seq<u8>>,
    prefix: Seq<u8>,
    key: Option<Seq<u8>>,
) -> bool {
    match key {
        None => forall|k: Seq<u8>| #[trigger] c.contains_key(k) ==> !text::has_prefix(k, prefix),
        Some(last) => c.contains_key(last) && text::has_prefix(last, prefix) && forall|k: Seq<u8>|
            #[trigger]
            c.contains_key(k) && text::has_prefix(k, prefix) ==> !bytes::bytes_before(last, k),
    }
}

/// The largest key that starts with a prefix.
pub(crate) fn last_key(db: &sled::Db, prefix: &[u8]) -> (r: Result<Option<Vec<u8>>, DwbaseError>)
    ensures
        r matches Ok(key) ==> is_last_key(contents(*db), prefix@, lists::opt_view(key)),
        r matches Err(e) ==> is_failure_of(*db, e@) && call_failed(),
{
    match db_last(db, prefix) {
        Ok(key) => Ok(key),
        Err(e) => {
            assert(answered(*db, e));
            Err(db_failure(e))
        },
    }
}

/// There is no other list of the entries with a prefix.
pub proof fn listing_is_unique(
    c: Map<Seq<u8>, Seq<u8>>,
    prefix: Seq<u8>,
    a: Seq<(Seq<u8>, Seq<u8>)>,
)
    requires
        is_listing(c, prefix, a),
    ensures
        a == listing(c, prefix),
{
    let b = listing(c, prefix);
    assert(is_listing(c, prefix, b));
    same_keys_same_list(c, a, b);
}

/// Two ascending lists of entries of a map with the same keys are the same.
proof fn same_keys_same_list(
    c: Map<Seq<u8>, Seq<u8>>,
    a: Seq<(Seq<u8>, Seq<u8>)>,
    b: Seq<(Seq<u8>, Seq<u8>)>,
)
    requires
        ascends(a),
        ascends(b),
        forall|i: int| 0 <= i < a.len() ==> c.contains_pair((#[trigger] a[i]).0, a[i].1),
        forall|i: int| 0 <= i < b.len() ==> c.contains_pair((#[trigger] b[i]).0, b[i].1),
        forall|i: int| 0 <= i < a.len() ==> lists_key(b, (#[trigger] a[i]).0),
        forall|i: int| 0 <= i < b.len() ==> lists_key(a, (#[trigger] b[i]).0),
    ensures
        a == b,
    decreases a.len() + b.len(),
{
    if a.len() == 0 {
        if b.len() > 0 {
            assert(lists_key(a, b[0].0));
        }
        assert(a =~= b);
    } else if b.len() == 0 {
        assert(lists_key(b, a[0].0));
    } else {
        let x = a.last();
        let y = b.last();
        assert(a[a.len() - 1] == x);
        assert(b[b.len() - 1] == y);
        // The last keys are equal: each is among the keys of the other list.
        let i = choose|i: int| 0 <= i < b.len() && (#[trigger] b[i]).0 == x.0;
        let j = choose|j: int| 0 <= j < a.len() && (#[trigger] a[j]).0 == y.0;
        assert(lists_key(b, a[a.len() - 1].0));
        assert(lists_key(a, b[b.len() - 1].0));
        if x.0 != y.0 {
            assert(i < b.len() - 1);
            assert(j < a.len() - 1);
            assert(bytes::bytes_before(b[i].0, b[b.len() - 1].0));
            assert(bytes::bytes_before(a[j].0, a[a.len() - 1].0));
            bytes::bytes_before_transitive(x.0, y.0, x.0);
            bytes::bytes_before_irreflexive(x.0);
        }
        let p = a.drop_last();
        let q = b.drop_last();
        assert forall|k: int| 0 <= k < p.len() implies lists_key(q, (#[trigger] p[k]).0) by {
            assert(lists_key(b, a[k].0));
            let m = choose|m: int| 0 <= m < b.len() && (#[trigger] b[m]).0 == a[k].0;
            if m == b.len() - 1 {
                assert(bytes::bytes_before(a[k].0, a[a.len() - 1].0));
                bytes::bytes_before_irreflexive(x.0);
            }
            assert(q[m].0 == p[k].0);
        }
        assert forall|k: int| 0 <= k < q.len() implies lists_key(p, (#[trigger] q[k]).0) by {
            assert(lists_key(a, b[k].0));
            let m = choose|m: int| 0 <= m < a.len() && (#[trigger] a[m]).0 == b[k].0;
            if m == a.len() - 1 {
                assert(bytes::bytes_before(b[k].0, b[b.len() - 1].0));
                bytes::bytes_before_irreflexive(x.0);
            }
            assert(p[m].0 == q[k].0);
        }
        assert forall|k: int| 0 <= k < p.len() implies c.contains_pair(
            (#[trigger] p[k]).0,
            p[k].1,
        ) by {
            assert(c.contains_pair(a[k].0, a[k].1));
        }
        assert forall|k: int| 0 <= k < q.len() implies c.contains_pair(
            (#[trigger] q[k]).0,
            q[k].1,
        ) by {
            assert(c.contains_pair(b[k].0, b[k].1));
        }
        same_keys_same_list(c, p, q);
        assert(x == y);
        assert(a =~= p.push(x));
        assert(b =~= q.push(y));
    }
}

/// Setting a key that comes after all those with the prefix puts its entry at the end of the
/// list.
pub proof fn inserting_last_extends_listing(
    c: Map<Seq<u8>, Seq<u8>>,
    prefix: Seq<u8>,
    list: Seq<(Seq<u8>, Seq<u8>)>,
    key: Seq<u8>,
    value: Seq<u8>,
)
    requires
        is_listing(c, prefix, list),
        text::has_prefix(key, prefix),
        forall|i: int| 0 <= i < list.len() ==> bytes::bytes_before((#[trigger] list[i]).0, key),
    ensures
        is_listing(c.insert(key, value), prefix, list.push((key, value))),
{
    let after = c.insert(key, value);
    let longer = list.push((key, value));
    bytes::bytes_before_irreflexive(key);
    assert forall|i: int| 0 <= i < longer.len() implies after.contains_pair(
        (#[trigger] longer[i]).0,
        longer[i].1,
    ) && text::has_prefix(longer[i].0, prefix) by {
        if i < list.len() {
            assert(list[i].0 != key);
            assert(longer[i] == list[i]);
        }
    }
    assert forall|k: Seq<u8>| #[trigger]
        after.contains_key(k) && text::has_prefix(k, prefix) implies lists_key(longer, k) by {
        if k == key {
            assert(longer[list.len() as int].0 == k);
        } else {
            assert(c.contains_key(k));
            let i = choose|i: int| 0 <= i < list.len() && (#[trigger] list[i]).0 == k;
            assert(longer[i].0 == k);
        }
    }
}

/// Setting a key that does not start with the prefix leaves the list as it is.
pub proof fn inserting_elsewhere_keeps_listing(
    c: Map<Seq<u8>, Seq<u8>>,
    prefix: Seq<u8>,
    list: Seq<(Seq<u8>, Seq<u8>)>,
    key: Seq<u8>,
    value: Seq<u8>,
)
    requires
        is_listing(c, prefix, list),
        !text::has_prefix(key, prefix),
    ensures
        is_listing(c.insert(key, value), prefix, list),
{
    let after = c.insert(key, value);
    assert forall|i: int| 0 <= i < list.len() implies after.contains_pair(
        (#[trigger] list[i]).0,
        list[i].1,
    ) && text::has_prefix(list[i].0, prefix) by {
        assert(c.contains_pair(list[i].0, list[i].1));
    }
    assert forall|k: Seq<u8>| #[trigger]
        after.contains_key(k) && text::has_prefix(k, prefix) implies lists_key(list, k) by {
        assert(c.contains_key(k));
    }
}

}
