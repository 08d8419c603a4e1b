//! JSON values.
//!
//! A number is one of `serde_json`, carried as it is. The members of an object have different
//! names; their order does not matter. Bytes and text are read and written with `serde_json`,
//! and with `greentic_types` where they are CBOR.

use greentic_types::cbor::canonical;
use serde_json::{Number, Value};
use vstd::prelude::*;
use vstd::string::*;

use crate::lists;
use crate::text;

verus! {

broadcast use crate::lists::group_views;

/// A number of `serde_json`.
#[verifier::external_type_specification]
#[verifier::external_body]
pub struct ExNumber(serde_json::Number);

/// A value of `serde_json`.
#[verifier::external_type_specification]
#[verifier::external_body]
pub struct ExValue(serde_json::Value);

/// The clone of a `serde_json::Number` is the same number.
pub assume_specification[ <serde_json::Number as Clone>::clone ](n: &serde_json::Number) -> (r:
    serde_json::Number)
    ensures
        r == *n,
;

/// A JSON value.
#[derive(Debug)]
pub enum JsonValue {
    Null,
    Bool(bool),
    Number(Number),
    Text(String),
    Array(Vec<JsonValue>),
    Object(JsonMap),
}

/// The members of a JSON object.
#[derive(Debug)]
pub struct JsonMap {
    rows: Vec<(String, JsonValue)>,
}

/// Model of a JSON value.
pub ghost enum Json {
    Null,
    Bool(bool),
    Number(Number),
    Text(Seq<char>),
    Array(Seq<Json>),
    Object(Map<Seq<char>, Json>),
}

impl Json {
    /// The member with a name, if this is an object that has one.
    pub open spec fn member(self, key: Seq<char>) -> Option<Json> {
        match self {
            Json::Object(m) => if m.contains_key(key) {
                Some(m[key])
            } else {
                None
            },
            _ => None,
        }
    }

    /// The text, if this is one.
    pub open spec fn text(self) -> Option<Seq<char>> {
        match self {
            Json::Text(s) => Some(s),
            _ => None,
        }
    }

    /// The text of the member with a name, if this is an object that has such a member.
    pub open spec fn text_member(self, key: Seq<char>) -> Option<Seq<char>> {
        match self.member(key) {
            Some(v) => v.text(),
            None => None,
        }
    }
}

/// An array of the given texts.
pub open spec fn texts_of(s: Seq<Seq<char>>) -> Json {
    Json::Array(Seq::new(s.len(), |i: int| Json::Text(s[i])))
}

impl View for JsonValue {
    type V = Json;

    closed spec fn view(&self) -> Json {
        model(*self)
    }
}

impl View for JsonMap {
    type V = Map<Seq<char>, Json>;

    closed spec fn view(&self) -> Map<Seq<char>, Json> {
        members(self.rows@)
    }
}

/// The model of a value.
spec fn model(v: JsonValue) -> Json
    decreases v,
{
    match v {
        JsonValue::Null => Json::Null,
        JsonValue::Bool(b) => Json::Bool(b),
        JsonValue::Number(n) => Json::Number(n),
        JsonValue::Text(s) => Json::Text(s@),
        JsonValue::Array(a) => Json::Array(models(a@)),
        JsonValue::Object(m) => Json::Object(members(m.rows@)),
    }
}

/// The models of some values.
spec fn models(s: Seq<JsonValue>) -> Seq<Json>
    decreases s,
{
    if s.len() == 0 {
        Seq::empty()
    } else {
        models(s.drop_last()).push(model(s[s.len() - 1]))
    }
}

/// The models of some members, by name.
spec fn members(s: Seq<(String, JsonValue)>) -> Map<Seq<char>, Json>
    decreases s,
{
    if s.len() == 0 {
        Map::empty()
    } else {
        members(s.drop_last()).insert(s[s.len() - 1].0@, model(s[s.len() - 1].1))
    }
}

/// Whether the members have different names.
spec fn distinct(s: Seq<(String, JsonValue)>) -> bool {
    forall|i: int, j: int|
        0 <= i < j < s.len() ==> (#[trigger] s[i]).0@ != (#[trigger] s[j]).0@
}

proof fn models_index(s: Seq<JsonValue>)
    ensures
        models(s).len() == s.len(),
        forall|i: int| 0 <= i < s.len() ==> #[trigger] models(s)[i] == model(s[i]),
    decreases s.len(),
{
    if s.len() > 0 {
        models_index(s.drop_last());
        assert forall|i: int| 0 <= i < s.len() implies #[trigger] models(s)[i] == model(s[i]) by {
            if i < s.len() - 1 {
                assert(models(s.drop_last())[i] == model(s.drop_last()[i]));
            }
        }
    }
}

/// What the members of a list are: each of its rows, and nothing else.
proof fn members_are_rows(s: Seq<(String, JsonValue)>)
    requires
        distinct(s),
    ensures
        forall|i: int|
            0 <= i < s.len() ==> members(s).contains_key((#[trigger] s[i]).0@) && members(
                s,
            )[s[i].0@] == model(s[i].1),
        forall|k: Seq<char>| #[trigger]
            members(s).contains_key(k) ==> exists|i: int| 0 <= i < s.len() && (#[trigger] s[i]).0@
                == k,
    decreases s.len(),
{
    if s.len() > 0 {
        let rest = s.drop_last();
        assert forall|i: int, j: int| 0 <= i < j < rest.len() implies (#[trigger] rest[i]).0@ != (
        #[trigger] rest[j]).0@ by {
            assert(s[i].0@ != s[j].0@);
        }
        members_are_rows(rest);
        let n = s.len() - 1;
        assert forall|i: int| 0 <= i < s.len() implies members(s).contains_key((#[trigger] s[i]).0@)
            && members(s)[s[i].0@] == model(s[i].1) by {
            if i < n {
                assert(rest[i] == s[i]);
                assert(s[i].0@ != s[n].0@);
            }
        }
        assert forall|k: Seq<char>| #[trigger] members(s).contains_key(k) implies exists|i: int|
            0 <= i < s.len() && (#[trigger] s[i]).0@ == k by {
            if k != s[n].0@ {
                assert(members(rest).contains_key(k));
                let i = choose|i: int| 0 <= i < rest.len() && (#[trigger] rest[i]).0@ == k;
                assert(s[i].0@ == k);
            }
        }
    }
}

/// What one more row does to the members.
proof fn members_push(s: Seq<(String, JsonValue)>, row: (String, JsonValue))
    ensures
        members(s.push(row)) == members(s).insert(row.0@, model(row.1)),
{
    assert(s.push(row).drop_last() =~= s);
}

proof fn item_is_smaller(v: JsonValue, i: int)
    requires
        v matches JsonValue::Array(a) && 0 <= i < a@.len(),
    ensures
        decreases_to!(v => v->Array_0@[i]),
{
    let a = v->Array_0;
    assert(decreases_to!(v => v->Array_0));
    assert(decreases_to!(a => a@));
    assert(decreases_to!(a@ => a@[i]));
}

proof fn member_is_smaller(v: JsonValue, i: int)
    requires
        v matches JsonValue::Object(m) && 0 <= i < m.rows@.len(),
    ensures
        decreases_to!(v => v->Object_0.rows@[i].1),
{
    let m = v->Object_0;
    let rows = m.rows;
    let row = rows@[i];
    assert(decreases_to!(v => v->Object_0));
    assert(decreases_to!(m => m.rows));
    assert(decreases_to!(rows => rows@));
    assert(decreases_to!(rows@ => rows@[i]));
    assert(decreases_to!(row => row.1));
}

impl JsonValue {
    /// A text.
    pub fn text(s: &str) -> (r: Self)
        ensures
            r@ == Json::Text(s@),
    {
        JsonValue::Text(s.to_owned())
    }

    pub fn null() -> (r: Self)
        ensures
            r@ == Json::Null,
    {
        JsonValue::Null
    }

    pub fn bool(b: bool) -> (r: Self)
        ensures
            r@ == Json::Bool(b),
    {
        JsonValue::Bool(b)
    }

    /// An object with the given members.
    pub fn object(m: JsonMap) -> (r: Self)
        ensures
            r@ == Json::Object(m@),
    {
        JsonValue::Object(m)
    }

    /// An array of the given texts.
    pub fn texts(s: &[String]) -> (r: Self)
        ensures
            r@ == texts_of(lists::views(s@)),
    {
        let mut out: Vec<JsonValue> = Vec::new();
        for i in 0..s.len()
            invariant
                out@.len() == i,
                forall|j: int| 0 <= j < i ==> model(#[trigger] out@[j]) == Json::Text(s@[j]@),
        {
            out.push(JsonValue::Text(s[i].clone()));
        }
        proof {
            models_index(out@);
            assert(models(out@) =~= texts_of(lists::views(s@))->Array_0);
        }
        JsonValue::Array(out)
    }

    /// An array of the given values.
    pub fn array(v: Vec<JsonValue>) -> (r: Self)
        ensures
            r@ == Json::Array(Seq::new(v@.len(), |i: int| v@[i]@)),
    {
        proof {
            models_index(v@);
            assert(models(v@) =~= Seq::new(v@.len(), |i: int| v@[i]@));
        }
        JsonValue::Array(v)
    }

    /// The member with a name, if this is an object that has one.
    pub fn get(&self, key: &str) -> (r: Option<&JsonValue>)
        ensures
            r is Some <==> self@.member(key@) is Some,
            r matches Some(v) ==> self@.member(key@) == Some(v@),
    {
        match self {
            JsonValue::Object(m) => m.get(key),
            _ => None,
        }
    }

    /// The text, if this is one.
    pub fn as_str(&self) -> (r: Option<&str>)
        ensures
            r is Some <==> self@.text() is Some,
            r matches Some(s) ==> self@.text() == Some(s@),
    {
        match self {
            JsonValue::Text(s) => Some(s.as_str()),
            _ => None,
        }
    }

    /// The text of the member with a name, if this is an object that has such a member.
    pub fn text_of(&self, key: &str) -> (r: Option<&str>)
        ensures
            r is Some <==> self@.text_member(key@) is Some,
            r matches Some(s) ==> self@.text_member(key@) == Some(s@),
    {
        match self.get(key) {
            Some(v) => v.as_str(),
            None => None,
        }
    }

    /// The truth value, if this is one.
    pub fn as_bool(&self) -> (r: Option<bool>)
        ensures
            r == (match self@ {
                Json::Bool(b) => Some(b),
                _ => None,
            }),
    {
        match self {
            JsonValue::Bool(b) => Some(*b),
            _ => None,
        }
    }

    /// The members, if this is an object.
    pub fn as_object(&self) -> (r: Option<&JsonMap>)
        ensures
            r matches Some(m) ==> self@ == Json::Object(m@),
            r is None ==> !(self@ is Object),
    {
        match self {
            JsonValue::Object(m) => Some(m),
            _ => None,
        }
    }
}

impl Clone for JsonValue {
    fn clone(&self) -> (r: Self)
        ensures
            r@ == self@,
        decreases self,
    {
        match self {
            JsonValue::Null => JsonValue::Null,
            JsonValue::Bool(b) => JsonValue::Bool(*b),
            JsonValue::Number(n) => JsonValue::Number(n.clone()),
            JsonValue::Text(s) => JsonValue::Text(s.clone()),
            JsonValue::Array(a) => {
                let mut out: Vec<JsonValue> = Vec::new();
                for i in 0..a.len()
                    invariant
                        *self == JsonValue::Array(*a),
                        out@.len() == i,
                        forall|j: int|
                            0 <= j < i ==> model(#[trigger] out@[j]) == model(a@[j]),
                {
                    proof {
                        item_is_smaller(*self, i as int);
                    }
                    let item = a[i].clone();
                    out.push(item);
                }
                proof {
                    models_index(out@);
                    models_index(a@);
                    assert(models(out@) =~= models(a@));
                }
                JsonValue::Array(out)
            },
            JsonValue::Object(m) => {
                let mut out = JsonMap::new();
                proof {
                    use_type_invariant(m);
                    members_are_rows(m.rows@);
                }
                for i in 0..m.rows.len()
                    invariant
                        *self == JsonValue::Object(*m),
                        out@ == members(m.rows@.subrange(0, i as int)),
                {
                    proof {
                        member_is_smaller(*self, i as int);
                    }
                    let value = m.rows[i].1.clone();
                    proof {
                        let done = m.rows@.subrange(0, i + 1);
                        assert(done.drop_last() =~= m.rows@.subrange(0, i as int));
                    }
                    out.insert(m.rows[i].0.as_str(), value);
                }
                assert(m.rows@.subrange(0, m.rows@.len() as int) =~= m.rows@);
                JsonValue::Object(out)
            },
        }
    }
}

impl JsonMap {
    #[verifier::type_invariant]
    spec fn sound(self) -> bool {
        distinct(self.rows@)
    }

    pub fn new() -> (r: Self)
        ensures
            r@ == Map::<Seq<char>, Json>::empty(),
    {
        JsonMap { rows: Vec::new() }
    }

    pub fn len(&self) -> (r: usize)
        ensures
            r == 0 <==> self@ == Map::<Seq<char>, Json>::empty(),
    {
        proof {
            use_type_invariant(self);
            members_are_rows(self.rows@);
            if self.rows@.len() > 0 {
                assert(self@.contains_key(self.rows@[0].0@));
            }
        }
        self.rows.len()
    }

    /// The row of a name.
    fn position(&self, key: &str) -> (r: Option<usize>)
        ensures
            r matches Some(i) ==> i < self.rows@.len() && self.rows@[i as int].0@ == key@
                && self@.contains_key(key@) && self@[key@] == self.rows@[i as int].1@,
            r is None ==> !self@.contains_key(key@) && forall|i: int|
                0 <= i < self.rows@.len() ==> (#[trigger] self.rows@[i]).0@ != key@,
    {
        proof {
            use_type_invariant(self);
            members_are_rows(self.rows@);
        }
        for i in 0..self.rows.len()
            invariant
                forall|j: int|
                    0 <= j < self.rows@.len() ==> self@.contains_key(
                        (#[trigger] self.rows@[j]).0@,
                    ) && self@[self.rows@[j].0@] == model(self.rows@[j].1),
                forall|j: int| 0 <= j < i ==> (#[trigger] self.rows@[j]).0@ != key@,
        {
            if text::same(self.rows[i].0.as_str(), key) {
                return Some(i);
            }
        }
        None
    }

    /// The member with a name.
    pub fn get(&self, key: &str) -> (r: Option<&JsonValue>)
        ensures
            r is Some <==> self@.contains_key(key@),
            r matches Some(v) ==> self@[key@] == v@,
    {
        match self.position(key) {
            Some(i) => Some(&self.rows[i].1),
            None => None,
        }
    }

    pub fn contains_key(&self, key: &str) -> (r: bool)
        ensures
            r == self@.contains_key(key@),
    {
        self.position(key).is_some()
    }

    /// Sets the member with a name.
    pub fn insert(&mut self, key: &str, value: JsonValue)
        ensures
            final(self)@ == old(self)@.insert(key@, value@),
    {
        let ghost before = *self;
        self.remove(key);
        proof {
            use_type_invariant(&*self);
            members_are_rows(self.rows@);
            assert(!self@.contains_key(key@));
            assert forall|i: int| 0 <= i < self.rows@.len() implies (#[trigger] self.rows@[i]).0@
                != key@ by {
                assert(self@.contains_key(self.rows@[i].0@));
            }
        }
        let ghost added = value;
        let mut emptied = JsonMap { rows: Vec::new() };
        std::mem::swap(self, &mut emptied);
        let mut rows = emptied.rows;
        let ghost kept = rows@;
        let name = key.to_owned();
        let ghost row = (name, value);
        rows.push((name, value));
        proof {
            members_push(kept, row);
            assert(members(rows@) == before@.remove(key@).insert(key@, added@));
            assert(before@.remove(key@).insert(key@, added@) =~= before@.insert(key@, added@));
        }
        *self = JsonMap { rows };
    }

    /// Removes the member with a name.
    pub fn remove(&mut self, key: &str)
        ensures
            final(self)@ == old(self)@.remove(key@),
    {
        let ghost before = *self;
        match self.position(key) {
            Some(i) => {
                proof {
                    use_type_invariant(&*self);
                    members_are_rows(self.rows@);
                }
                let mut emptied = JsonMap { rows: Vec::new() };
                std::mem::swap(self, &mut emptied);
                let mut rows = emptied.rows;
                let ghost full = rows@;
                let _ = rows.remove(i);
                proof {
                    let short = rows@;
                    assert forall|a: int, b: int| 0 <= a < b < short.len() implies (
                    #[trigger] short[a]).0@ != (#[trigger] short[b]).0@ by {
                        let x = if a < i { a } else { a + 1 };
                        let y = if b < i { b } else { b + 1 };
                        assert(short[a] == full[x] && short[b] == full[y]);
                        assert(full[x].0@ != full[y].0@);
                    }
                    members_are_rows(short);
                    assert forall|k: Seq<char>| #[trigger]
                        members(short).contains_key(k) == before@.remove(key@).contains_key(k) by {
                        if members(short).contains_key(k) {
                            let a = choose|a: int|
                                0 <= a < short.len() && (#[trigger] short[a]).0@ == k;
                            let x = if a < i { a } else { a + 1 };
                            assert(short[a] == full[x]);
                            assert(full[x].0@ != full[i as int].0@);
                        } else if before@.contains_key(k) && k != key@ {
                            let x = choose|x: int|
                                0 <= x < full.len() && (#[trigger] full[x]).0@ == k;
                            let a = if x < i { x } else { x - 1 };
                            assert(short[a] == full[x]);
                        }
                    }
                    assert forall|k: Seq<char>| #[trigger]
                        members(short).contains_key(k) implies members(short)[k] == before@[k] by {
                        let a = choose|a: int|
                            0 <= a < short.len() && (#[trigger] short[a]).0@ == k;
                        let x = if a < i { a } else { a + 1 };
                        assert(short[a] == full[x]);
                    }
                    assert(members(short) =~= before@.remove(key@));
                }
                *self = JsonMap { rows };
            },
            None => {
                assert(self@ =~= before@.remove(key@));
            },
        }
    }

    /// The names of the members; no two are the same.
    pub fn names(&self) -> (r: Vec<String>)
        ensures
            forall|i: int| 0 <= i < r@.len() ==> self@.contains_key((#[trigger] r@[i])@),
            forall|k: Seq<char>| #[trigger]
                self@.contains_key(k) ==> exists|i: int| 0 <= i < r@.len() && (#[trigger] r@[i])@
                    == k,
            forall|i: int, j: int|
                0 <= i < j < r@.len() ==> (#[trigger] r@[i])@ != (#[trigger] r@[j])@,
    {
        let mut out: Vec<String> = Vec::new();
        for i in 0..self.rows.len()
            invariant
                out@.len() == i,
                forall|j: int| 0 <= j < i ==> (#[trigger] out@[j])@ == self.rows@[j].0@,
        {
            out.push(self.rows[i].0.clone());
        }
        proof {
            use_type_invariant(self);
            members_are_rows(self.rows@);
            assert forall|i: int| 0 <= i < out@.len() implies self@.contains_key(
                (#[trigger] out@[i])@,
            ) by {
                assert(self.rows@[i].0@ == out@[i]@);
            }
            assert forall|k: Seq<char>| #[trigger] self@.contains_key(k) implies exists|i: int|
                0 <= i < out@.len() && (#[trigger] out@[i])@ == k by {
                let i = choose|i: int|
                    0 <= i < self.rows@.len() && (#[trigger] self.rows@[i]).0@ == k;
                assert(out@[i]@ == k);
            }
            assert forall|i: int, j: int| 0 <= i < j < out@.len() implies (#[trigger] out@[i])@
                != (#[trigger] out@[j])@ by {
                assert(self.rows@[i].0@ != self.rows@[j].0@);
            }
        }
        out
    }
}

impl Clone for JsonMap {
    fn clone(&self) -> (r: Self)
        ensures
            r@ == self@,
    {
        let mut out = JsonMap::new();
        for i in 0..self.rows.len()
            invariant
                out@ == members(self.rows@.subrange(0, i as int)),
        {
            let value = self.rows[i].1.clone();
            proof {
                let done = self.rows@.subrange(0, i + 1);
                assert(done.drop_last() =~= self.rows@.subrange(0, i as int));
            }
            out.insert(self.rows[i].0.as_str(), value);
        }
        assert(self.rows@.subrange(0, self.rows@.len() as int) =~= self.rows@);
        out
    }
}

/// What a value of `serde_json` holds.
pub uninterp spec fn held(v: Value) -> Json;

/// The value that some bytes hold as CBOR, if they hold one.
pub uninterp spec fn cbor_read(b: Seq<u8>) -> Option<Json>;

/// The value that some bytes hold as JSON, if they hold one.
pub uninterp spec fn json_read(b: Seq<u8>) -> Option<Json>;

/// A value as JSON text.
pub uninterp spec fn json_printed(v: Json) -> Seq<char>;

/// A value as canonical CBOR, or why there is none.
pub uninterp spec fn cbor_written(v: Json) -> Result<Seq<u8>, Seq<char>>;

/// A whole number.
pub uninterp spec fn whole_number(n: u64) -> Number;

/// The outermost layer of a value, with what is inside it.
enum Layer<'a> {
    Null,
    Bool(bool),
    Number(&'a Number),
    Text(&'a str),
    Array(&'a [Value]),
    Object(Vec<(&'a String, &'a Value)>),
}

/// The members in a list, by name; of two with one name the later counts.
pub open spec fn by_name(rows: Seq<(Seq<char>, Json)>) -> Map<Seq<char>, Json>
    decreases rows.len(),
{
    if rows.len() == 0 {
        Map::empty()
    } else {
        by_name(rows.drop_last()).insert(rows.last().0, rows.last().1)
    }
}

/// Whether the members in a list have different names.
pub open spec fn names_differ(rows: Seq<(Seq<char>, Json)>) -> bool {
    forall|i: int, j: int|
        0 <= i < j < rows.len() ==> (#[trigger] rows[i]).0 != (#[trigger] rows[j]).0
}

/// The members that a layer shows.
spec fn shown_rows(rows: Seq<(&String, &Value)>) -> Seq<(Seq<char>, Json)> {
    Seq::new(rows.len(), |i: int| (rows[i].0@, held(*rows[i].1)))
}

/// The members of an object to be put together.
spec fn held_rows(rows: Seq<(String, Value)>) -> Seq<(Seq<char>, Json)> {
    Seq::new(rows.len(), |i: int| (rows[i].0@, held(rows[i].1)))
}

/// What some values hold.
spec fn held_items(items: Seq<Value>) -> Seq<Json> {
    Seq::new(items.len(), |i: int| held(items[i]))
}

impl<'a> Layer<'a> {
    /// The value that has this layer.
    spec fn whole(self) -> Json {
        match self {
            Layer::Null => Json::Null,
            Layer::Bool(b) => Json::Bool(b),
            Layer::Number(n) => Json::Number(*n),
            Layer::Text(s) => Json::Text(s@),
            Layer::Array(items) => Json::Array(held_items(items@)),
            Layer::Object(rows) => Json::Object(by_name(shown_rows(rows@))),
        }
    }
}

/// A `serde_json::Value` is of one of six variants, and holds what the variant's field holds;
/// `Map::iter` goes over the members of an object, and no two have the same name.
#[verifier::external_body]
fn outer_layer(v: &Value) -> (r: Layer<'_>)
    ensures
        r.whole() == held(*v),
        r matches Layer::Object(rows) ==> names_differ(shown_rows(rows@)),
{
    match v {
        Value::Null => Layer::Null,
        Value::Bool(b) => Layer::Bool(*b),
        Value::Number(n) => Layer::Number(n),
        Value::String(s) => Layer::Text(s),
        Value::Array(items) => Layer::Array(items),
        Value::Object(members) => Layer::Object(members.iter().collect()),
    }
}

/// A layer of a value that is put together from the inside.
enum Made {
    Null,
    Bool(bool),
    Number(Number),
    Text(String),
    Array(Vec<Value>),
    Object(Vec<(String, Value)>),
}

impl Made {
    /// The value that has this layer.
    spec fn whole(self) -> Json {
        match self {
            Made::Null => Json::Null,
            Made::Bool(b) => Json::Bool(b),
            Made::Number(n) => Json::Number(n),
            Made::Text(s) => Json::Text(s@),
            Made::Array(items) => Json::Array(held_items(items@)),
            Made::Object(rows) => Json::Object(by_name(held_rows(rows@))),
        }
    }

    /// No two members have the same name.
    spec fn is_sound(self) -> bool {
        self matches Made::Object(rows) ==> names_differ(held_rows(rows@))
    }
}

/// A `serde_json::Value` of a variant holds what is put into the variant's field;
/// `Map::from_iter` puts the members of an object together.
#[verifier::external_body]
fn assembled(layer: Made) -> (r: Value)
    requires
        layer.is_sound(),
    ensures
        held(r) == layer.whole(),
{
    match layer {
        Made::Null => Value::Null,
        Made::Bool(b) => Value::Bool(b),
        Made::Number(n) => Value::Number(n),
        Made::Text(s) => Value::String(s),
        Made::Array(items) => Value::Array(items),
        Made::Object(rows) => Value::Object(rows.into_iter().collect()),
    }
}

/// `greentic_types::cbor::canonical::from_cbor` into a `serde_json::Value` is a function of
/// the bytes.
#[verifier::external_body]
fn value_from_cbor(b: &[u8]) -> (r: Option<Value>)
    ensures
        r is Some <==> cbor_read(b@) is Some,
        r matches Some(v) ==> cbor_read(b@) == Some(held(v)),
{
    canonical::from_cbor(b).ok()
}

/// `serde_json::from_slice` into a `serde_json::Value` is a function of the bytes.
#[verifier::external_body]
fn value_from_json(b: &[u8]) -> (r: Option<Value>)
    ensures
        r is Some <==> json_read(b@) is Some,
        r matches Some(v) ==> json_read(b@) == Some(held(v)),
{
    serde_json::from_slice(b).ok()
}

/// `Display` of a `serde_json::Value` is a function of what the value holds.
#[verifier::external_body]
fn value_text(v: &Value) -> (r: String)
    ensures
        r@ == json_printed(held(*v)),
{
    v.to_string()
}

/// `greentic_types::cbor::canonical::to_canonical_cbor_allow_floats` of a `serde_json::Value`
/// is a function of what the value holds.
#[verifier::external_body]
fn value_to_cbor(v: &Value) -> (r: Result<Vec<u8>, String>)
    ensures
        r is Ok <==> cbor_written(held(*v)) is Ok,
        r matches Ok(b) ==> cbor_written(held(*v))->Ok_0 == b@,
        r matches Err(e) ==> cbor_written(held(*v))->Err_0 == e@,
{
    canonical::to_canonical_cbor_allow_floats(v).map_err(|e| e.to_string())
}

/// `serde_json::Number::from` a `u64` is a function of it.
#[verifier::external_body]
fn number_from(n: u64) -> (r: Number)
    ensures
        r == whole_number(n),
{
    Number::from(n)
}

/// What some rows show up to one of them, and that row.
proof fn by_name_grows(rows: Seq<(Seq<char>, Json)>, i: int)
    requires
        0 <= i < rows.len(),
    ensures
        by_name(rows.subrange(0, i + 1)) == by_name(rows.subrange(0, i)).insert(
            rows[i].0,
            rows[i].1,
        ),
{
    assert(rows.subrange(0, i + 1).drop_last() =~= rows.subrange(0, i));
}

/// Each row of a list is found by its name.
proof fn rows_are_found(rows: Seq<(Seq<char>, Json)>)
    requires
        names_differ(rows),
    ensures
        by_name(rows).dom().finite(),
        forall|i: int|
            0 <= i < rows.len() ==> by_name(rows).contains_key((#[trigger] rows[i]).0) && by_name(
                rows,
            )[rows[i].0] == rows[i].1,
    decreases rows.len(),
{
    if rows.len() > 0 {
        let rest = rows.drop_last();
        rows_are_found(rest);
        assert forall|i: int| 0 <= i < rows.len() implies by_name(rows).contains_key(
            (#[trigger] rows[i]).0,
        ) && by_name(rows)[rows[i].0] == rows[i].1 by {
            if i < rest.len() {
                assert(rest[i] == rows[i]);
                assert(rows[i].0 != rows[rows.len() - 1].0);
            }
        }
    }
}

proof fn held_item_is_smaller(v: Json, i: int)
    requires
        v matches Json::Array(items) && 0 <= i < items.len(),
    ensures
        decreases_to!(v => v->Array_0[i]),
{
    assert(decreases_to!(v => v->Array_0));
    assert(decreases_to!(v->Array_0 => v->Array_0[i]));
}

proof fn held_member_is_smaller(v: Json, key: Seq<char>)
    requires
        v matches Json::Object(m) && m.dom().finite() && m.contains_key(key),
    ensures
        decreases_to!(v => v->Object_0[key]),
{
    let m = v->Object_0;
    broadcast use vstd::map::axiom_map_index_decreases_finite;
    assert(decreases_to!(v => v->Object_0));
    assert(decreases_to!(m => m[key]));
}

/// The JSON value that a value of `serde_json` holds.
fn json_of(v: &Value) -> (r: JsonValue)
    ensures
        r@ == held(*v),
    decreases held(*v),
{
    match outer_layer(v) {
        Layer::Null => JsonValue::null(),
        Layer::Bool(b) => JsonValue::bool(b),
        Layer::Number(n) => JsonValue::Number(n.clone()),
        Layer::Text(s) => JsonValue::text(s),
        Layer::Array(items) => {
            let ghost all = held_items(items@);
            let mut out: Vec<JsonValue> = Vec::new();
            for i in 0..items.len()
                invariant
                    held(*v) == Json::Array(all),
                    all == held_items(items@),
                    out@.len() == i,
                    forall|j: int| 0 <= j < i ==> (#[trigger] out@[j])@ == all[j],
            {
                proof {
                    held_item_is_smaller(held(*v), i as int);
                    assert(all[i as int] == held(items@[i as int]));
                }
                out.push(json_of(&items[i]));
            }
            assert(Seq::new(out@.len(), |i: int| out@[i]@) =~= all);
            JsonValue::array(out)
        },
        Layer::Object(rows) => {
            let ghost all = shown_rows(rows@);
            proof {
                rows_are_found(all);
            }
            let mut out = JsonMap::new();
            assert(all.subrange(0, 0) =~= Seq::empty());
            for i in 0..rows.len()
                invariant
                    held(*v) == Json::Object(by_name(all)),
                    all == shown_rows(rows@),
                    by_name(all).dom().finite(),
                    forall|j: int|
                        0 <= j < all.len() ==> by_name(all).contains_key((#[trigger] all[j]).0)
                            && by_name(all)[all[j].0] == all[j].1,
                    out@ == by_name(all.subrange(0, i as int)),
            {
                proof {
                    let row = all[i as int];
                    held_member_is_smaller(held(*v), row.0);
                    by_name_grows(all, i as int);
                }
                let member = json_of(rows[i].1);
                out.insert(rows[i].0.as_str(), member);
            }
            assert(all.subrange(0, all.len() as int) =~= all);
            JsonValue::object(out)
        },
    }
}

/// A value of `serde_json` that holds a JSON value.
fn value_of(v: &JsonValue) -> (r: Value)
    ensures
        held(r) == v@,
    decreases v,
{
    match v {
        JsonValue::Null => assembled(Made::Null),
        JsonValue::Bool(b) => assembled(Made::Bool(*b)),
        JsonValue::Number(n) => assembled(Made::Number(n.clone())),
        JsonValue::Text(s) => assembled(Made::Text(s.clone())),
        JsonValue::Array(a) => {
            let mut out: Vec<Value> = Vec::new();
            for i in 0..a.len()
                invariant
                    *v == JsonValue::Array(*a),
                    out@.len() == i,
                    forall|j: int| 0 <= j < i ==> held(#[trigger] out@[j]) == model(a@[j]),
            {
                proof {
                    item_is_smaller(*v, i as int);
                }
                out.push(value_of(&a[i]));
            }
            proof {
                models_index(a@);
                assert(held_items(out@) =~= models(a@));
            }
            assembled(Made::Array(out))
        },
        JsonValue::Object(m) => {
            let mut out: Vec<(String, Value)> = Vec::new();
            proof {
                use_type_invariant(m);
                assert(by_name(held_rows(out@)) =~= members(m.rows@.subrange(0, 0)));
            }
            for i in 0..m.rows.len()
                invariant
                    *v == JsonValue::Object(*m),
                    out@.len() == i,
                    forall|j: int| 0 <= j < i ==> (#[trigger] out@[j]).0@ == m.rows@[j].0@,
                    by_name(held_rows(out@)) == members(m.rows@.subrange(0, i as int)),
            {
                proof {
                    member_is_smaller(*v, i as int);
                }
                let member = value_of(&m.rows[i].1);
                let ghost before = out@;
                out.push((m.rows[i].0.clone(), member));
                proof {
                    assert(m.rows@.subrange(0, i + 1).drop_last() =~= m.rows@.subrange(0, i as int));
                    assert(held_rows(out@).drop_last() =~= held_rows(before));
                }
            }
            proof {
                assert(m.rows@.subrange(0, m.rows@.len() as int) =~= m.rows@);
                let rows = held_rows(out@);
                assert forall|i: int, j: int| 0 <= i < j < rows.len() implies (
                #[trigger] rows[i]).0 != (#[trigger] rows[j]).0 by {
                    assert(out@[i].0@ == m.rows@[i].0@ && out@[j].0@ == m.rows@[j].0@);
                }
            }
            assembled(Made::Object(out))
        },
    }
}

impl JsonValue {
    /// The value that some bytes hold as CBOR, if they hold one.
    pub fn from_cbor(b: &[u8]) -> (r: Option<JsonValue>)
        ensures
            r is Some <==> cbor_read(b@) is Some,
            r matches Some(v) ==> cbor_read(b@) == Some(v@),
    {
        match value_from_cbor(b) {
            Some(v) => Some(json_of(&v)),
            None => None,
        }
    }

    /// The value that some bytes hold as JSON, if they hold one.
    pub fn from_json(b: &[u8]) -> (r: Option<JsonValue>)
        ensures
            r is Some <==> json_read(b@) is Some,
            r matches Some(v) ==> json_read(b@) == Some(v@),
    {
        match value_from_json(b) {
            Some(v) => Some(json_of(&v)),
            None => None,
        }
    }

    /// The value as JSON text.
    pub fn to_json(&self) -> (r: String)
        ensures
            r@ == json_printed(self@),
    {
        value_text(&value_of(self))
    }

    /// The value as canonical CBOR, or why there is none.
    pub fn to_cbor(&self) -> (r: Result<Vec<u8>, String>)
        ensures
            r is Ok <==> cbor_written(self@) is Ok,
            r matches Ok(b) ==> cbor_written(self@)->Ok_0 == b@,
            r matches Err(e) ==> cbor_written(self@)->Err_0 == e@,
    {
        value_to_cbor(&value_of(self))
    }

    /// A whole number.
    pub fn whole(n: u64) -> (r: Self)
        ensures
            r@ == Json::Number(whole_number(n)),
    {
        JsonValue::Number(number_from(n))
    }
}

}
