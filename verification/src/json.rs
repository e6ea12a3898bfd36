//! A plain model of JSON values, read and written through `serde_json`.
//!
//! The logic of the library reads and builds `Json` values; the text form of
//! a value, in both directions, is `serde_json`'s work and is named by the
//! spec functions `parsed_json` and `json_text`.
use vstd::prelude::*;
use crate::strutil::str_eq;

verus! {

/// A JSON value. Numbers keep the text that `serde_json` gives them; the
/// entries of an object keep their order.
#[derive(Debug)]
pub enum Json {
    Null,
    Bool(bool),
    Number(String),
    Str(String),
    Array(Vec<Json>),
    Object(Vec<(String, Json)>),
}

/// The mathematical value of a `Json`.
pub enum SpecJson {
    Null,
    Bool(bool),
    Number(Seq<char>),
    Str(Seq<char>),
    Array(Seq<SpecJson>),
    Object(Seq<(Seq<char>, SpecJson)>),
}

pub open spec fn json_view(j: Json) -> SpecJson
    decreases j,
{
    match j {
        Json::Null => SpecJson::Null,
        Json::Bool(b) => SpecJson::Bool(b),
        Json::Number(n) => SpecJson::Number(n@),
        Json::Str(s) => SpecJson::Str(s@),
        Json::Array(v) => SpecJson::Array(jsons_view(v@)),
        Json::Object(es) => SpecJson::Object(entries_view(es@)),
    }
}

pub open spec fn jsons_view(v: Seq<Json>) -> Seq<SpecJson>
    decreases v,
{
    if v.len() == 0 {
        Seq::empty()
    } else {
        jsons_view(v.drop_last()).push(json_view(v.last()))
    }
}

pub open spec fn entries_view(es: Seq<(String, Json)>) -> Seq<(Seq<char>, SpecJson)>
    decreases es,
{
    if es.len() == 0 {
        Seq::empty()
    } else {
        entries_view(es.drop_last()).push((es.last().0@, json_view(es.last().1)))
    }
}

impl View for Json {
    type V = SpecJson;

    open spec fn view(&self) -> SpecJson {
        json_view(*self)
    }
}

pub proof fn lemma_jsons_view(v: Seq<Json>)
    ensures
        jsons_view(v).len() == v.len(),
        forall|i: int| 0 <= i < v.len() ==> #[trigger] jsons_view(v)[i] == json_view(v[i]),
    decreases v.len(),
{
    if v.len() > 0 {
        lemma_jsons_view(v.drop_last());
    }
}

pub proof fn lemma_entries_view(es: Seq<(String, Json)>)
    ensures
        entries_view(es).len() == es.len(),
        forall|i: int|
            0 <= i < es.len() ==> #[trigger] entries_view(es)[i] == (es[i].0@, json_view(es[i].1)),
    decreases es.len(),
{
    if es.len() > 0 {
        lemma_entries_view(es.drop_last());
    }
}

pub proof fn lemma_jsons_view_push(v: Seq<Json>, j: Json)
    ensures
        jsons_view(v.push(j)) == jsons_view(v).push(json_view(j)),
{
    assert(v.push(j).drop_last() =~= v);
}

pub proof fn lemma_entries_view_push(es: Seq<(String, Json)>, e: (String, Json))
    ensures
        entries_view(es.push(e)) == entries_view(es).push((e.0@, json_view(e.1))),
{
    assert(es.push(e).drop_last() =~= es);
}

// ===================================================================
// Reading values
// ===================================================================

/// The index of the first entry with key `key` at or after `i`.
pub open spec fn entry_index(es: Seq<(Seq<char>, SpecJson)>, key: Seq<char>, i: int) -> Option<
    int,
>
    decreases es.len() - i,
{
    if i < 0 || i >= es.len() {
        None
    } else if es[i].0 == key {
        Some(i)
    } else {
        entry_index(es, key, i + 1)
    }
}

pub proof fn lemma_entry_index(es: Seq<(Seq<char>, SpecJson)>, key: Seq<char>, i: int)
    requires
        0 <= i,
    ensures
        entry_index(es, key, i) matches Some(k) ==> i <= k < es.len() && es[k].0 == key
            && forall|j: int| i <= j < k ==> es[j].0 != key,
        entry_index(es, key, i) is None ==> forall|j: int| i <= j < es.len() ==> es[j].0 != key,
    decreases es.len() - i,
{
    if i < es.len() && es[i].0 != key {
        lemma_entry_index(es, key, i + 1);
    }
}

/// The first entry with a key is where `entry_index` finds it.
pub proof fn lemma_entry_index_at(es: Seq<(Seq<char>, SpecJson)>, key: Seq<char>, i: int, k: int)
    requires
        0 <= i <= k < es.len(),
        es[k].0 == key,
        forall|j: int| i <= j < k ==> es[j].0 != key,
    ensures
        entry_index(es, key, i) == Some(k),
    decreases k - i,
{
    if i < k {
        lemma_entry_index_at(es, key, i + 1, k);
    }
}

/// The value under `key` of an object: the first entry with that key.
/// Anything but an object has no entries.
pub open spec fn json_get(j: SpecJson, key: Seq<char>) -> Option<SpecJson> {
    match j {
        SpecJson::Object(es) => match entry_index(es, key, 0) {
            Some(i) => Some(es[i].1),
            None => None,
        },
        _ => None,
    }
}

/// The text of a JSON string.
pub open spec fn json_str(j: Option<SpecJson>) -> Option<Seq<char>> {
    match j {
        Some(SpecJson::Str(s)) => Some(s),
        _ => None,
    }
}

/// The items of a JSON array.
pub open spec fn json_items(j: Option<SpecJson>) -> Option<Seq<SpecJson>> {
    match j {
        Some(SpecJson::Array(v)) => Some(v),
        _ => None,
    }
}

pub open spec fn opt_json_view(o: Option<&Json>) -> Option<SpecJson> {
    match o {
        Some(j) => Some(j@),
        None => None,
    }
}

impl Json {
    /// The value under `key`, when this is an object that has one.
    pub fn get(&self, key: &str) -> (r: Option<&Json>)
        ensures
            opt_json_view(r) == json_get(self@, key@),
    {
        match self {
            Json::Object(es) => {
                let ghost sv = entries_view(es@);
                proof {
                    lemma_entries_view(es@);
                }
                assert(self@ == SpecJson::Object(sv));
                let mut i: usize = 0;
                while i < es.len()
                    invariant
                        self@ == SpecJson::Object(sv),
                        sv == entries_view(es@),
                        sv.len() == es@.len(),
                        forall|j: int|
                            0 <= j < sv.len() ==> #[trigger] sv[j] == (es@[j].0@, json_view(
                                es@[j].1,
                            )),
                        i <= es@.len(),
                        entry_index(sv, key@, 0) == entry_index(sv, key@, i as int),
                    decreases es@.len() - i,
                {
                    let e = &es[i];
                    assert(sv[i as int] == (e.0@, json_view(e.1)));
                    if str_eq(e.0.as_str(), key) {
                        assert(self@ == SpecJson::Object(sv));
                        assert(entry_index(sv, key@, i as int) == Some(i as int));
                        return Some(&e.1);
                    }
                    i = i + 1;
                }
                assert(self@ == SpecJson::Object(sv));
                None
            },
            _ => None,
        }
    }

    /// The text, when this is a string.
    pub fn as_str(&self) -> (r: Option<&str>)
        ensures
            (match r {
                Some(s) => Some(s@),
                None => None,
            }) == json_str(Some(self@)),
    {
        match self {
            Json::Str(s) => Some(s.as_str()),
            _ => None,
        }
    }

    /// The items, when this is an array.
    pub fn as_array(&self) -> (r: Option<&Vec<Json>>)
        ensures
            (match r {
                Some(v) => Some(jsons_view(v@)),
                None => None,
            }) == json_items(Some(self@)),
    {
        match self {
            Json::Array(v) => Some(v),
            _ => None,
        }
    }

    /// Whether this is `null`.
    pub fn is_null(&self) -> (r: bool)
        ensures
            r == (self@ is Null),
    {
        match self {
            Json::Null => true,
            _ => false,
        }
    }
}

/// A text, or `d` when there is none.
pub open spec fn str_or(o: Option<Seq<char>>, d: Seq<char>) -> Seq<char> {
    match o {
        Some(s) => s,
        None => d,
    }
}

/// The value under `key` of an optional value.
pub open spec fn get_in(o: Option<SpecJson>, key: Seq<char>) -> Option<SpecJson> {
    match o {
        Some(j) => json_get(j, key),
        None => None,
    }
}

/// The text of a string value, or `d`.
pub fn str_field_or(o: Option<&Json>, d: &str) -> (r: String)
    ensures
        r@ == str_or(json_str(opt_json_view(o)), d@),
{
    match o {
        Some(j) => match j.as_str() {
            Some(s) => s.to_owned(),
            None => d.to_owned(),
        },
        None => d.to_owned(),
    }
}

/// The value under `key` of an optional value.
pub fn get_in_exec<'a>(o: Option<&'a Json>, key: &str) -> (r: Option<&'a Json>)
    ensures
        opt_json_view(r) == get_in(opt_json_view(o), key@),
{
    match o {
        Some(j) => j.get(key),
        None => None,
    }
}

/// The string `s` as a JSON value.
pub fn jstr(s: &str) -> (r: Json)
    ensures
        r@ == SpecJson::Str(s@),
{
    Json::Str(s.to_owned())
}

/// Appends the entry `k: v` to the entries of an object.
pub fn push_entry(es: &mut Vec<(String, Json)>, k: &str, v: Json)
    ensures
        entries_view(final(es)@) == entries_view(old(es)@).push((k@, v@)),
{
    let e = (k.to_owned(), v);
    proof {
        lemma_entries_view_push(es@, e);
    }
    es.push(e);
}

/// The object `{k1: v1}`.
pub fn obj1(k1: &str, v1: Json) -> (r: Json)
    ensures
        r@ == SpecJson::Object(seq![(k1@, v1@)]),
{
    let mut es: Vec<(String, Json)> = Vec::new();
    assert(entries_view(es@) =~= Seq::<(Seq<char>, SpecJson)>::empty());
    push_entry(&mut es, k1, v1);
    assert(entries_view(es@) =~= seq![(k1@, v1@)]);
    Json::Object(es)
}

/// The object `{k1: v1, k2: v2}`.
pub fn obj2(k1: &str, v1: Json, k2: &str, v2: Json) -> (r: Json)
    ensures
        r@ == SpecJson::Object(seq![(k1@, v1@), (k2@, v2@)]),
{
    let mut es: Vec<(String, Json)> = Vec::new();
    assert(entries_view(es@) =~= Seq::<(Seq<char>, SpecJson)>::empty());
    push_entry(&mut es, k1, v1);
    push_entry(&mut es, k2, v2);
    assert(entries_view(es@) =~= seq![(k1@, v1@), (k2@, v2@)]);
    Json::Object(es)
}

/// The object `{k1: v1, k2: v2, k3: v3}`.
pub fn obj3(k1: &str, v1: Json, k2: &str, v2: Json, k3: &str, v3: Json) -> (r: Json)
    ensures
        r@ == SpecJson::Object(seq![(k1@, v1@), (k2@, v2@), (k3@, v3@)]),
{
    let mut es: Vec<(String, Json)> = Vec::new();
    assert(entries_view(es@) =~= Seq::<(Seq<char>, SpecJson)>::empty());
    push_entry(&mut es, k1, v1);
    push_entry(&mut es, k2, v2);
    push_entry(&mut es, k3, v3);
    assert(entries_view(es@) =~= seq![(k1@, v1@), (k2@, v2@), (k3@, v3@)]);
    Json::Object(es)
}

/// The object `{k1: v1, k2: v2, k3: v3, k4: v4}`.
pub fn obj4(k1: &str, v1: Json, k2: &str, v2: Json, k3: &str, v3: Json, k4: &str, v4: Json) -> (r:
    Json)
    ensures
        r@ == SpecJson::Object(seq![(k1@, v1@), (k2@, v2@), (k3@, v3@), (k4@, v4@)]),
{
    let mut es: Vec<(String, Json)> = Vec::new();
    assert(entries_view(es@) =~= Seq::<(Seq<char>, SpecJson)>::empty());
    push_entry(&mut es, k1, v1);
    push_entry(&mut es, k2, v2);
    push_entry(&mut es, k3, v3);
    push_entry(&mut es, k4, v4);
    assert(entries_view(es@) =~= seq![(k1@, v1@), (k2@, v2@), (k3@, v3@), (k4@, v4@)]);
    Json::Object(es)
}

/// The object `{k1: v1, k2: v2, k3: v3, k4: v4, k5: v5}`.
pub fn obj5(
    k1: &str,
    v1: Json,
    k2: &str,
    v2: Json,
    k3: &str,
    v3: Json,
    k4: &str,
    v4: Json,
    k5: &str,
    v5: Json,
) -> (r: Json)
    ensures
        r@ == SpecJson::Object(seq![(k1@, v1@), (k2@, v2@), (k3@, v3@), (k4@, v4@), (k5@, v5@)]),
{
    let mut es: Vec<(String, Json)> = Vec::new();
    assert(entries_view(es@) =~= Seq::<(Seq<char>, SpecJson)>::empty());
    push_entry(&mut es, k1, v1);
    push_entry(&mut es, k2, v2);
    push_entry(&mut es, k3, v3);
    push_entry(&mut es, k4, v4);
    push_entry(&mut es, k5, v5);
    assert(entries_view(es@) =~= seq![(k1@, v1@), (k2@, v2@), (k3@, v3@), (k4@, v4@), (k5@, v5@)]);
    Json::Object(es)
}

/// The array `[v]`.
pub fn arr1(v: Json) -> (r: Json)
    ensures
        r@ == SpecJson::Array(seq![v@]),
{
    let mut items: Vec<Json> = Vec::new();
    proof {
        lemma_jsons_view_push(items@, v);
    }
    items.push(v);
    assert(jsons_view(items@) =~= seq![v@]);
    Json::Array(items)
}

/// An array of strings.
pub fn str_array(v: &Vec<String>) -> (r: Json)
    ensures
        r@ == SpecJson::Array(v@.map_values(|s: String| SpecJson::Str(s@))),
{
    let mut items: Vec<Json> = Vec::new();
    let mut i: usize = 0;
    while i < v.len()
        invariant
            i <= v@.len(),
            jsons_view(items@) =~= v@.take(i as int).map_values(|s: String| SpecJson::Str(s@)),
        decreases v@.len() - i,
    {
        let j = jstr(v[i].as_str());
        proof {
            lemma_jsons_view_push(items@, j);
            assert(v@.take(i + 1) =~= v@.take(i as int).push(v@[i as int]));
        }
        items.push(j);
        i = i + 1;
    }
    assert(v@.take(v@.len() as int) =~= v@);
    Json::Array(items)
}

/// A deep copy of a value.
pub fn clone_json(j: &Json) -> (r: Json)
    ensures
        r@ == j@,
    decreases j,
{
    match j {
        Json::Null => Json::Null,
        Json::Bool(b) => Json::Bool(*b),
        Json::Number(n) => Json::Number(n.clone()),
        Json::Str(s) => Json::Str(s.clone()),
        Json::Array(v) => {
            let mut out: Vec<Json> = Vec::new();
            let mut i: usize = 0;
            while i < v.len()
                invariant
                    *j == Json::Array(*v),
                    i <= v@.len(),
                    jsons_view(out@) == jsons_view(v@.subrange(0, i as int)),
                decreases v@.len() - i,
            {
                assert(decreases_to!(*j => (*j)->Array_0));
                assert(decreases_to!(v => v@));
                assert(decreases_to!(v@ => v@[i as int]));
                let c = clone_json(&v[i]);
                proof {
                    lemma_jsons_view_push(out@, c);
                    lemma_jsons_view_push(v@.subrange(0, i as int), v@[i as int]);
                    assert(v@.subrange(0, i + 1) =~= v@.subrange(0, i as int).push(v@[i as int]));
                }
                out.push(c);
                i = i + 1;
            }
            assert(v@.subrange(0, v@.len() as int) =~= v@);
            Json::Array(out)
        },
        Json::Object(es) => {
            let mut out: Vec<(String, Json)> = Vec::new();
            let mut i: usize = 0;
            while i < es.len()
                invariant
                    *j == Json::Object(*es),
                    i <= es@.len(),
                    entries_view(out@) == entries_view(es@.subrange(0, i as int)),
                decreases es@.len() - i,
            {
                assert(decreases_to!(*j => (*j)->Object_0));
                assert(decreases_to!(es => es@));
                assert(decreases_to!(es@ => es@[i as int]));
                assert(decreases_to!(es@[i as int] => es@[i as int].1));
                let c = clone_json(&es[i].1);
                let e = (es[i].0.clone(), c);
                proof {
                    lemma_entries_view_push(out@, e);
                    lemma_entries_view_push(es@.subrange(0, i as int), es@[i as int]);
                    assert(es@.subrange(0, i + 1) =~= es@.subrange(0, i as int).push(es@[i as int]));
                }
                out.push(e);
                i = i + 1;
            }
            assert(es@.subrange(0, es@.len() as int) =~= es@);
            Json::Object(out)
        },
    }
}

// ===================================================================
// Text form, through serde_json
// ===================================================================

#[verifier::external_type_specification]
#[verifier::external_body]
pub struct ExJsonValue(serde_json::Value);

/// What `serde_json::from_str` makes of a text, as a `Json`, or `None`
/// where it refuses the text.
pub uninterp spec fn parsed_json(text: Seq<char>) -> Option<SpecJson>;

/// The compact text that `serde_json` writes for a value.
pub uninterp spec fn json_text(j: SpecJson) -> Seq<char>;

/// Converts a `serde_json::Value` into a `Json`, one variant for one; a
/// number keeps the text that its `Display` writes.
#[verifier::external_body]
fn from_value(v: serde_json::Value) -> Json {
    match v {
        serde_json::Value::Null => Json::Null,
        serde_json::Value::Bool(b) => Json::Bool(b),
        serde_json::Value::Number(n) => Json::Number(n.to_string()),
        serde_json::Value::String(s) => Json::Str(s),
        serde_json::Value::Array(a) => Json::Array(a.into_iter().map(from_value).collect()),
        serde_json::Value::Object(m) => Json::Object(
            m.into_iter().map(|(k, x)| (k, from_value(x))).collect(),
        ),
    }
}

/// Converts a `Json` into a `serde_json::Value`, one variant for one; a
/// number whose text `serde_json` does not read as a number becomes `null`.
#[verifier::external_body]
fn to_value(j: &Json) -> serde_json::Value {
    match j {
        Json::Null => serde_json::Value::Null,
        Json::Bool(b) => serde_json::Value::Bool(*b),
        Json::Number(n) => n.parse().map_or(serde_json::Value::Null, serde_json::Value::Number),
        Json::Str(s) => serde_json::Value::String(s.clone()),
        Json::Array(a) => serde_json::Value::Array(a.iter().map(to_value).collect()),
        Json::Object(es) => serde_json::Value::Object(
            es.iter().map(|(k, x)| (k.clone(), to_value(x))).collect(),
        ),
    }
}

/// `serde_json::from_str` into a `serde_json::Value`, converted. The
/// contract names the result: `parsed_json` of the text.
#[verifier::external_body]
pub(crate) fn parse_json(text: &str) -> (r: Option<Json>)
    ensures
        (match r {
            Some(j) => Some(j@),
            None => None,
        }) == parsed_json(text@),
{
    serde_json::from_str::<serde_json::Value>(text).ok().map(from_value)
}

/// The `Display` text of the `serde_json::Value` of `j` (compact JSON). The
/// contract names the result: `json_text` of the value.
#[verifier::external_body]
pub(crate) fn write_json(j: &Json) -> (r: String)
    ensures
        r@ == json_text(j@),
{
    to_value(j).to_string()
}

} // verus!
