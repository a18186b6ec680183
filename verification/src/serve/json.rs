//! The values that cross the wire.

use vstd::prelude::*;
use crate::chars::{group_views, own, same, views};

verus! {

broadcast use group_views;

/// A value: numbers are counts, and an object keeps its keys in order.
#[derive(Debug, PartialEq, Eq)]
pub enum Json {
    Null,
    Bool(bool),
    Number(u64),
    Text(String),
    Array(Vec<Json>),
    Object(Vec<(String, Json)>),
}

#[verifier::ext_equal]
pub enum JsonView {
    Null,
    Bool(bool),
    Number(u64),
    Text(Seq<char>),
    Array(Seq<JsonView>),
    Object(Seq<(Seq<char>, JsonView)>),
}

pub open spec fn json_view(j: Json) -> JsonView
    decreases j,
{
    match j {
        Json::Null => JsonView::Null,
        Json::Bool(b) => JsonView::Bool(b),
        Json::Number(n) => JsonView::Number(n),
        Json::Text(text) => JsonView::Text(text@),
        Json::Array(items) => JsonView::Array(
            Seq::new(
                items@.len(),
                |i: int|
                    if 0 <= i < items@.len() {
                        json_view(items@[i])
                    } else {
                        arbitrary()
                    },
            ),
        ),
        Json::Object(entries) => JsonView::Object(
            Seq::new(
                entries@.len(),
                |i: int|
                    if 0 <= i < entries@.len() {
                        (entries@[i].0@, json_view(entries@[i].1))
                    } else {
                        arbitrary()
                    },
            ),
        ),
    }
}

impl View for Json {
    type V = JsonView;

    open spec fn view(&self) -> JsonView {
        json_view(*self)
    }
}

/// The entries of an object.
pub open spec fn entries(v: Seq<(String, Json)>) -> Seq<(Seq<char>, JsonView)> {
    Seq::new(v.len(), |i: int| (v[i].0@, v[i].1@))
}

pub broadcast proof fn lemma_array_view(items: Vec<Json>)
    ensures
        #[trigger] json_view(Json::Array(items)) == JsonView::Array(views(items@)),
{
    assert(json_view(Json::Array(items))->Array_0 =~= views(items@));
}

pub broadcast proof fn lemma_object_view(v: Vec<(String, Json)>)
    ensures
        #[trigger] json_view(Json::Object(v)) == JsonView::Object(entries(v@)),
{
    assert(json_view(Json::Object(v))->Object_0 =~= entries(v@));
}

pub broadcast group group_json {
    lemma_array_view,
    lemma_object_view,
}

/// The value that an object holds under a key: the first such entry.
pub open spec fn entry_from(o: Seq<(Seq<char>, JsonView)>, i: int, key: Seq<char>) -> int
    decreases o.len() - i,
{
    if i < 0 || i >= o.len() || o[i].0 == key {
        i
    } else {
        entry_from(o, i + 1, key)
    }
}

pub open spec fn value_at(j: JsonView, key: Seq<char>) -> Option<JsonView> {
    match j {
        JsonView::Object(o) => {
            let i = entry_from(o, 0, key);
            if 0 <= i < o.len() {
                Some(o[i].1)
            } else {
                None
            }
        },
        _ => None,
    }
}

/// The first entry under a key is the one that is found.
pub proof fn lemma_entry(o: Seq<(Seq<char>, JsonView)>, from: int, i: int, key: Seq<char>)
    requires
        0 <= from <= i < o.len(),
        o[i].0 == key,
        forall|k: int| from <= k < i ==> (#[trigger] o[k]).0 != key,
    ensures
        entry_from(o, from, key) == i,
        from == 0 ==> value_at(JsonView::Object(o), key) == Some(o[i].1),
    decreases i - from,
{
    if from < i {
        lemma_entry(o, from + 1, i, key);
    }
}

/// A text, or nothing.
pub open spec fn text_or_null(o: Option<Seq<char>>) -> JsonView {
    match o {
        Some(text) => JsonView::Text(text),
        None => JsonView::Null,
    }
}

impl Json {
    pub fn text(s: &str) -> (r: Json)
        ensures
            r@ == JsonView::Text(s@),
    {
        Json::Text(own(s))
    }

    pub fn optional(o: &Option<String>) -> (r: Json)
        ensures
            r@ == text_or_null(crate::transcript::model::opt_text(*o)),
    {
        match o {
            Some(s) => Json::text(s.as_str()),
            None => Json::Null,
        }
    }

    /// The value under a key.
    pub fn get(&self, key: &str) -> (r: Option<&Json>)
        ensures
            match r {
                Some(j) => value_at(self@, key@) == Some(j@),
                None => value_at(self@, key@) is None,
            },
    {
        broadcast use group_json;

        match self {
            Json::Object(o) => {
                let ghost all = entries(o@);
                let mut i: usize = 0;
                while i < o.len()
                    invariant
                        i <= o@.len(),
                        all == entries(o@),
                        entry_from(all, 0, key@) == entry_from(all, i as int, key@),
                        self@ == JsonView::Object(all),
                    decreases o@.len() - i,
                {
                    if same(o[i].0.as_str(), key) {
                        return Some(&o[i].1);
                    }
                    i += 1;
                }
                None
            },
            _ => None,
        }
    }
}

/// An object without entries.
pub fn no_entries() -> (r: Vec<(String, Json)>)
    ensures
        entries(r@) == Seq::<(Seq<char>, JsonView)>::empty(),
{
    let r: Vec<(String, Json)> = Vec::new();
    assert(entries(r@) =~= Seq::<(Seq<char>, JsonView)>::empty());
    r
}

/// Add an entry to an object.
pub fn put(o: &mut Vec<(String, Json)>, key: &str, value: Json)
    ensures
        entries(final(o)@) == entries(old(o)@).push((key@, value@)),
{
    let ghost before = entries(o@);
    o.push((own(key), value));
    assert(entries(o@) =~= before.push((key@, value@)));
}

/// An object of these entries.
pub fn object(o: Vec<(String, Json)>) -> (r: Json)
    ensures
        r@ == JsonView::Object(entries(o@)),
{
    broadcast use group_json;

    Json::Object(o)
}

} // verus!
