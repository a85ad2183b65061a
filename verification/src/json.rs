//! JSON values.

use crate::text::{decimal, decimal_of, same_text};
use vstd::prelude::*;

verus! {

/// A JSON value. Numbers are kept as the text they are written with.
#[derive(Debug)]
pub enum Json {
    Null,
    Bool(bool),
    Number(String),
    Text(String),
    Array(Vec<Json>),
    Object(Vec<(String, Json)>),
}

/// The mathematical counterpart of [`Json`].
pub enum JsonView {
    Null,
    Bool(bool),
    Number(Seq<char>),
    Text(Seq<char>),
    Array(Seq<JsonView>),
    Object(Seq<(Seq<char>, JsonView)>),
}

pub open spec fn json_view(value: Json) -> JsonView
    decreases value,
{
    match value {
        Json::Null => JsonView::Null,
        Json::Bool(b) => JsonView::Bool(b),
        Json::Number(n) => JsonView::Number(n@),
        Json::Text(t) => JsonView::Text(t@),
        Json::Array(items) => JsonView::Array(items_view(items@)),
        Json::Object(fields) => JsonView::Object(fields_view(fields@)),
    }
}

pub open spec fn items_view(items: Seq<Json>) -> Seq<JsonView>
    decreases items,
{
    if items.len() == 0 {
        seq![]
    } else {
        items_view(items.drop_last()).push(json_view(items.last()))
    }
}

pub open spec fn fields_view(fields: Seq<(String, Json)>) -> Seq<(Seq<char>, JsonView)>
    decreases fields,
{
    if fields.len() == 0 {
        seq![]
    } else {
        fields_view(fields.drop_last()).push((fields.last().0@, json_view(fields.last().1)))
    }
}

impl View for Json {
    type V = JsonView;

    open spec fn view(&self) -> JsonView {
        json_view(*self)
    }
}

pub proof fn lemma_items_view(items: Seq<Json>)
    ensures
        items_view(items).len() == items.len(),
        forall|i: int| 0 <= i < items.len() ==> #[trigger] items_view(items)[i] == items[i]@,
    decreases items.len(),
{
    if items.len() > 0 {
        lemma_items_view(items.drop_last());
        let before = items_view(items.drop_last());
        let all = items_view(items);
        assert forall|i: int| 0 <= i < items.len() implies #[trigger] all[i] == items[i]@ by {
            if i < items.len() - 1 {
                assert(all[i] == before[i]);
                assert(items.drop_last()[i] == items[i]);
            }
        }
    }
}

pub proof fn lemma_fields_view(fields: Seq<(String, Json)>)
    ensures
        fields_view(fields).len() == fields.len(),
        forall|i: int|
            0 <= i < fields.len() ==> #[trigger] fields_view(fields)[i] == (
                fields[i].0@,
                fields[i].1@,
            ),
    decreases fields.len(),
{
    if fields.len() > 0 {
        lemma_fields_view(fields.drop_last());
        let before = fields_view(fields.drop_last());
        let all = fields_view(fields);
        assert forall|i: int| 0 <= i < fields.len() implies #[trigger] all[i] == (
            fields[i].0@,
            fields[i].1@,
        ) by {
            if i < fields.len() - 1 {
                assert(all[i] == before[i]);
                assert(fields.drop_last()[i] == fields[i]);
            }
        }
    }
}

// ---------------------------------------------------------------------------
// Parsing
// ---------------------------------------------------------------------------
/// What `serde_json` reads in a text: a value, or why there is none.
pub uninterp spec fn json_parsed(text: Seq<char>) -> Result<JsonView, Seq<char>>;

pub open spec fn parsed_view(r: Result<Json, String>) -> Result<JsonView, Seq<char>> {
    match r {
        Ok(value) => Ok(value@),
        Err(message) => Err(message@),
    }
}

/// Calls `serde_json::from_str`.
///
/// Taken on trust: the value, or the message, depends on the text alone.
#[verifier::external_body]
pub(crate) fn parse_json(text: &str) -> (r: Result<Json, String>)
    ensures
        parsed_view(r) == json_parsed(text@),
{
    match serde_json::from_str::<serde_json::Value>(text) {
        Ok(value) => Ok(from_value(value)),
        Err(error) => Err(error.to_string()),
    }
}

/// A value as `serde_json` holds it.
#[verifier::external_type_specification]
#[verifier::external_body]
pub struct ExValue(serde_json::Value);

/// Moves a `serde_json::Value` into a [`Json`], variant by variant.
#[verifier::external_body]
fn from_value(value: serde_json::Value) -> Json {
    match value {
        serde_json::Value::Null => Json::Null,
        serde_json::Value::Bool(b) => Json::Bool(b),
        serde_json::Value::Number(n) => Json::Number(n.to_string()),
        serde_json::Value::String(s) => Json::Text(s),
        serde_json::Value::Array(items) => Json::Array(items.into_iter().map(from_value).collect()),
        serde_json::Value::Object(fields) => {
            Json::Object(fields.into_iter().map(|(k, v)| (k, from_value(v))).collect())
        },
    }
}

// ---------------------------------------------------------------------------
// Writing
// ---------------------------------------------------------------------------
/// The text with which `serde_json` writes an object.
pub uninterp spec fn object_text(fields: Seq<(Seq<char>, JsonView)>) -> Seq<char>;

/// Calls `serde_json::Value::to_string` on an object with these fields.
///
/// Taken on trust: the text depends on the fields alone.
#[verifier::external_body]
pub(crate) fn encode_object(fields: &Vec<(String, Json)>) -> (r: String)
    ensures
        r@ == object_text(fields_view(fields@)),
{
    serde_json::Value::Object(
        fields.iter().map(|field| (field.0.clone(), to_value(&field.1))).collect(),
    ).to_string()
}

/// Copies a [`Json`] into a `serde_json::Value`, variant by variant. What stands for a
/// number without being one is kept as a string.
#[verifier::external_body]
fn to_value(value: &Json) -> serde_json::Value {
    match value {
        Json::Null => serde_json::Value::Null,
        Json::Bool(b) => serde_json::Value::Bool(*b),
        Json::Number(n) => match serde_json::from_str::<serde_json::Number>(n) {
            Ok(number) => serde_json::Value::Number(number),
            Err(_) => serde_json::Value::String(n.clone()),
        },
        Json::Text(t) => serde_json::Value::String(t.clone()),
        Json::Array(items) => serde_json::Value::Array(items.iter().map(to_value).collect()),
        Json::Object(fields) => serde_json::Value::Object(
            fields.iter().map(|field| (field.0.clone(), to_value(&field.1))).collect(),
        ),
    }
}

// ---------------------------------------------------------------------------
// Access
// ---------------------------------------------------------------------------
/// The first field with this key.
pub open spec fn find_field(fields: Seq<(Seq<char>, JsonView)>, key: Seq<char>) -> Option<JsonView>
    decreases fields.len(),
{
    if fields.len() == 0 {
        None
    } else if fields.first().0 == key {
        Some(fields.first().1)
    } else {
        find_field(fields.drop_first(), key)
    }
}

/// The field of an object.
pub open spec fn json_get(value: JsonView, key: Seq<char>) -> Option<JsonView> {
    match value {
        JsonView::Object(fields) => find_field(fields, key),
        _ => None,
    }
}

/// The item of an array at a place written in decimal.
pub open spec fn item_named(items: Seq<JsonView>, name: Seq<char>) -> Option<JsonView>
    decreases items.len(),
{
    if items.len() == 0 {
        None
    } else if name == decimal((items.len() - 1) as nat) {
        Some(items.last())
    } else {
        item_named(items.drop_last(), name)
    }
}

/// One step of a pointer: a field of an object or an item of an array.
pub open spec fn json_step(value: JsonView, name: Seq<char>) -> Option<JsonView> {
    match value {
        JsonView::Object(fields) => find_field(fields, name),
        JsonView::Array(items) => item_named(items, name),
        _ => None,
    }
}

/// The value that a list of steps leads to.
pub open spec fn json_pointer(value: JsonView, path: Seq<&str>) -> Option<JsonView>
    decreases path.len(),
{
    if path.len() == 0 {
        Some(value)
    } else {
        match json_pointer(value, path.drop_last()) {
            Some(inner) => json_step(inner, path.last()@),
            None => None,
        }
    }
}

pub open spec fn as_text(value: Option<JsonView>) -> Option<Seq<char>> {
    match value {
        Some(JsonView::Text(t)) => Some(t),
        _ => None,
    }
}

pub open spec fn as_items(value: Option<JsonView>) -> Option<Seq<JsonView>> {
    match value {
        Some(JsonView::Array(items)) => Some(items),
        _ => None,
    }
}

pub open spec fn opt_json(value: Option<&Json>) -> Option<JsonView> {
    match value {
        Some(v) => Some(v@),
        None => None,
    }
}

fn find_in<'a>(fields: &'a Vec<(String, Json)>, key: &str) -> (r: Option<&'a Json>)
    ensures
        opt_json(r) == find_field(fields_view(fields@), key@),
{
    let ghost all = fields_view(fields@);
    proof {
        lemma_fields_view(fields@);
    }
    assert(all.skip(0) =~= all);
    for i in 0..fields.len()
        invariant
            all == fields_view(fields@),
            all.len() == fields@.len(),
            forall|k: int|
                0 <= k < fields@.len() ==> #[trigger] all[k] == (fields@[k].0@, fields@[k].1@),
            find_field(all, key@) == find_field(all.skip(i as int), key@),
    {
        assert(all.skip(i as int).first() == (fields@[i as int].0@, fields@[i as int].1@));
        assert(all.skip(i as int).drop_first() =~= all.skip(i + 1));
        if same_text(fields[i].0.as_str(), key) {
            return Some(&fields[i].1);
        }
    }
    None
}

fn item_in<'a>(items: &'a Vec<Json>, name: &str) -> (r: Option<&'a Json>)
    ensures
        opt_json(r) == item_named(items_view(items@), name@),
{
    let ghost all = items_view(items@);
    proof {
        lemma_items_view(items@);
    }
    let mut i: usize = items.len();
    assert(all.take(i as int) =~= all);
    while i > 0
        invariant
            i <= items@.len(),
            all == items_view(items@),
            all.len() == items@.len(),
            forall|k: int| 0 <= k < items@.len() ==> #[trigger] all[k] == items@[k]@,
            item_named(all, name@) == item_named(all.take(i as int), name@),
        decreases i,
    {
        assert(all.take(i as int).last() == items@[i - 1]@);
        assert(all.take(i as int).drop_last() =~= all.take(i - 1));
        if same_text(decimal_of((i - 1) as u64).as_str(), name) {
            return Some(&items[i - 1]);
        }
        i = i - 1;
    }
    None
}

impl Json {
    /// The field of an object.
    pub fn get(&self, key: &str) -> (r: Option<&Json>)
        ensures
            opt_json(r) == json_get(self@, key@),
    {
        match self {
            Json::Object(fields) => find_in(fields, key),
            _ => None,
        }
    }

    fn step(&self, name: &str) -> (r: Option<&Json>)
        ensures
            opt_json(r) == json_step(self@, name@),
    {
        match self {
            Json::Object(fields) => find_in(fields, name),
            Json::Array(items) => item_in(items, name),
            _ => None,
        }
    }

    /// The value that a list of steps leads to.
    pub fn pointer(&self, path: &[&str]) -> (r: Option<&Json>)
        ensures
            opt_json(r) == json_pointer(self@, path@),
    {
        let mut current: Option<&Json> = Some(self);
        for i in 0..path.len()
            invariant
                opt_json(current) == json_pointer(self@, path@.take(i as int)),
        {
            assert(path@.take(i + 1).drop_last() =~= path@.take(i as int));
            current = match current {
                Some(value) => value.step(path[i]),
                None => None,
            };
        }
        assert(path@.take(path@.len() as int) =~= path@);
        current
    }
}

/// The text of a string value.
pub fn text_of(value: Option<&Json>) -> (r: Option<String>)
    ensures
        crate::text::opt_text(r) == as_text(opt_json(value)),
{
    match value {
        Some(Json::Text(t)) => Some(t.clone()),
        _ => None,
    }
}

/// The items of an array value.
pub fn items_of<'a>(value: Option<&'a Json>) -> (r: Option<&'a Vec<Json>>)
    ensures
        match r {
            Some(items) => as_items(opt_json(value)) == Some(items_view(items@)),
            None => as_items(opt_json(value)) is None,
        },
{
    match value {
        Some(Json::Array(items)) => Some(items),
        _ => None,
    }
}

// ---------------------------------------------------------------------------
// Building and measuring
// ---------------------------------------------------------------------------
/// The fields with `value` under `key`: in place of the first field with that
/// key, or at the end.
pub open spec fn put_field(
    fields: Seq<(Seq<char>, JsonView)>,
    key: Seq<char>,
    value: JsonView,
) -> Seq<(Seq<char>, JsonView)>
    decreases fields.len(),
{
    if fields.len() == 0 {
        seq![(key, value)]
    } else if fields.first().0 == key {
        seq![(key, value)] + fields.drop_first()
    } else {
        seq![fields.first()] + put_field(fields.drop_first(), key, value)
    }
}

pub proof fn lemma_fields_push(fields: Seq<(String, Json)>, field: (String, Json))
    ensures
        fields_view(fields.push(field)) == fields_view(fields).push((field.0@, field.1@)),
{
    assert(fields.push(field).drop_last() =~= fields);
}

/// Puts a value under a key; a field with that key is replaced.
pub fn insert_field(fields: &mut Vec<(String, Json)>, key: &str, value: Json)
    ensures
        fields_view(final(fields)@) == put_field(fields_view(old(fields)@), key@, value@),
{
    let ghost before = fields@;
    let ghost all = fields_view(before);
    proof {
        lemma_fields_view(before);
    }
    let mut i: usize = 0;
    assert(all.skip(0) =~= all);
    assert(put_field(all, key@, value@) =~= all.take(0) + put_field(all.skip(0), key@, value@));
    while i < fields.len() && !same_text(fields[i].0.as_str(), key)
        invariant
            i <= fields@.len(),
            fields@ == before,
            all.len() == before.len(),
            forall|k: int|
                0 <= k < before.len() ==> #[trigger] all[k] == (before[k].0@, before[k].1@),
            put_field(all, key@, value@) == all.take(i as int) + put_field(
                all.skip(i as int),
                key@,
                value@,
            ),
        decreases fields.len() - i,
    {
        let ghost rest = all.skip(i as int);
        assert(rest.first() == (before[i as int].0@, before[i as int].1@));
        assert(rest.drop_first() =~= all.skip(i + 1));
        assert(all.take(i as int) + (seq![rest.first()] + put_field(
            all.skip(i + 1),
            key@,
            value@,
        )) =~= all.take(i + 1) + put_field(all.skip(i + 1), key@, value@));
        i = i + 1;
    }
    if i < fields.len() {
        let ghost rest = all.skip(i as int);
        assert(rest.first() == (before[i as int].0@, before[i as int].1@));
        assert(rest.drop_first() =~= all.skip(i + 1));
        let entry = (key.to_owned(), value);
        fields.set(i, entry);
        proof {
            lemma_fields_view(fields@);
            let expect = all.take(i as int) + (seq![(key@, value@)] + all.skip(i + 1));
            assert(fields_view(fields@) =~= expect);
        }
    } else {
        assert(all.skip(i as int) =~= seq![]);
        let entry = (key.to_owned(), value);
        fields.push(entry);
        proof {
            lemma_fields_push(before, entry);
            assert(fields_view(fields@) =~= all.take(i as int) + seq![(key@, value@)]);
        }
    }
}

/// Whether an object has a field with this key.
pub fn has_field(fields: &Vec<(String, Json)>, key: &str) -> (b: bool)
    ensures
        b == (find_field(fields_view(fields@), key@) is Some),
{
    find_in(fields, key).is_some()
}

/// How deeply arrays and objects are nested.
pub open spec fn json_depth(value: Json) -> nat
    decreases value,
{
    match value {
        Json::Array(items) => 1 + items_depth(items@),
        Json::Object(fields) => 1 + fields_depth(fields@),
        _ => 0,
    }
}

pub open spec fn items_depth(items: Seq<Json>) -> nat
    decreases items,
{
    if items.len() == 0 {
        0
    } else {
        let before = items_depth(items.drop_last());
        let here = json_depth(items.last());
        if here > before { here } else { before }
    }
}

pub open spec fn fields_depth(fields: Seq<(String, Json)>) -> nat
    decreases fields,
{
    if fields.len() == 0 {
        0
    } else {
        let before = fields_depth(fields.drop_last());
        let here = json_depth(fields.last().1);
        if here > before { here } else { before }
    }
}

/// Whether arrays and objects are nested more than `limit` deep.
pub fn deeper_than(value: &Json, limit: usize) -> (b: bool)
    ensures
        b == (json_depth(*value) > limit),
    decreases value,
{
    match value {
        Json::Array(items) => limit == 0 || any_item_deeper(items, limit - 1),
        Json::Object(fields) => limit == 0 || any_field_deeper(fields, limit - 1),
        _ => false,
    }
}

fn any_item_deeper(items: &Vec<Json>, limit: usize) -> (b: bool)
    ensures
        b == (items_depth(items@) > limit),
    decreases items,
{
    let mut found = false;
    for i in 0..items.len()
        invariant
            found == (items_depth(items@.take(i as int)) > limit),
    {
        assert(items@.take(i + 1).drop_last() =~= items@.take(i as int));
        assert(decreases_to!(items => items@[i as int]));
        if deeper_than(&items[i], limit) {
            found = true;
        }
    }
    assert(items@.take(items@.len() as int) =~= items@);
    found
}

/// Whether any field is nested more than `limit` deep.
pub fn any_field_deeper(fields: &Vec<(String, Json)>, limit: usize) -> (b: bool)
    ensures
        b == (fields_depth(fields@) > limit),
    decreases fields,
{
    let mut found = false;
    for i in 0..fields.len()
        invariant
            found == (fields_depth(fields@.take(i as int)) > limit),
    {
        assert(fields@.take(i + 1).drop_last() =~= fields@.take(i as int));
        assert(decreases_to!(fields => fields@[i as int]));
        assert(decreases_to!(fields@[i as int] => fields@[i as int].1));
        if deeper_than(&fields[i].1, limit) {
            found = true;
        }
    }
    assert(fields@.take(fields@.len() as int) =~= fields@);
    found
}

} // verus!
