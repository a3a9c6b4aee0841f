//! JSON values: what channels read from platforms and hand to them.

use crate::order::put;
use crate::text::same_text;
use serde_json::Value;
use vstd::prelude::*;

verus! {

/// A JSON value. Numbers are held as they are written, objects as their fields
/// in order.
#[derive(Debug, PartialEq, Eq)]
pub enum Json {
    Null,
    Bool(bool),
    Number(String),
    Text(String),
    List(Vec<Json>),
    Object(Vec<(String, Json)>),
}

/// The contents of a JSON value.
pub enum Tree {
    Null,
    Bool(bool),
    Number(Seq<char>),
    Text(Seq<char>),
    List(Seq<Tree>),
    Object(Seq<(Seq<char>, Tree)>),
}

impl View for Json {
    type V = Tree;

    open spec fn view(&self) -> Tree
        decreases self,
    {
        match self {
            Json::Null => Tree::Null,
            Json::Bool(b) => Tree::Bool(*b),
            Json::Number(n) => Tree::Number(n@),
            Json::Text(s) => Tree::Text(s@),
            Json::List(items) => Tree::List(
                Seq::new(
                    items@.len(),
                    |i: int|
                        if 0 <= i < items@.len() {
                            items@[i].view()
                        } else {
                            Tree::Null
                        },
                ),
            ),
            Json::Object(fields) => Tree::Object(fields_view(fields@)),
        }
    }
}

/// The contents of an object's fields, one after the other.
pub open spec fn fields_view(fields: Seq<(String, Json)>) -> Seq<(Seq<char>, Tree)>
    decreases fields,
{
    if fields.len() == 0 {
        Seq::empty()
    } else {
        let last = fields[fields.len() - 1];
        fields_view(fields.subrange(0, fields.len() - 1)).push((last.0@, last.1.view()))
    }
}

/// The contents of a list of JSON values.
pub open spec fn trees(items: Seq<Json>) -> Seq<Tree> {
    Seq::new(items.len(), |i: int| items[i]@)
}

/// The contents of the fields of an object.
pub open spec fn field_trees(fields: Seq<(String, Json)>) -> Seq<(Seq<char>, Tree)> {
    Seq::new(fields.len(), |i: int| (fields[i].0@, fields[i].1@))
}

/// The fields of an object, as they are added one after the other.
pub struct FieldList(pub Seq<(Seq<char>, Tree)>);

/// No fields.
pub open spec fn fields() -> FieldList {
    FieldList(Seq::empty())
}

impl FieldList {
    /// The fields with one more at the end.
    pub open spec fn with(self, name: Seq<char>, value: Tree) -> FieldList {
        FieldList(self.0.push((name, value)))
    }

    /// The fields with a string field more at the end.
    pub open spec fn text(self, name: Seq<char>, value: Seq<char>) -> FieldList {
        self.with(name, Tree::Text(value))
    }

    /// The object with these fields.
    pub open spec fn tree(self) -> Tree {
        Tree::Object(self.0)
    }
}

/// The value of the first field with the given name.
pub open spec fn field_of(fields: Seq<(Seq<char>, Tree)>, name: Seq<char>) -> Option<Tree>
    decreases fields.len(),
{
    if fields.len() == 0 {
        None
    } else if fields[0].0 == name {
        Some(fields[0].1)
    } else {
        field_of(fields.skip(1), name)
    }
}

impl Tree {
    /// The field of an object; other values have none.
    pub open spec fn get(self, name: Seq<char>) -> Option<Tree> {
        match self {
            Tree::Object(fields) => field_of(fields, name),
            _ => None,
        }
    }

    /// The text of a string; other values have none.
    pub open spec fn as_text(self) -> Option<Seq<char>> {
        match self {
            Tree::Text(s) => Some(s),
            _ => None,
        }
    }

    /// The text of the string field with the given name.
    pub open spec fn text_field(self, name: Seq<char>) -> Option<Seq<char>> {
        match self.get(name) {
            Some(value) => value.as_text(),
            None => None,
        }
    }
}

impl Json {
    /// The view of a list is the list of its items' views.
    pub proof fn lemma_list_view(items: Vec<Json>)
        ensures
            Json::List(items)@ == Tree::List(trees(items@)),
    {
        assert(Json::List(items)@->List_0 =~= trees(items@));
    }

    /// The view of an object is the list of its fields' views.
    pub proof fn lemma_object_view(fields: Vec<(String, Json)>)
        ensures
            Json::Object(fields)@ == Tree::Object(field_trees(fields@)),
    {
        lemma_fields_view(fields@);
    }

    /// A string value.
    pub fn text(s: &str) -> (r: Json)
        ensures
            r@ == Tree::Text(s@),
    {
        Json::Text(String::from_str(s))
    }

    /// The value of the field with the given name.
    pub fn get(&self, name: &str) -> (r: Option<&Json>)
        ensures
            match r {
                Some(value) => self@.get(name@) == Some(value@),
                None => self@.get(name@) is None,
            },
    {
        match self {
            Json::Object(fields) => {
                proof {
                    Json::lemma_object_view(*fields);
                }
                let ghost all = field_trees(fields@);
                let mut i: usize = 0;
                assert(all.skip(0) =~= all);
                while i < fields.len()
                    invariant
                        i <= fields@.len(),
                        all == field_trees(fields@),
                        self@ == Tree::Object(all),
                        field_of(all, name@) == field_of(all.skip(i as int), name@),
                    decreases fields@.len() - i,
                {
                    assert(all.skip(i as int)[0] == all[i as int]);
                    if same_text(fields[i].0.as_str(), name) {
                        return Some(&fields[i].1);
                    }
                    assert(all.skip(i as int).skip(1) =~= all.skip(i + 1));
                    i += 1;
                }
                None
            },
            _ => None,
        }
    }

    /// The text of a string value.
    pub fn as_str(&self) -> (r: Option<&str>)
        ensures
            match r {
                Some(s) => self@.as_text() == Some(s@),
                None => self@.as_text() is None,
            },
    {
        match self {
            Json::Text(s) => Some(s.as_str()),
            _ => None,
        }
    }

    /// The items of a list.
    pub fn as_array(&self) -> (r: Option<&Vec<Json>>)
        ensures
            match r {
                Some(items) => self@ == Tree::List(trees(items@)),
                None => !(self@ is List),
            },
    {
        match self {
            Json::List(items) => {
                proof {
                    Json::lemma_list_view(*items);
                }
                Some(items)
            },
            _ => None,
        }
    }

    /// The text of the string field with the given name.
    pub fn text_field(&self, name: &str) -> (r: Option<&str>)
        ensures
            match r {
                Some(s) => self@.text_field(name@) == Some(s@),
                None => self@.text_field(name@) is None,
            },
    {
        match self.get(name) {
            Some(value) => value.as_str(),
            None => None,
        }
    }

    /// A list value.
    pub fn list(items: Vec<Json>) -> (r: Json)
        ensures
            r@ == Tree::List(trees(items@)),
    {
        proof {
            Json::lemma_list_view(items);
        }
        Json::List(items)
    }

    /// Reads a JSON text.
    pub fn parse(text: &str) -> (r: Option<Json>)
        ensures
            match r {
                Some(json) => json_parse(text@) == Some(json@),
                None => json_parse(text@) is None,
            },
    {
        match parse_value(text) {
            Some(value) => Some(Json::of_value(value)),
            None => None,
        }
    }

    /// Writes the value as a JSON text.
    pub fn render(&self) -> (r: String)
        ensures
            r@ == text_of(self@),
    {
        value_text(&self.to_value())
    }

    /// The value in the form that is written.
    fn to_value(&self) -> (r: Value)
        ensures
            value_tree(r) == held(self@),
        decreases self@,
    {
        match self {
            Json::Null => null_value(),
            Json::Bool(b) => bool_value(*b),
            Json::Number(n) => match parse_value(n.as_str()) {
                Some(value) => value,
                None => null_value(),
            },
            Json::Text(s) => text_value(s.as_str()),
            Json::List(items) => {
                proof {
                    Json::lemma_list_view(*items);
                }
                let mut out: Vec<Value> = Vec::new();
                let mut i: usize = 0;
                while i < items.len()
                    invariant
                        i <= items@.len(),
                        self@ == Tree::List(trees(items@)),
                        out@.len() == i,
                        forall|k: int|
                            0 <= k < i ==> value_tree(#[trigger] out@[k]) == held(items@[k]@),
                    decreases items@.len() - i,
                {
                    proof {
                        lemma_item_is_smaller(self@, i as int);
                    }
                    out.push(items[i].to_value());
                    i += 1;
                }
                assert(value_trees(out@) =~= held(self@)->List_0);
                list_value(out)
            },
            Json::Object(fields) => {
                proof {
                    Json::lemma_object_view(*fields);
                }
                let ghost all = field_trees(fields@);
                let mut object = empty_object();
                let mut i: usize = 0;
                while i < fields.len()
                    invariant
                        i <= fields@.len(),
                        all == field_trees(fields@),
                        self@ == Tree::Object(all),
                        value_tree(object) == Tree::Object(held_fields(all.take(i as int))),
                    decreases fields@.len() - i,
                {
                    proof {
                        lemma_field_is_smaller(self@, i as int);
                        let next = all.take(i + 1);
                        assert(next.subrange(0, next.len() - 1) =~= all.take(i as int));
                    }
                    object = with_field(object, fields[i].0.as_str(), fields[i].1.to_value());
                    i += 1;
                }
                assert(all.take(i as int) =~= all);
                object
            },
        }
    }

    /// The library's form of a parsed value.
    fn of_value(value: Value) -> (r: Json)
        ensures
            r@ == value_tree(value),
        decreases value_tree(value),
    {
        match value_parts(value) {
            ValueParts::Null => Json::Null,
            ValueParts::Bool(b) => Json::Bool(b),
            ValueParts::Number(n) => Json::Number(n),
            ValueParts::Text(s) => Json::Text(s),
            ValueParts::List(items) => {
                let mut rest = items;
                let mut out: Vec<Json> = Vec::new();
                let ghost all = items@;
                while rest.len() > 0
                    invariant
                        value_tree(value) == Tree::List(value_trees(all)),
                        rest@.len() + out@.len() == all.len(),
                        rest@ == all.skip(out@.len() as int),
                        forall|k: int| 0 <= k < out@.len() ==> out@[k]@ == value_tree(all[k]),
                    decreases rest@.len(),
                {
                    let item = rest.remove(0);
                    let ghost k = out@.len() as int;
                    assert(value_trees(all)[k] == value_tree(item));
                    proof {
                        lemma_item_is_smaller(value_tree(value), k);
                    }
                    out.push(Json::of_value(item));
                }
                proof {
                    Json::lemma_list_view(out);
                    assert(trees(out@) =~= value_trees(all));
                }
                Json::List(out)
            },
            ValueParts::Object(fields) => {
                let mut rest = fields;
                let mut out: Vec<(String, Json)> = Vec::new();
                let ghost all = fields@;
                while rest.len() > 0
                    invariant
                        value_tree(value) == Tree::Object(value_fields(all)),
                        rest@.len() + out@.len() == all.len(),
                        rest@ == all.skip(out@.len() as int),
                        forall|k: int|
                            0 <= k < out@.len() ==> (#[trigger] out@[k]).0@ == all[k].0@
                                && out@[k].1@ == value_tree(all[k].1),
                    decreases rest@.len(),
                {
                    let field = rest.remove(0);
                    let ghost k = out@.len() as int;
                    assert(value_fields(all)[k] == (field.0@, value_tree(field.1)));
                    proof {
                        lemma_field_is_smaller(value_tree(value), k);
                    }
                    out.push((field.0, Json::of_value(field.1)));
                }
                proof {
                    Json::lemma_object_view(out);
                    assert(field_trees(out@) =~= value_fields(all));
                }
                Json::Object(out)
            },
        }
    }
}

proof fn lemma_fields_view(fields: Seq<(String, Json)>)
    ensures
        fields_view(fields) == field_trees(fields),
    decreases fields.len(),
{
    reveal_with_fuel(fields_view, 2);
    if fields.len() > 0 {
        lemma_fields_view(fields.subrange(0, fields.len() - 1));
    }
    assert(fields_view(fields) =~= field_trees(fields));
}

/// The items of a list are smaller than the list.
pub proof fn lemma_item_is_smaller(tree: Tree, k: int)
    requires
        tree is List,
        0 <= k < tree->List_0.len(),
    ensures
        decreases_to!(tree => tree->List_0[k]),
{
    assert(decreases_to!(tree => tree->List_0));
    assert(decreases_to!(tree->List_0 => tree->List_0[k]));
}

/// The values of an object's fields are smaller than the object.
pub proof fn lemma_field_is_smaller(tree: Tree, k: int)
    requires
        tree is Object,
        0 <= k < tree->Object_0.len(),
    ensures
        decreases_to!(tree => tree->Object_0[k].1),
{
    assert(decreases_to!(tree => tree->Object_0));
    assert(decreases_to!(tree->Object_0 => tree->Object_0[k]));
    assert(decreases_to!(tree->Object_0[k] => tree->Object_0[k].1));
}

/// Collects the fields of an object.
pub struct Fields {
    fields: Vec<(String, Json)>,
}

impl View for Fields {
    type V = FieldList;

    closed spec fn view(&self) -> FieldList {
        FieldList(field_trees(self.fields@))
    }
}

impl Fields {
    /// No fields.
    pub fn new() -> (r: Self)
        ensures
            r@ == fields(),
    {
        let r = Fields { fields: Vec::new() };
        assert(r@.0 =~= Seq::<(Seq<char>, Tree)>::empty());
        r
    }

    /// The fields with one more at the end.
    pub fn with(self, name: &str, value: Json) -> (r: Self)
        ensures
            r@ == self@.with(name@, value@),
    {
        let mut fields = self.fields;
        fields.push((String::from_str(name), value));
        let r = Fields { fields };
        assert(r@.0 =~= self@.with(name@, value@).0);
        r
    }

    /// The fields with a string field more at the end.
    pub fn text(self, name: &str, value: &str) -> (r: Self)
        ensures
            r@ == self@.text(name@, value@),
    {
        self.with(name, Json::text(value))
    }

    /// The object with these fields.
    pub fn object(self) -> (r: Json)
        ensures
            r@ == self@.tree(),
    {
        proof {
            Json::lemma_object_view(self.fields);
        }
        Json::Object(self.fields)
    }
}

/// A JSON value of `serde_json`.
#[verifier::external_type_specification]
#[verifier::external_body]
pub struct ExValue(Value);

/// What `serde_json::from_str` reads from a text, where the text is JSON.
pub uninterp spec fn json_parse(text: Seq<char>) -> Option<Tree>;

/// What `serde_json` writes for a value.
pub uninterp spec fn json_text(tree: Tree) -> Seq<char>;

/// What a `serde_json::Value` holds.
pub uninterp spec fn value_tree(value: Value) -> Tree;

/// What a list of values holds.
pub open spec fn value_trees(items: Seq<Value>) -> Seq<Tree> {
    Seq::new(items.len(), |i: int| value_tree(items[i]))
}

/// What the fields of an object hold.
pub open spec fn value_fields(fields: Seq<(String, Value)>) -> Seq<(Seq<char>, Tree)> {
    Seq::new(fields.len(), |i: int| (fields[i].0@, value_tree(fields[i].1)))
}

/// A value in the form that is written: the fields of objects by name, and
/// numbers as they read.
pub open spec fn held(tree: Tree) -> Tree
    decreases tree,
{
    match tree {
        Tree::Number(n) => match json_parse(n) {
            Some(number) => number,
            None => Tree::Null,
        },
        Tree::List(items) => Tree::List(
            Seq::new(
                items.len(),
                |i: int|
                    if 0 <= i < items.len() {
                        held(items[i])
                    } else {
                        Tree::Null
                    },
            ),
        ),
        Tree::Object(fields) => Tree::Object(held_fields(fields)),
        _ => tree,
    }
}

/// The fields of an object in the form that is written; of two with the same
/// name the later one stays.
pub open spec fn held_fields(fields: Seq<(Seq<char>, Tree)>) -> Seq<(Seq<char>, Tree)>
    decreases fields,
{
    if fields.len() == 0 {
        Seq::empty()
    } else {
        let last = fields[fields.len() - 1];
        put(held_fields(fields.subrange(0, fields.len() - 1)), last.0, held(last.1))
    }
}

/// The JSON text of a value.
pub open spec fn text_of(tree: Tree) -> Seq<char> {
    json_text(held(tree))
}

/// The outermost layer of a `serde_json::Value`.
pub enum ValueParts {
    Null,
    Bool(bool),
    Number(String),
    Text(String),
    List(Vec<Value>),
    Object(Vec<(String, Value)>),
}

impl ValueParts {
    /// What the parts hold together.
    pub open spec fn tree(self) -> Tree {
        match self {
            ValueParts::Null => Tree::Null,
            ValueParts::Bool(b) => Tree::Bool(b),
            ValueParts::Number(n) => Tree::Number(n@),
            ValueParts::Text(s) => Tree::Text(s@),
            ValueParts::List(items) => Tree::List(value_trees(items@)),
            ValueParts::Object(fields) => Tree::Object(value_fields(fields@)),
        }
    }
}

/// `serde_json::from_str` into a `Value`: the value that the text denotes, or
/// nothing where the text is not JSON.
#[verifier::external_body]
fn parse_value(text: &str) -> (r: Option<Value>)
    ensures
        match r {
            Some(value) => json_parse(text@) == Some(value_tree(value)),
            None => json_parse(text@) is None,
        },
{
    serde_json::from_str(text).ok()
}

/// The variants of `serde_json::Value`, with a number as it is displayed and an
/// object as its fields in the order of its map.
#[verifier::external_body]
fn value_parts(value: Value) -> (r: ValueParts)
    ensures
        r.tree() == value_tree(value),
{
    match value {
        Value::Null => ValueParts::Null,
        Value::Bool(b) => ValueParts::Bool(b),
        Value::Number(n) => ValueParts::Number(n.to_string()),
        Value::String(s) => ValueParts::Text(s),
        Value::Array(items) => ValueParts::List(items),
        Value::Object(map) => ValueParts::Object(map.into_iter().collect()),
    }
}

/// `serde_json::Value::to_string`: the text that is written for the value.
#[verifier::external_body]
fn value_text(value: &Value) -> (r: String)
    ensures
        r@ == json_text(value_tree(*value)),
{
    value.to_string()
}

/// `serde_json::Value::Null`.
#[verifier::external_body]
fn null_value() -> (r: Value)
    ensures
        value_tree(r) == Tree::Null,
{
    Value::Null
}

/// `serde_json::Value::Bool`.
#[verifier::external_body]
fn bool_value(b: bool) -> (r: Value)
    ensures
        value_tree(r) == Tree::Bool(b),
{
    Value::Bool(b)
}

/// `serde_json::Value::String`.
#[verifier::external_body]
fn text_value(s: &str) -> (r: Value)
    ensures
        value_tree(r) == Tree::Text(s@),
{
    Value::String(s.to_owned())
}

/// `serde_json::Value::Array`.
#[verifier::external_body]
fn list_value(items: Vec<Value>) -> (r: Value)
    ensures
        value_tree(r) == Tree::List(value_trees(items@)),
{
    Value::Array(items)
}

/// `serde_json::Value::Object` with an empty map.
#[verifier::external_body]
fn empty_object() -> (r: Value)
    ensures
        value_tree(r) == Tree::Object(Seq::empty()),
{
    Value::Object(serde_json::Map::new())
}

/// Assignment to an index of a `serde_json::Value` that is an object: the field
/// gets the value, whether it was there or not. The map of an object is sorted
/// by name.
#[verifier::external_body]
fn with_field(object: Value, name: &str, value: Value) -> (r: Value)
    requires
        value_tree(object) is Object,
    ensures
        value_tree(r) == Tree::Object(
            put(value_tree(object)->Object_0, name@, value_tree(value)),
        ),
{
    let mut object = object;
    object[name] = value;
    object
}

/// A field that is added last is found where no earlier one has its name.
pub proof fn lemma_with(list: FieldList, name: Seq<char>, value: Tree, other: Seq<char>)
    ensures
        list.with(name, value).tree().get(other) == if list.tree().get(other) is Some {
            list.tree().get(other)
        } else if name == other {
            Some(value)
        } else {
            None
        },
{
    lemma_field_of_push(list.0, name, value, other);
}

proof fn lemma_field_of_push(
    all: Seq<(Seq<char>, Tree)>,
    name: Seq<char>,
    value: Tree,
    other: Seq<char>,
)
    ensures
        field_of(all.push((name, value)), other) == if field_of(all, other) is Some {
            field_of(all, other)
        } else if name == other {
            Some(value)
        } else {
            None
        },
    decreases all.len(),
{
    let next = all.push((name, value));
    if all.len() == 0 {
        reveal_with_fuel(field_of, 2);
    } else if all[0].0 != other {
        lemma_field_of_push(all.skip(1), name, value, other);
        assert(next.skip(1) =~= all.skip(1).push((name, value)));
    }
}

} // verus!
