//! JSON documents: what a `serde_json::Value` holds, and how one is built, printed and parsed.
//!
//! The tree that a value holds is [`JsonTree`]; contracts speak of it through [`tree`]. What a
//! tree looks like as text, and which tree a text parses to, is `serde_json`'s own matter and
//! has the names [`printed`] and [`parsed`].
use vstd::prelude::*;
use crate::text::signed_value;

verus! {

/// What a JSON value holds. A number is its text in the shortest form that `serde_json` prints.
pub enum JsonTree {
    Null,
    Bool(bool),
    Number(Seq<char>),
    Text(Seq<char>),
    Array(Seq<JsonTree>),
    Object(Map<Seq<char>, JsonTree>),
}

/// The fields of a JSON object, by name.
pub type Fields = Map<Seq<char>, JsonTree>;

/// `serde_json::Value`, carried through without looking inside.
#[verifier::external_type_specification]
#[verifier::external_body]
pub struct ExValue(serde_json::Value);

/// `serde_json::Map<String, serde_json::Value>`, the fields of a JSON object.
#[verifier::external_type_specification]
#[verifier::external_body]
#[verifier::reject_recursive_types(K)]
#[verifier::reject_recursive_types(V)]
pub struct ExMap<K, V>(serde_json::Map<K, V>);

/// The tree that a JSON value holds.
pub uninterp spec fn tree(value: serde_json::Value) -> JsonTree;

/// The fields of a JSON object under construction.
pub uninterp spec fn fields(map: serde_json::Map<String, serde_json::Value>) -> Fields;

/// The compact text of a JSON tree, as `serde_json` prints it.
pub uninterp spec fn printed(tree: JsonTree) -> Seq<char>;

/// The tree that a text parses to, or `serde_json`'s message where it is no JSON document.
pub uninterp spec fn parsed(text: Seq<char>) -> Result<JsonTree, Seq<char>>;

/// `serde_json::Value::clone`: the copy holds the same tree.
#[verifier::external_body]
pub(crate) fn duplicate(value: &serde_json::Value) -> (r: serde_json::Value)
    ensures
        r == *value,
{
    value.clone()
}

/// `serde_json::Value::Null`.
#[verifier::external_body]
pub(crate) fn null() -> (r: serde_json::Value)
    ensures
        tree(r) == JsonTree::Null,
{
    serde_json::Value::Null
}

/// `serde_json::Value::Bool`: a JSON boolean.
#[verifier::external_body]
pub(crate) fn boolean(b: bool) -> (r: serde_json::Value)
    ensures
        tree(r) == JsonTree::Bool(b),
{
    serde_json::Value::Bool(b)
}

/// `serde_json::Value::String`: a JSON string with the characters of `s`.
#[verifier::external_body]
pub(crate) fn string(s: &str) -> (r: serde_json::Value)
    ensures
        tree(r) == JsonTree::Text(s@),
{
    serde_json::Value::String(s.to_owned())
}

/// `serde_json::Map::new`: an object without fields.
#[verifier::external_body]
pub(crate) fn no_fields() -> (r: serde_json::Map<String, serde_json::Value>)
    ensures
        fields(r) == Fields::empty(),
{
    serde_json::Map::new()
}

/// `serde_json::Map::insert`: sets one field and leaves the others as they are.
#[verifier::external_body]
pub(crate) fn set_field(
    map: &mut serde_json::Map<String, serde_json::Value>,
    key: &str,
    value: serde_json::Value,
)
    ensures
        fields(*final(map)) == fields(*old(map)).insert(key@, tree(value)),
{
    map.insert(key.to_owned(), value);
}

/// `serde_json::Value::Object`: the object that has these fields.
#[verifier::external_body]
pub(crate) fn object(map: serde_json::Map<String, serde_json::Value>) -> (r: serde_json::Value)
    ensures
        tree(r) == JsonTree::Object(fields(map)),
{
    serde_json::Value::Object(map)
}

/// The trees of a list of values.
pub open spec fn trees(values: Seq<serde_json::Value>) -> Seq<JsonTree> {
    Seq::new(values.len(), |i: int| tree(values[i]))
}

/// `serde_json::Value::Array`: the array of these values.
#[verifier::external_body]
pub(crate) fn array(values: Vec<serde_json::Value>) -> (r: serde_json::Value)
    ensures
        tree(r) == JsonTree::Array(trees(values@)),
{
    serde_json::Value::Array(values)
}

/// `serde_json::Value::get`: whether the value is an object with this field.
#[verifier::external_body]
pub(crate) fn has_field(value: &serde_json::Value, key: &str) -> (r: bool)
    ensures
        r == (tree(*value) is Object && tree(*value)->Object_0.contains_key(key@)),
{
    value.get(key).is_some()
}

/// Every number in the tree is an integer, and arrays and objects are nested at most this deep.
pub open spec fn plain(tree: JsonTree, depth: nat) -> bool
    decreases depth,
{
    match tree {
        JsonTree::Null | JsonTree::Bool(_) | JsonTree::Text(_) => true,
        JsonTree::Number(digits) => signed_value(digits) is Some,
        JsonTree::Array(items) => depth > 0 && forall|i: int|
            0 <= i < items.len() ==> plain(#[trigger] items[i], (depth - 1) as nat),
        JsonTree::Object(named) => depth > 0 && forall|key: Seq<char>|
            named.contains_key(key) ==> plain(#[trigger] named[key], (depth - 1) as nat),
    }
}

/// The deepest nesting that `serde_json` reads.
pub open spec fn deepest() -> nat {
    127
}

/// The text reads as this tree.
pub open spec fn reads_as(text: Seq<char>, tree: JsonTree) -> bool {
    parsed(text) is Ok && parsed(text)->Ok_0 == tree
}

/// `serde_json::Value::to_string`: the compact text of the value's tree. A plain tree that is
/// not nested too deep is what `serde_json::from_str` reads from that text: strings are escaped
/// and integers are printed in full. Of fractions nothing of the kind is said, because the
/// parser may round their last digit.
#[verifier::external_body]
pub(crate) fn print(value: &serde_json::Value) -> (r: String)
    ensures
        r@ == printed(tree(*value)),
        plain(tree(*value), deepest()) ==> reads_as(r@, tree(*value)),
{
    value.to_string()
}

/// `serde_json::from_str`: the value that a text stands for, or the parser's message.
#[verifier::external_body]
pub(crate) fn parse(text: &str) -> (r: Result<serde_json::Value, String>)
    ensures
        match r {
            Ok(value) => parsed(text@) is Ok && parsed(text@)->Ok_0 == tree(value),
            Err(message) => parsed(text@) is Err && parsed(text@)->Err_0 == message@,
        },
{
    serde_json::from_str::<serde_json::Value>(text).map_err(|e| e.to_string())
}

} // verus!
