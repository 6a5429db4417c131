//! JSON text: reading and writing through the crate `serde_json`.
use crate::json::{
    distinct_keys, lemma_array_tree, lemma_members, members_of, number_value, pairs_of, trees, Json,
    JsonObject, Members, Num, Tree,
};
use vstd::prelude::*;

verus! {

/// A JSON value of the crate `serde_json`: opaque.
#[verifier::external_type_specification]
#[verifier::external_body]
pub struct ExValue(serde_json::Value);

/// An error of the crate `serde_json`: opaque.
#[verifier::external_type_specification]
#[verifier::external_body]
pub struct ExError(serde_json::Error);

/// What a `serde_json::Value` holds.
pub uninterp spec fn value_tree(value: serde_json::Value) -> Tree;

/// What a `serde_json::Error` says.
pub uninterp spec fn error_message(error: serde_json::Error) -> Seq<char>;

/// What `serde_json::from_str` makes of a text: the value that it reads, or what the error says
/// with which it refuses the text.
pub uninterp spec fn json_reading(text: Seq<char>) -> Result<Tree, Seq<char>>;

/// What `serde_json::from_reader` makes of a stream of bytes: the value that it reads, or what
/// the error says with which it refuses the bytes.
pub uninterp spec fn stream_reading(bytes: Seq<u8>) -> Result<Tree, Seq<char>>;

/// What `serde_json::to_string_pretty` writes for a value.
pub uninterp spec fn pretty_json(tree: Tree) -> Seq<char>;

/// What `serde_json::to_string` writes for a value.
pub uninterp spec fn compact_json(tree: Tree) -> Seq<char>;

/// The value that is read from a text; nothing where the text is no JSON.
pub open spec fn parsed_json(text: Seq<char>) -> Option<Tree> {
    match json_reading(text) {
        Ok(tree) => Some(tree),
        Err(_) => None,
    }
}

/// At most `levels` arrays and objects stand one inside the other.
pub open spec fn nested_within(tree: Tree, levels: nat) -> bool
    decreases levels, 0int,
{
    match tree {
        Tree::Array(elements) => levels > 0 && elements_nested_within(
            elements,
            (levels - 1) as nat,
        ),
        Tree::Object(members) => levels > 0 && members_nested_within(members, (levels - 1) as nat),
        _ => true,
    }
}

/// In each element at most `levels` arrays and objects stand one inside the other.
pub open spec fn elements_nested_within(elements: Seq<Tree>, levels: nat) -> bool
    decreases levels, 1int,
{
    forall|i: int| 0 <= i < elements.len() ==> nested_within(#[trigger] elements[i], levels)
}

/// In each member at most `levels` arrays and objects stand one inside the other.
pub open spec fn members_nested_within(members: Members, levels: nat) -> bool
    decreases levels, 1int,
{
    forall|key: Seq<char>|
        members.dom().contains(key) ==> nested_within(#[trigger] members[key], levels)
}

/// How many arrays and objects may stand one inside the other in a text that is read.
pub const DEPTH_LIMIT: u64 = 127;

/// The numbers that stand inside at most `levels` arrays and objects meet a condition.
pub open spec fn numbers_within(tree: Tree, levels: nat, cond: spec_fn(Num) -> bool) -> bool
    decreases levels, 0int,
{
    match tree {
        Tree::Number(n) => cond(n),
        Tree::Array(elements) => levels > 0 ==> elements_numbers_within(
            elements,
            (levels - 1) as nat,
            cond,
        ),
        Tree::Object(members) => levels > 0 ==> members_numbers_within(
            members,
            (levels - 1) as nat,
            cond,
        ),
        _ => true,
    }
}

/// The numbers of each element meet a condition, down to `levels` levels.
pub open spec fn elements_numbers_within(
    elements: Seq<Tree>,
    levels: nat,
    cond: spec_fn(Num) -> bool,
) -> bool
    decreases levels, 1int,
{
    forall|i: int| 0 <= i < elements.len() ==> numbers_within(#[trigger] elements[i], levels, cond)
}

/// The numbers of each member meet a condition, down to `levels` levels.
pub open spec fn members_numbers_within(
    members: Members,
    levels: nat,
    cond: spec_fn(Num) -> bool,
) -> bool
    decreases levels, 1int,
{
    forall|key: Seq<char>|
        members.dom().contains(key) ==> numbers_within(#[trigger] members[key], levels, cond)
}

/// A value that is at most `levels` deep and whose numbers meet a condition.
pub open spec fn sound_within(tree: Tree, levels: nat, cond: spec_fn(Num) -> bool) -> bool {
    nested_within(tree, levels) && numbers_within(tree, levels, cond)
}

/// The whole numbers.
pub open spec fn whole_number() -> spec_fn(Num) -> bool {
    |n: Num| !(n is Decimal)
}

/// The numbers that are whole or, going by the exponent among the bits of the double, smaller
/// in size than two to the power of 1023.
pub open spec fn moderate_number() -> spec_fn(Num) -> bool {
    |n: Num|
        match n {
            Num::Decimal(bits) => (bits / 0x10_0000_0000_0000) % 2048 < 2046,
            _ => true,
        }
}

/// A value that a reader goes through and that holds whole numbers only.
pub open spec fn is_plain(tree: Tree) -> bool {
    sound_within(tree, DEPTH_LIMIT as nat, whole_number())
}

/// A value that a reader goes through and that holds moderate numbers only.
pub open spec fn is_moderate(tree: Tree) -> bool {
    sound_within(tree, DEPTH_LIMIT as nat, moderate_number())
}

/// Two values are the same down to `levels` levels, except that a number with a fraction or an
/// exponent may be another one.
pub open spec fn alike_within(a: Tree, b: Tree, levels: nat) -> bool
    decreases levels, 0int,
{
    match (a, b) {
        (Tree::Number(m), Tree::Number(n)) => m == n || (m is Decimal && n is Decimal),
        (Tree::Array(x), Tree::Array(y)) => levels > 0 ==> elements_alike_within(
            x,
            y,
            (levels - 1) as nat,
        ),
        (Tree::Object(x), Tree::Object(y)) => levels > 0 ==> members_alike_within(
            x,
            y,
            (levels - 1) as nat,
        ),
        _ => a == b,
    }
}

/// The elements are alike one by one, down to `levels` levels.
pub open spec fn elements_alike_within(a: Seq<Tree>, b: Seq<Tree>, levels: nat) -> bool
    decreases levels, 1int,
{
    a.len() == b.len() && forall|i: int|
        0 <= i < a.len() ==> alike_within(#[trigger] a[i], b[i], levels)
}

/// The members are alike one by one, down to `levels` levels.
pub open spec fn members_alike_within(a: Members, b: Members, levels: nat) -> bool
    decreases levels, 1int,
{
    a.dom() == b.dom() && forall|key: Seq<char>|
        a.dom().contains(key) ==> alike_within(#[trigger] a[key], b[key], levels)
}

/// Whether a text is read as a value that is the same as the given one but for its decimals.
pub open spec fn reads_alike(text: Seq<char>, tree: Tree) -> bool {
    match parsed_json(text) {
        Some(back) => alike_within(back, tree, DEPTH_LIMIT as nat),
        None => false,
    }
}

/// One level of a value: what stands below it is still in the form of `serde_json`.
enum Node {
    Null,
    Bool(bool),
    Number(serde_json::Number),
    Str(String),
    Array(Vec<serde_json::Value>),
    Object(Vec<(String, serde_json::Value)>),
}

spec fn value_trees(values: Seq<serde_json::Value>) -> Seq<Tree> {
    values.map_values(|value: serde_json::Value| value_tree(value))
}

spec fn value_pairs(entries: Seq<(String, serde_json::Value)>) -> Seq<(Seq<char>, Tree)> {
    entries.map_values(|entry: (String, serde_json::Value)| (entry.0@, value_tree(entry.1)))
}

spec fn node_tree(node: Node) -> Tree {
    match node {
        Node::Null => Tree::Null,
        Node::Bool(b) => Tree::Bool(b),
        Node::Number(n) => Tree::Number(number_value(n)),
        Node::Str(s) => Tree::Str(s@),
        Node::Array(values) => Tree::Array(value_trees(values@)),
        Node::Object(entries) => Tree::Object(members_of(value_pairs(entries@))),
    }
}

/// No key stands twice among the entries of the level.
spec fn node_keys_differ(node: Node) -> bool {
    match node {
        Node::Object(entries) => distinct_keys(value_pairs(entries@)),
        _ => true,
    }
}

/// `to_string` of a `serde_json::Error`: what its `Display` writes, which is fixed by the error.
#[verifier::external_body]
pub(crate) fn message_of(error: &serde_json::Error) -> (message: String)
    ensures
        message@ == error_message(*error),
{
    error.to_string()
}

/// `serde_json::from_str` for a `serde_json::Value`. What it gives back, or what the error says,
/// is what [`json_reading`] names. Its reader stops with an error before arrays and objects stand
/// more than [`DEPTH_LIMIT`] deep.
#[verifier::external_body]
fn read_value(text: &str) -> (result: Result<serde_json::Value, serde_json::Error>)
    ensures
        match result {
            Ok(value) => json_reading(text@) == Ok::<Tree, Seq<char>>(value_tree(value))
                && nested_within(value_tree(value), DEPTH_LIMIT as nat),
            Err(error) => json_reading(text@) == Err::<Tree, Seq<char>>(error_message(error)),
        },
{
    serde_json::from_str(text)
}

/// `serde_json::from_reader` for a `serde_json::Value`, on bytes that are all in memory. What it
/// gives back, or what the error says, is what [`stream_reading`] names. It stops at the same
/// depth as [`read_value`].
#[verifier::external_body]
fn read_stream(bytes: &Vec<u8>) -> (result: Result<serde_json::Value, serde_json::Error>)
    ensures
        match result {
            Ok(value) => stream_reading(bytes@) == Ok::<Tree, Seq<char>>(value_tree(value))
                && nested_within(value_tree(value), DEPTH_LIMIT as nat),
            Err(error) => stream_reading(bytes@) == Err::<Tree, Seq<char>>(error_message(error)),
        },
{
    serde_json::from_reader(bytes.as_slice())
}

/// `serde_json::to_string_pretty` for a `serde_json::Value`, which it never refuses. The text
/// is the one that [`pretty_json`] names. Where the value is no deeper than a reader goes, the
/// text is read as the value that was written, but for its decimals: each is written with a
/// point or an exponent and read as a decimal again, perhaps as a neighbour of what it was. The
/// reader refuses the text only where such a neighbour is too large for a double, which happens
/// for decimals close to the largest one alone.
#[verifier::external_body]
fn write_pretty(value: &serde_json::Value) -> (result: Result<String, serde_json::Error>)
    ensures
        result is Ok,
        result->Ok_0@ == pretty_json(value_tree(*value)),
        is_plain(value_tree(*value)) ==> parsed_json(result->Ok_0@) == Some(value_tree(*value)),
        is_moderate(value_tree(*value)) ==> reads_alike(result->Ok_0@, value_tree(*value)),
        nested_within(value_tree(*value), DEPTH_LIMIT as nat) ==> parsed_json(result->Ok_0@) is None
            || reads_alike(result->Ok_0@, value_tree(*value)),
{
    serde_json::to_string_pretty(value)
}

/// `serde_json::to_string` for a `serde_json::Value`, which it never refuses. The text is the
/// one that [`compact_json`] names. Read again it gives the value that was written, where the
/// value is no deeper than a reader goes and holds whole numbers only.
#[verifier::external_body]
fn write_compact(value: &serde_json::Value) -> (result: Result<String, serde_json::Error>)
    ensures
        result is Ok,
        result->Ok_0@ == compact_json(value_tree(*value)),
        is_plain(value_tree(*value)) ==> parsed_json(result->Ok_0@) == Some(value_tree(*value)),
{
    serde_json::to_string(value)
}

/// The variants of `serde_json::Value`, told apart; the entries of a `serde_json::Map` are
/// moved out by its `into_iter`, which gives each key once.
#[verifier::external_body]
fn open_value(value: serde_json::Value) -> (node: Node)
    ensures
        node_tree(node) == value_tree(value),
        node_keys_differ(node),
{
    match value {
        serde_json::Value::Null => Node::Null,
        serde_json::Value::Bool(b) => Node::Bool(b),
        serde_json::Value::Number(n) => Node::Number(n),
        serde_json::Value::String(s) => Node::Str(s),
        serde_json::Value::Array(values) => Node::Array(values),
        serde_json::Value::Object(map) => Node::Object(map.into_iter().collect()),
    }
}

/// The variants of `serde_json::Value`, put together; the entries are moved into a
/// `serde_json::Map` by its `from_iter`, which keeps each of them where no key stands twice.
#[verifier::external_body]
fn close_value(node: Node) -> (value: serde_json::Value)
    requires
        node_keys_differ(node),
    ensures
        value_tree(value) == node_tree(node),
{
    match node {
        Node::Null => serde_json::Value::Null,
        Node::Bool(b) => serde_json::Value::Bool(b),
        Node::Number(n) => serde_json::Value::Number(n),
        Node::Str(s) => serde_json::Value::String(s),
        Node::Array(values) => serde_json::Value::Array(values),
        Node::Object(entries) => serde_json::Value::Object(entries.into_iter().collect()),
    }
}

/// The value in the library's form.
fn from_value(value: serde_json::Value) -> (json: Json)
    ensures
        json@ == value_tree(value),
    decreases value_tree(value),
{
    broadcast use lemma_array_tree;

    let ghost tree = value_tree(value);
    match open_value(value) {
        Node::Null => Json::Null,
        Node::Bool(b) => Json::Bool(b),
        Node::Number(n) => Json::Number(n),
        Node::Str(s) => Json::Str(s),
        Node::Array(values) => {
            let mut elements: Vec<Json> = Vec::new();
            for element in it: values
                invariant
                    it.seq() == values@,
                    tree == value_tree(value),
                    tree is Array,
                    tree->Array_0 == value_trees(values@),
                    elements@.len() == it.index(),
                    forall|k: int|
                        0 <= k < it.index() ==> (#[trigger] elements@[k])@ == value_tree(values@[k]),
            {
                assert(value_tree(element) == tree->Array_0[it.index() as int]);
                assert(decreases_to!(tree => tree->Array_0[it.index() as int]));
                elements.push(from_value(element));
            }
            assert(trees(elements@) =~= value_trees(values@));
            Json::Array(elements)
        },
        Node::Object(values) => {
            let mut entries: Vec<(String, Json)> = Vec::new();
            proof {
                lemma_members(value_pairs(values@));
            }
            for entry in it: values
                invariant
                    it.seq() == values@,
                    tree == value_tree(value),
                    tree is Object,
                    tree->Object_0 == members_of(value_pairs(values@)),
                    tree->Object_0.dom().finite(),
                    forall|k: int|
                        0 <= k < values@.len() ==> tree->Object_0.dom().contains(
                            (#[trigger] value_pairs(values@)[k]).0,
                        ) && tree->Object_0[value_pairs(values@)[k].0] == value_pairs(values@)[k].1,
                    entries@.len() == it.index(),
                    forall|k: int|
                        0 <= k < it.index() ==> (#[trigger] entries@[k]).0@ == values@[k].0@
                            && entries@[k].1@ == value_tree(values@[k].1),
            {
                proof {
                    let pair = value_pairs(values@)[it.index() as int];
                    assert(pair == (entry.0@, value_tree(entry.1)));
                    assert(decreases_to!(tree->Object_0 => tree->Object_0[pair.0]));
                    assert(decreases_to!(tree => tree->Object_0[pair.0]));
                }
                let (key, member) = entry;
                entries.push((key, from_value(member)));
            }
            assert(pairs_of(entries@) =~= value_pairs(values@));
            Json::Object(JsonObject::from_entries(entries))
        },
    }
}

/// The value in the form of `serde_json`.
pub fn into_value(json: Json) -> (value: serde_json::Value)
    ensures
        value_tree(value) == json@,
    decreases json@,
{
    broadcast use lemma_array_tree;

    let ghost tree = json@;
    let node = match json {
        Json::Null => Node::Null,
        Json::Bool(b) => Node::Bool(b),
        Json::Number(n) => Node::Number(n),
        Json::Str(s) => Node::Str(s),
        Json::Array(elements) => {
            let mut values: Vec<serde_json::Value> = Vec::new();
            for element in it: elements
                invariant
                    it.seq() == elements@,
                    tree == json@,
                    tree is Array,
                    tree->Array_0 == trees(elements@),
                    values@.len() == it.index(),
                    forall|k: int|
                        0 <= k < it.index() ==> value_tree(#[trigger] values@[k]) == elements@[k]@,
            {
                assert(element@ == tree->Array_0[it.index() as int]);
                assert(decreases_to!(tree => tree->Array_0[it.index() as int]));
                values.push(into_value(element));
            }
            assert(value_trees(values@) =~= trees(elements@));
            Node::Array(values)
        },
        Json::Object(object) => {
            let entries = object.into_entries();
            let mut values: Vec<(String, serde_json::Value)> = Vec::new();
            proof {
                lemma_members(pairs_of(entries@));
            }
            for entry in it: entries
                invariant
                    it.seq() == entries@,
                    tree == json@,
                    tree is Object,
                    tree->Object_0 == members_of(pairs_of(entries@)),
                    tree->Object_0.dom().finite(),
                    forall|k: int|
                        0 <= k < entries@.len() ==> tree->Object_0.dom().contains(
                            (#[trigger] pairs_of(entries@)[k]).0,
                        ) && tree->Object_0[pairs_of(entries@)[k].0] == pairs_of(entries@)[k].1,
                    values@.len() == it.index(),
                    forall|k: int|
                        0 <= k < it.index() ==> (#[trigger] values@[k]).0@ == entries@[k].0@
                            && value_tree(values@[k].1) == entries@[k].1@,
            {
                proof {
                    let pair = pairs_of(entries@)[it.index() as int];
                    assert(pair == (entry.0@, entry.1@));
                    assert(decreases_to!(tree->Object_0 => tree->Object_0[pair.0]));
                    assert(decreases_to!(tree => tree->Object_0[pair.0]));
                }
                let (key, member) = entry;
                values.push((key, into_value(member)));
            }
            assert(value_pairs(values@) =~= pairs_of(entries@));
            Node::Object(values)
        },
    };
    close_value(node)
}

/// Reads a JSON text.
pub fn parse_json(text: &str) -> (result: Result<Json, serde_json::Error>)
    ensures
        match result {
            Ok(json) => json_reading(text@) == Ok::<Tree, Seq<char>>(json@) && nested_within(
                json@,
                DEPTH_LIMIT as nat,
            ),
            Err(error) => json_reading(text@) == Err::<Tree, Seq<char>>(error_message(error)),
        },
{
    match read_value(text) {
        Ok(value) => Ok(from_value(value)),
        Err(error) => Err(error),
    }
}

/// Reads JSON from a stream of bytes.
pub fn parse_stream(bytes: &Vec<u8>) -> (result: Result<Json, serde_json::Error>)
    ensures
        match result {
            Ok(json) => stream_reading(bytes@) == Ok::<Tree, Seq<char>>(json@) && nested_within(
                json@,
                DEPTH_LIMIT as nat,
            ),
            Err(error) => stream_reading(bytes@) == Err::<Tree, Seq<char>>(error_message(error)),
        },
{
    match read_stream(bytes) {
        Ok(value) => Ok(from_value(value)),
        Err(error) => Err(error),
    }
}

/// Writes a value over several lines, with indentation. A value that is no deeper than a reader
/// goes is read back as it was, where it holds whole numbers only, and as it was but for its
/// decimals, where these are moderate. With others the text may be refused, but is not read as
/// anything else.
pub fn pretty_text(json: Json) -> (result: Result<String, serde_json::Error>)
    ensures
        result is Ok,
        result->Ok_0@ == pretty_json(json@),
        is_plain(json@) ==> parsed_json(result->Ok_0@) == Some(json@),
        is_moderate(json@) ==> reads_alike(result->Ok_0@, json@),
        nested_within(json@, DEPTH_LIMIT as nat) ==> parsed_json(result->Ok_0@) is None
            || reads_alike(result->Ok_0@, json@),
{
    write_pretty(&into_value(json))
}

/// Writes a value on one line. A value that is no deeper than a reader goes and holds whole
/// numbers only is read back as it was.
pub fn compact_text(json: Json) -> (result: Result<String, serde_json::Error>)
    ensures
        result is Ok,
        result->Ok_0@ == compact_json(json@),
        is_plain(json@) ==> parsed_json(result->Ok_0@) == Some(json@),
{
    write_compact(&into_value(json))
}

} // verus!
