//! JSON values: the mathematical tree and the value that holds it.
use crate::text::same_text;
use vstd::prelude::*;

verus! {

/// A JSON number of the crate `serde_json`: opaque, carried from input to output.
#[verifier::external_type_specification]
#[verifier::external_body]
pub struct ExNumber(serde_json::Number);

/// What a JSON number is.
pub enum Num {
    /// A whole number from zero up.
    Unsigned(u64),
    /// A whole number below zero.
    Negative(i64),
    /// Any other number, by the bits of its double.
    Decimal(u64),
}

/// What a `serde_json::Number` holds.
pub uninterp spec fn number_value(n: serde_json::Number) -> Num;

/// `serde_json::Number::from` for a `u64`: the number that holds it.
#[verifier::external_body]
fn number_from(n: u64) -> (number: serde_json::Number)
    ensures
        number_value(number) == Num::Unsigned(n),
{
    serde_json::Number::from(n)
}

/// `Clone::clone` of `serde_json::Number`: the copy holds what the number holds.
#[verifier::external_body]
fn number_clone(n: &serde_json::Number) -> (number: serde_json::Number)
    ensures
        number_value(number) == number_value(*n),
{
    n.clone()
}

/// A JSON value as a mathematical tree. The members of an object have no order.
pub enum Tree {
    Null,
    Bool(bool),
    Number(Num),
    Str(Seq<char>),
    Array(Seq<Tree>),
    Object(Map<Seq<char>, Tree>),
}

/// The members of an object.
pub type Members = Map<Seq<char>, Tree>;

impl Tree {
    /// The member `key` of an object; nothing where there is none or `self` is no object.
    pub open spec fn get(self, key: Seq<char>) -> Option<Tree> {
        match self {
            Tree::Object(members) => if members.dom().contains(key) {
                Some(members[key])
            } else {
                None
            },
            _ => None,
        }
    }

    /// The text of a string; nothing for any other value.
    pub open spec fn as_str(self) -> Option<Seq<char>> {
        match self {
            Tree::Str(s) => Some(s),
            _ => None,
        }
    }

    /// The text of the member `key`, where that is a string.
    pub open spec fn str_at(self, key: Seq<char>) -> Option<Seq<char>> {
        match self.get(key) {
            Some(member) => member.as_str(),
            None => None,
        }
    }

    /// The elements of the member `key`, where that is an array.
    pub open spec fn array_at(self, key: Seq<char>) -> Option<Seq<Tree>> {
        match self.get(key) {
            Some(Tree::Array(elements)) => Some(elements),
            _ => None,
        }
    }

    /// The members of the member `key`, where that is an object.
    pub open spec fn object_at(self, key: Seq<char>) -> Option<Members> {
        match self.get(key) {
            Some(Tree::Object(members)) => Some(members),
            _ => None,
        }
    }
}

/// A JSON value.
#[derive(Debug)]
pub enum Json {
    Null,
    Bool(bool),
    Number(serde_json::Number),
    Str(String),
    Array(Vec<Json>),
    Object(JsonObject),
}

/// A JSON object. No two of its members have the same key.
#[derive(Debug)]
pub struct JsonObject {
    entries: Vec<(String, Json)>,
}

/// The members that a sequence of entries stands for; of two with one key the later counts.
pub open spec fn members_of(entries: Seq<(Seq<char>, Tree)>) -> Members
    decreases entries.len(),
{
    if entries.len() == 0 {
        Map::empty()
    } else {
        members_of(entries.drop_last()).insert(entries.last().0, entries.last().1)
    }
}

/// No two entries have the same key.
pub open spec fn distinct_keys(entries: Seq<(Seq<char>, Tree)>) -> bool {
    forall|i: int, j: int|
        0 <= i < j < entries.len() ==> (#[trigger] entries[i]).0 != (#[trigger] entries[j]).0
}

/// The trees of a sequence of values.
pub open spec fn trees(values: Seq<Json>) -> Seq<Tree> {
    values.map_values(|value: Json| value@)
}

/// The keys and trees of a sequence of entries.
pub open spec fn pairs_of(entries: Seq<(String, Json)>) -> Seq<(Seq<char>, Tree)> {
    entries.map_values(|entry: (String, Json)| (entry.0@, entry.1@))
}

impl Json {
    /// The tree that the value holds.
    pub open spec fn tree(&self) -> Tree
        decreases self, 0int,
    {
        match self {
            Json::Null => Tree::Null,
            Json::Bool(b) => Tree::Bool(*b),
            Json::Number(n) => Tree::Number(number_value(*n)),
            Json::Str(s) => Tree::Str(s@),
            Json::Array(elements) => Tree::Array(
                Seq::new(
                    elements@.len(),
                    |i: int|
                        if 0 <= i < elements@.len() {
                            elements@[i].tree()
                        } else {
                            Tree::Null
                        },
                ),
            ),
            Json::Object(object) => Tree::Object(object.members()),
        }
    }
}

impl JsonObject {
    /// The members of the object.
    pub closed spec fn members(&self) -> Members
        decreases self, 1int,
    {
        members_of(self.pairs())
    }

    closed spec fn pairs(&self) -> Seq<(Seq<char>, Tree)>
        decreases self, 0int,
    {
        Seq::new(
            self.entries@.len(),
            |i: int|
                if 0 <= i < self.entries@.len() {
                    (self.entries@[i].0@, self.entries@[i].1.tree())
                } else {
                    (Seq::empty(), Tree::Null)
                },
        )
    }

    #[verifier::type_invariant]
    spec fn keys_are_distinct(&self) -> bool {
        distinct_keys(self.pairs())
    }
}

impl View for Json {
    type V = Tree;

    open spec fn view(&self) -> Tree {
        self.tree()
    }
}

impl View for JsonObject {
    type V = Members;

    open spec fn view(&self) -> Members {
        self.members()
    }
}

/// An array holds the trees of its elements.
pub broadcast proof fn lemma_array_tree(elements: Vec<Json>)
    ensures
        #[trigger] Json::Array(elements).tree() == Tree::Array(trees(elements@)),
{
    assert(Json::Array(elements).tree()->Array_0 =~= trees(elements@));
}

/// The members of entries with distinct keys are just those entries.
pub proof fn lemma_members(entries: Seq<(Seq<char>, Tree)>)
    ensures
        members_of(entries).dom().finite(),
        forall|i: int|
            0 <= i < entries.len() ==> members_of(entries).dom().contains(
                (#[trigger] entries[i]).0,
            ),
        forall|key: Seq<char>| #[trigger]
            members_of(entries).dom().contains(key) ==> exists|i: int|
                0 <= i < entries.len() && (#[trigger] entries[i]).0 == key,
        distinct_keys(entries) ==> forall|i: int|
            0 <= i < entries.len() ==> members_of(entries)[(#[trigger] entries[i]).0]
                == entries[i].1,
    decreases entries.len(),
{
    if entries.len() > 0 {
        let rest = entries.drop_last();
        lemma_members(rest);
        assert forall|i: int| 0 <= i < entries.len() implies members_of(entries).dom().contains(
            (#[trigger] entries[i]).0,
        ) by {
            if i < rest.len() {
                assert(rest[i] == entries[i]);
            }
        }
        assert forall|key: Seq<char>| #[trigger]
            members_of(entries).dom().contains(key) implies exists|i: int|
            0 <= i < entries.len() && (#[trigger] entries[i]).0 == key by {
            if key != entries.last().0 {
                let i = choose|i: int| 0 <= i < rest.len() && (#[trigger] rest[i]).0 == key;
                assert(entries[i].0 == key);
            } else {
                assert(entries[entries.len() - 1].0 == key);
            }
        }
        if distinct_keys(entries) {
            assert forall|i: int| 0 <= i < entries.len() implies members_of(
                entries,
            )[(#[trigger] entries[i]).0] == entries[i].1 by {
                if i < rest.len() {
                    assert(rest[i] == entries[i]);
                    assert(entries[i].0 != entries[entries.len() - 1].0);
                }
            }
        }
    }
}

impl JsonObject {
    proof fn lemma_pairs(&self)
        ensures
            self.pairs() == pairs_of(self.entries@),
    {
        assert(self.pairs() =~= pairs_of(self.entries@));
    }

    /// An object without members.
    pub fn new() -> (object: JsonObject)
        ensures
            object@ == Members::empty(),
    {
        JsonObject { entries: Vec::new() }
    }

    /// Whether the object has no member.
    pub fn is_empty(&self) -> (empty: bool)
        ensures
            empty == (self@ == Members::empty()),
    {
        proof {
            lemma_members(self.pairs());
            if self.entries@.len() > 0 {
                assert(self@.dom().contains(self.pairs()[0].0));
            }
        }
        self.entries.is_empty()
    }

    fn position(&self, key: &str) -> (place: Option<usize>)
        ensures
            match place {
                Some(i) => i < self.entries@.len() && self.entries@[i as int].0@ == key@,
                None => forall|i: int|
                    0 <= i < self.entries@.len() ==> (#[trigger] self.entries@[i]).0@ != key@,
            },
    {
        let mut i: usize = 0;
        while i < self.entries.len()
            invariant
                i <= self.entries.len(),
                forall|k: int| 0 <= k < i ==> (#[trigger] self.entries@[k]).0@ != key@,
            decreases self.entries.len() - i,
        {
            if same_text(self.entries[i].0.as_str(), key) {
                return Some(i);
            }
            i = i + 1;
        }
        None
    }

    /// The member `key`.
    pub fn get(&self, key: &str) -> (member: Option<&Json>)
        ensures
            match member {
                Some(value) => self@.dom().contains(key@) && value@ == self@[key@],
                None => !self@.dom().contains(key@),
            },
    {
        proof {
            use_type_invariant(self);
            lemma_members(self.pairs());
        }
        match self.position(key) {
            Some(i) => {
                assert(self.pairs()[i as int].0 == key@);
                Some(&self.entries[i].1)
            },
            None => {
                proof {
                    if self@.dom().contains(key@) {
                        let i = choose|i: int|
                            0 <= i < self.pairs().len() && (#[trigger] self.pairs()[i]).0 == key@;
                        assert(self.entries@[i].0@ == key@);
                    }
                }
                None
            },
        }
    }
}

/// Entries with distinct keys stand for the map that says, of each key, what its entry holds.
proof fn lemma_members_are(entries: Seq<(Seq<char>, Tree)>, members: Members)
    requires
        distinct_keys(entries),
        forall|i: int|
            0 <= i < entries.len() ==> members.dom().contains((#[trigger] entries[i]).0)
                && members[entries[i].0] == entries[i].1,
        forall|key: Seq<char>| #[trigger]
            members.dom().contains(key) ==> exists|i: int|
                0 <= i < entries.len() && (#[trigger] entries[i]).0 == key,
    ensures
        members_of(entries) == members,
{
    lemma_members(entries);
    let ours = members_of(entries);
    assert forall|key: Seq<char>| ours.dom().contains(key) == members.dom().contains(key) by {
        if ours.dom().contains(key) {
            let i = choose|i: int| 0 <= i < entries.len() && (#[trigger] entries[i]).0 == key;
            assert(members.dom().contains(entries[i].0));
        }
        if members.dom().contains(key) {
            let i = choose|i: int| 0 <= i < entries.len() && (#[trigger] entries[i]).0 == key;
            assert(ours.dom().contains(entries[i].0));
        }
    }
    assert forall|key: Seq<char>| ours.dom().contains(key) implies ours[key] == members[key] by {
        let i = choose|i: int| 0 <= i < entries.len() && (#[trigger] entries[i]).0 == key;
        assert(ours[entries[i].0] == entries[i].1);
    }
    assert(ours =~= members);
}

impl JsonObject {
    /// Takes the member `key` out of the object.
    pub fn take(&mut self, key: &str) -> (member: Option<Json>)
        ensures
            final(self)@ == old(self)@.remove(key@),
            match member {
                Some(value) => old(self)@.dom().contains(key@) && value@ == old(self)@[key@],
                None => !old(self)@.dom().contains(key@),
            },
    {
        proof {
            use_type_invariant(&*self);
            lemma_members(self.pairs());
        }
        let ghost before = self.pairs();
        let ghost members = self@;
        match self.position(key) {
            Some(i) => {
                assert(before[i as int].0 == key@);
                let mut entries: Vec<(String, Json)> = Vec::new();
                std::mem::swap(&mut entries, &mut self.entries);
                let entry = entries.remove(i);
                proof {
                    let after = pairs_of(entries@);
                    assert(after =~= before.remove(i as int));
                    assert forall|a: int, b: int| 0 <= a < b < after.len() implies (
                    #[trigger] after[a]).0 != (#[trigger] after[b]).0 by {
                        let x = if a < i { a } else { a + 1 };
                        let y = if b < i { b } else { b + 1 };
                        assert(after[a] == before[x] && after[b] == before[y]);
                    }
                    assert forall|a: int| 0 <= a < after.len() implies members.remove(
                        key@,
                    ).dom().contains((#[trigger] after[a]).0) && members.remove(key@)[after[a].0]
                        == after[a].1 by {
                        let x = if a < i { a } else { a + 1 };
                        assert(after[a] == before[x]);
                        assert(before[x].0 != before[i as int].0);
                    }
                    assert forall|k: Seq<char>| #[trigger]
                        members.remove(key@).dom().contains(k) implies exists|a: int|
                        0 <= a < after.len() && (#[trigger] after[a]).0 == k by {
                        let x = choose|x: int| 0 <= x < before.len() && (#[trigger] before[x]).0 == k;
                        let a = if x < i { x } else { x - 1 };
                        assert(after[a] == before[x]);
                    }
                    lemma_members_are(after, members.remove(key@));
                    JsonObject { entries }.lemma_pairs();
                }
                self.entries = entries;
                Some(entry.1)
            },
            None => {
                proof {
                    if members.dom().contains(key@) {
                        let i = choose|i: int| 0 <= i < before.len() && (#[trigger] before[i]).0 == key@;
                        assert(self.entries@[i].0@ == key@);
                    }
                    assert(members.remove(key@) =~= members);
                }
                None
            },
        }
    }

    /// Gives the object the member `key`, in place of one that it may have had.
    pub fn insert(&mut self, key: &str, value: Json)
        ensures
            final(self)@ == old(self)@.insert(key@, value@),
    {
        let _replaced = self.take(key);
        proof {
            use_type_invariant(&*self);
            lemma_members(self.pairs());
        }
        let ghost before = self.pairs();
        let ghost members = self@;
        let mut entries: Vec<(String, Json)> = Vec::new();
        std::mem::swap(&mut entries, &mut self.entries);
        entries.push((key.to_owned(), value));
        proof {
            let after = pairs_of(entries@);
            assert(after =~= before.push((key@, value@)));
            assert forall|a: int, b: int| 0 <= a < b < after.len() implies (#[trigger] after[a]).0
                != (#[trigger] after[b]).0 by {
                if b == before.len() {
                    assert(members.dom().contains(before[a].0));
                } else {
                    assert(before[a].0 != before[b].0);
                }
            }
            assert(after.drop_last() =~= before);
            assert(members.insert(key@, value@) =~= old(self)@.insert(key@, value@));
            JsonObject { entries }.lemma_pairs();
        }
        self.entries = entries;
    }

    /// Whether the object has a member whose key is neither `a` nor `b`.
    pub fn has_key_besides(&self, a: &str, b: &str) -> (found: bool)
        ensures
            found == exists|key: Seq<char>| #[trigger]
                self@.dom().contains(key) && key != a@ && key != b@,
    {
        proof {
            lemma_members(self.pairs());
        }
        let mut i: usize = 0;
        while i < self.entries.len()
            invariant
                i <= self.entries.len(),
                forall|k: int|
                    0 <= k < i ==> (#[trigger] self.pairs()[k]).0 == a@ || self.pairs()[k].0 == b@,
                forall|k: int|
                    0 <= k < self.pairs().len() ==> self@.dom().contains(
                        (#[trigger] self.pairs()[k]).0,
                    ),
            decreases self.entries.len() - i,
        {
            let key = self.entries[i].0.as_str();
            assert(self.pairs()[i as int].0 == key@);
            if !same_text(key, a) && !same_text(key, b) {
                return true;
            }
            i = i + 1;
        }
        assert forall|key: Seq<char>| #[trigger] self@.dom().contains(key) implies key == a@ || key
            == b@ by {
            let k = choose|k: int| 0 <= k < self.pairs().len() && (#[trigger] self.pairs()[k]).0 == key;
            assert(self.pairs()[k].0 == a@ || self.pairs()[k].0 == b@);
        }
        false
    }

    /// The entries of the object.
    pub fn into_entries(self) -> (entries: Vec<(String, Json)>)
        ensures
            distinct_keys(pairs_of(entries@)),
            members_of(pairs_of(entries@)) == self@,
    {
        proof {
            use_type_invariant(&self);
            self.lemma_pairs();
        }
        self.entries
    }

    /// The object that has the given entries.
    pub fn from_entries(entries: Vec<(String, Json)>) -> (object: JsonObject)
        requires
            distinct_keys(pairs_of(entries@)),
        ensures
            object@ == members_of(pairs_of(entries@)),
    {
        proof {
            JsonObject { entries }.lemma_pairs();
        }
        JsonObject { entries }
    }
}

impl Json {
    /// The whole number `n`.
    pub fn unsigned(n: u64) -> (value: Json)
        ensures
            value@ == Tree::Number(Num::Unsigned(n)),
    {
        Json::Number(number_from(n))
    }

    /// The string `s`.
    pub fn string(s: &str) -> (value: Json)
        ensures
            value@ == Tree::Str(s@),
    {
        Json::Str(s.to_owned())
    }

    /// The member `key` of an object.
    pub fn get(&self, key: &str) -> (member: Option<&Json>)
        ensures
            match member {
                Some(value) => self@.get(key@) == Some(value@),
                None => self@.get(key@) is None,
            },
    {
        match self {
            Json::Object(object) => object.get(key),
            _ => None,
        }
    }

    /// The text of a string.
    pub fn as_str(&self) -> (text: Option<&str>)
        ensures
            match text {
                Some(s) => self@.as_str() == Some(s@),
                None => self@.as_str() is None,
            },
    {
        match self {
            Json::Str(s) => Some(s.as_str()),
            _ => None,
        }
    }

    /// The elements of an array.
    pub fn as_array(&self) -> (elements: Option<&Vec<Json>>)
        ensures
            match elements {
                Some(values) => self@ == Tree::Array(trees(values@)),
                None => !(self@ is Array),
            },
    {
        broadcast use lemma_array_tree;

        match self {
            Json::Array(values) => Some(values),
            _ => None,
        }
    }

    /// The text of the member `key`, where that is a string.
    pub fn str_at(&self, key: &str) -> (text: Option<&str>)
        ensures
            match text {
                Some(s) => self@.str_at(key@) == Some(s@),
                None => self@.str_at(key@) is None,
            },
    {
        match self.get(key) {
            Some(value) => value.as_str(),
            None => None,
        }
    }

    /// The elements of the member `key`, where that is an array.
    pub fn array_at(&self, key: &str) -> (elements: Option<&Vec<Json>>)
        ensures
            match elements {
                Some(values) => self@.array_at(key@) == Some(trees(values@)),
                None => self@.array_at(key@) is None,
            },
    {
        match self.get(key) {
            Some(value) => value.as_array(),
            None => None,
        }
    }

    fn copy(&self) -> (value: Json)
        ensures
            value@ == self@,
        decreases self,
    {
        broadcast use lemma_array_tree;

        match self {
            Json::Null => Json::Null,
            Json::Bool(b) => Json::Bool(*b),
            Json::Number(n) => Json::Number(number_clone(n)),
            Json::Str(s) => Json::Str(s.clone()),
            Json::Array(elements) => {
                let mut values: Vec<Json> = Vec::new();
                let mut i: usize = 0;
                while i < elements.len()
                    invariant
                        i <= elements.len(),
                        self is Array && self->Array_0 == *elements,
                        values@.len() == i,
                        forall|k: int| 0 <= k < i ==> (#[trigger] values@[k])@ == elements@[k]@,
                    decreases elements.len() - i,
                {
                    assert(decreases_to!(*self => self->Array_0@[i as int]));
                    let value = elements[i].copy();
                    values.push(value);
                    i = i + 1;
                }
                assert(trees(values@) =~= trees(elements@));
                Json::Array(values)
            },
            Json::Object(object) => Json::Object(object.copy()),
        }
    }
}

impl JsonObject {
    fn copy(&self) -> (object: JsonObject)
        ensures
            object@ == self@,
        decreases self,
    {
        proof {
            use_type_invariant(self);
            self.lemma_pairs();
        }
        let mut entries: Vec<(String, Json)> = Vec::new();
        let mut i: usize = 0;
        while i < self.entries.len()
            invariant
                i <= self.entries.len(),
                entries@.len() == i,
                forall|k: int|
                    0 <= k < i ==> (#[trigger] entries@[k]).0@ == self.entries@[k].0@
                        && entries@[k].1@ == self.entries@[k].1@,
            decreases self.entries.len() - i,
        {
            let value = self.entries[i].1.copy();
            entries.push((self.entries[i].0.clone(), value));
            i = i + 1;
        }
        assert(pairs_of(entries@) =~= pairs_of(self.entries@));
        JsonObject::from_entries(entries)
    }
}

impl Clone for Json {
    fn clone(&self) -> (value: Json)
        ensures
            value@ == self@,
    {
        self.copy()
    }
}

impl Clone for JsonObject {
    fn clone(&self) -> (object: JsonObject)
        ensures
            object@ == self@,
    {
        self.copy()
    }
}

} // verus!
