//! The JSON value tree and its mathematical model.

use vstd::prelude::*;

verus! {

/// A JSON number, carried through as the decoder produced it.
#[verifier::external_type_specification]
#[verifier::external_body]
pub struct ExNumber(serde_json::Number);

/// `Number::clone` returns a number equal to the one it is called on.
pub assume_specification[ <serde_json::Number as Clone>::clone ](n: &serde_json::Number) -> (copy:
    serde_json::Number)
    ensures
        copy == *n,
;

/// The kind of a JSON value.
#[derive(Clone, Copy, Debug, PartialEq, Eq, Structural)]
pub enum JsonKind {
    Null,
    Boolean,
    Number,
    String,
    Array,
    Object,
}

/// A JSON value. An object keeps its members in document order; a member is
/// found by its key, never by its position.
#[derive(Debug, PartialEq)]
pub enum JsonValue {
    Null,
    Bool(bool),
    Number(serde_json::Number),
    String(String),
    Array(Vec<JsonValue>),
    Object(Vec<(String, JsonValue)>),
}

/// The mathematical model of a JSON value.
pub ghost enum JsonModel {
    Null,
    Bool(bool),
    Number(serde_json::Number),
    String(Seq<char>),
    Array(Seq<JsonModel>),
    Object(Seq<(Seq<char>, JsonModel)>),
}

/// The members of an object model.
pub type Members = Seq<(Seq<char>, JsonModel)>;

/// Position `at` holds the first member of `members` whose key is `key`.
pub open spec fn first_with_key(members: Members, key: Seq<char>, at: int) -> bool {
    &&& 0 <= at < members.len()
    &&& members[at].0 == key
    &&& forall|before: int| 0 <= before < at ==> (#[trigger] members[before]).0 != key
}

/// Some member of `members` has the key `key`.
pub open spec fn has_key(members: Members, key: Seq<char>) -> bool {
    exists|at: int| 0 <= at < members.len() && (#[trigger] members[at]).0 == key
}

/// The value that `key` names among `members`: that of the first member with
/// that key, if there is one.
pub open spec fn member(members: Members, key: Seq<char>) -> Option<JsonModel> {
    if has_key(members, key) {
        Some(members[choose|at: int| first_with_key(members, key, at)].1)
    } else {
        None
    }
}

/// No two members share a key.
pub open spec fn distinct_keys(members: Members) -> bool {
    forall|i: int, j: int|
        0 <= i < j < members.len() ==> (#[trigger] members[i]).0 != (#[trigger] members[j]).0
}

impl JsonModel {
    /// The kind of this value.
    pub open spec fn kind(self) -> JsonKind {
        match self {
            JsonModel::Null => JsonKind::Null,
            JsonModel::Bool(_) => JsonKind::Boolean,
            JsonModel::Number(_) => JsonKind::Number,
            JsonModel::String(_) => JsonKind::String,
            JsonModel::Array(_) => JsonKind::Array,
            JsonModel::Object(_) => JsonKind::Object,
        }
    }

    /// A scalar has nothing inside it to descend into.
    pub open spec fn is_scalar(self) -> bool {
        !(self is Array) && !(self is Object)
    }

    /// Every object in the tree names each of its members by a key of its own.
    pub open spec fn well_formed(self) -> bool
        decreases self,
    {
        match self {
            JsonModel::Array(items) => forall|i: int|
                0 <= i < items.len() ==> (#[trigger] items[i]).well_formed(),
            JsonModel::Object(members) => {
                &&& distinct_keys(members)
                &&& forall|i: int|
                    0 <= i < members.len() ==> (#[trigger] members[i]).1.well_formed()
            },
            _ => true,
        }
    }
}

impl JsonValue {
    /// The model of this value.
    pub open spec fn model(&self) -> JsonModel
        decreases self,
    {
        match self {
            JsonValue::Null => JsonModel::Null,
            JsonValue::Bool(b) => JsonModel::Bool(*b),
            JsonValue::Number(n) => JsonModel::Number(*n),
            JsonValue::String(s) => JsonModel::String(s@),
            JsonValue::Array(items) => JsonModel::Array(
                Seq::new(
                    items.len() as nat,
                    |i: int|
                        if 0 <= i < items.len() {
                            items[i].model()
                        } else {
                            JsonModel::Null
                        },
                ),
            ),
            JsonValue::Object(members) => JsonModel::Object(
                Seq::new(
                    members.len() as nat,
                    |i: int|
                        if 0 <= i < members.len() {
                            (members[i].0@, members[i].1.model())
                        } else {
                            (Seq::empty(), JsonModel::Null)
                        },
                ),
            ),
        }
    }
}

impl View for JsonValue {
    type V = JsonModel;

    open spec fn view(&self) -> JsonModel {
        self.model()
    }
}

/// The models of the values in `items`, in order.
pub open spec fn item_models(items: Seq<JsonValue>) -> Seq<JsonModel> {
    Seq::new(items.len(), |i: int| items[i]@)
}

/// The models of `members`, in order.
pub open spec fn member_models(members: Seq<(String, JsonValue)>) -> Members {
    Seq::new(members.len(), |i: int| (members[i].0@, members[i].1@))
}

/// The model of an array is the sequence of its items' models.
pub proof fn lemma_array_view(items: Vec<JsonValue>)
    ensures
        JsonValue::Array(items)@ == JsonModel::Array(item_models(items@)),
{
    assert(JsonValue::Array(items)@->Array_0 =~= item_models(items@));
}

/// The model of an object is the sequence of its members' models.
pub proof fn lemma_object_view(members: Vec<(String, JsonValue)>)
    ensures
        JsonValue::Object(members)@ == JsonModel::Object(member_models(members@)),
{
    assert(JsonValue::Object(members)@->Object_0 =~= member_models(members@));
}

impl JsonValue {
    /// The kind of this value.
    pub fn kind(&self) -> (kind: JsonKind)
        ensures
            kind == self@.kind(),
    {
        match self {
            JsonValue::Null => JsonKind::Null,
            JsonValue::Bool(_) => JsonKind::Boolean,
            JsonValue::Number(_) => JsonKind::Number,
            JsonValue::String(_) => JsonKind::String,
            JsonValue::Array(_) => JsonKind::Array,
            JsonValue::Object(_) => JsonKind::Object,
        }
    }

    /// The value that `key` names in this object, if this is an object and
    /// has a member with that key.
    pub fn member(&self, key: &String) -> (found: Option<&JsonValue>)
        ensures
            match found {
                Some(value) => self@ matches JsonModel::Object(members) && member(members, key@)
                    == Some(value@),
                None => self@ matches JsonModel::Object(members) ==> member(members, key@) is None,
            },
    {
        match self {
            JsonValue::Object(members) => {
                proof {
                    lemma_object_view(*members);
                }
                let mut at: usize = 0;
                while at < members.len()
                    invariant
                        at <= members.len(),
                        self@ == JsonModel::Object(member_models(members@)),
                        forall|before: int|
                            0 <= before < at ==> (#[trigger] member_models(members@)[before]).0
                                != key@,
                    decreases members.len() - at,
                {
                    if members[at].0 == *key {
                        proof {
                            let models = member_models(members@);
                            assert(first_with_key(models, key@, at as int));
                            lemma_first_is_unique(
                                models,
                                key@,
                                at as int,
                                choose|first: int| first_with_key(models, key@, first),
                            );
                        }
                        return Some(&members[at].1);
                    }
                    at += 1;
                }
                None
            },
            _ => None,
        }
    }

    /// A copy of this value that shares nothing with it.
    pub fn deep_copy(&self) -> (copy: JsonValue)
        ensures
            copy@ == self@,
        decreases self,
    {
        match self {
            JsonValue::Null => JsonValue::Null,
            JsonValue::Bool(b) => JsonValue::Bool(*b),
            JsonValue::Number(n) => JsonValue::Number(n.clone()),
            JsonValue::String(s) => JsonValue::String(s.clone()),
            JsonValue::Array(items) => {
                let mut copies: Vec<JsonValue> = Vec::new();
                let mut at: usize = 0;
                while at < items.len()
                    invariant
                        at <= items.len(),
                        copies.len() == at,
                        *self == JsonValue::Array(*items),
                        forall|i: int| 0 <= i < at ==> (#[trigger] copies[i])@ == items[i]@,
                    decreases items.len() - at,
                {
                    assert(self->Array_0 == *items);
                    copies.push(items[at].deep_copy());
                    at += 1;
                }
                proof {
                    lemma_array_view(*items);
                    lemma_array_view(copies);
                    assert(item_models(copies@) =~= item_models(items@));
                }
                JsonValue::Array(copies)
            },
            JsonValue::Object(members) => {
                let mut copies: Vec<(String, JsonValue)> = Vec::new();
                let mut at: usize = 0;
                while at < members.len()
                    invariant
                        at <= members.len(),
                        copies.len() == at,
                        *self == JsonValue::Object(*members),
                        forall|i: int|
                            0 <= i < at ==> (#[trigger] copies[i]).0@ == members[i].0@
                                && copies[i].1@ == members[i].1@,
                    decreases members.len() - at,
                {
                    assert(self->Object_0 == *members);
                    copies.push((members[at].0.clone(), members[at].1.deep_copy()));
                    at += 1;
                }
                proof {
                    lemma_object_view(*members);
                    lemma_object_view(copies);
                    assert(member_models(copies@) =~= member_models(members@));
                }
                JsonValue::Object(copies)
            },
        }
    }

    /// Whether every object in this tree names each of its members by a key
    /// of its own.
    pub fn is_well_formed(&self) -> (ok: bool)
        ensures
            ok == self@.well_formed(),
        decreases self,
    {
        match self {
            JsonValue::Array(items) => {
                proof {
                    lemma_array_view(*items);
                }
                let mut at: usize = 0;
                while at < items.len()
                    invariant
                        at <= items.len(),
                        *self == JsonValue::Array(*items),
                        self@ == JsonModel::Array(item_models(items@)),
                        forall|i: int|
                            0 <= i < at ==> (#[trigger] item_models(items@)[i]).well_formed(),
                    decreases items.len() - at,
                {
                    if !items[at].is_well_formed() {
                        assert(self@->Array_0[at as int] == item_models(items@)[at as int]);
                        return false;
                    }
                    at += 1;
                }
                true
            },
            JsonValue::Object(members) => {
                proof {
                    lemma_object_view(*members);
                }
                if !keys_are_distinct(members) {
                    return false;
                }
                let mut at: usize = 0;
                while at < members.len()
                    invariant
                        at <= members.len(),
                        *self == JsonValue::Object(*members),
                        self@ == JsonModel::Object(member_models(members@)),
                        forall|i: int|
                            0 <= i < at ==> (#[trigger] member_models(members@)[i]).1.well_formed(),
                    decreases members.len() - at,
                {
                    if !members[at].1.is_well_formed() {
                        assert(!member_models(members@)[at as int].1.well_formed());
                        return false;
                    }
                    at += 1;
                }
                true
            },
            _ => true,
        }
    }
}

impl Clone for JsonValue {
    fn clone(&self) -> (copy: Self)
        ensures
            copy@ == self@,
    {
        self.deep_copy()
    }
}

/// Whether no two of `members` share a key.
pub fn keys_are_distinct(members: &Vec<(String, JsonValue)>) -> (ok: bool)
    ensures
        ok == distinct_keys(member_models(members@)),
{
    let ghost models = member_models(members@);
    let mut later: usize = 0;
    while later < members.len()
        invariant
            later <= members.len(),
            models == member_models(members@),
            forall|i: int, j: int|
                0 <= i < j < later ==> (#[trigger] models[i]).0 != (#[trigger] models[j]).0,
        decreases members.len() - later,
    {
        let mut earlier: usize = 0;
        while earlier < later
            invariant
                earlier <= later < members.len(),
                models == member_models(members@),
                forall|i: int| 0 <= i < earlier ==> (#[trigger] models[i]).0 != models[later as int].0,
            decreases later - earlier,
        {
            if members[earlier].0 == members[later].0 {
                assert(models[earlier as int].0 == models[later as int].0);
                return false;
            }
            earlier += 1;
        }
        later += 1;
    }
    true
}

/// A key that some member has is the key of a first member: `member` then
/// gives the value at the one position that `first_with_key` accepts.
pub proof fn lemma_member_is_first(members: Members, key: Seq<char>) -> (at: int)
    requires
        has_key(members, key),
    ensures
        first_with_key(members, key, at),
        member(members, key) == Some(members[at].1),
{
    let some = choose|some: int| 0 <= some < members.len() && (#[trigger] members[some]).0 == key;
    lemma_first_exists(members, key, some);
    choose|at: int| first_with_key(members, key, at)
}

proof fn lemma_first_exists(members: Members, key: Seq<char>, upto: int)
    requires
        0 <= upto < members.len(),
        members[upto].0 == key,
    ensures
        exists|at: int| first_with_key(members, key, at),
    decreases upto,
{
    if exists|before: int| 0 <= before < upto && (#[trigger] members[before]).0 == key {
        let before = choose|before: int|
            0 <= before < upto && (#[trigger] members[before]).0 == key;
        lemma_first_exists(members, key, before);
    } else {
        assert(first_with_key(members, key, upto));
    }
}

/// Two positions that both hold the first member with a key are the same.
pub proof fn lemma_first_is_unique(members: Members, key: Seq<char>, one: int, other: int)
    requires
        first_with_key(members, key, one),
        first_with_key(members, key, other),
    ensures
        one == other,
{
}

} // verus!
