//! The document model: a typed value tree (`JsonType`) and the ordered
//! key/value container (`JsonObject`) with its typed accessors.

use vstd::prelude::*;

use crate::error::JsonError;
use crate::model::{has_key, key_index, lemma_key_index, lookup, set_entry, ValueModel};
use crate::number::JsonNumber;

verus! {

/// A typed document value: one of six kinds.
#[derive(Debug, PartialEq)]
pub enum JsonType {
    Bool(bool),
    Number(JsonNumber),
    String(String),
    Array(Vec<JsonType>),
    Object(JsonObject),
    Null,
}

/// An ordered sequence of key/value pairs. Insertion order is kept and is
/// significant for serialization; the mutation API keeps keys unique by
/// overwriting an existing key's value in place.
#[derive(Debug, PartialEq)]
pub struct JsonObject {
    pub children: Vec<(String, JsonType)>,
}

impl JsonType {
    /// The abstract value this node represents.
    pub open spec fn model(self) -> ValueModel
        decreases self, 1int,
    {
        match self {
            JsonType::Bool(b) => ValueModel::Bool(b),
            JsonType::Number(n) => ValueModel::Number(n@.0, n@.1),
            JsonType::String(s) => ValueModel::Str(s@),
            JsonType::Array(a) => ValueModel::Array(model_seq(a@)),
            JsonType::Object(o) => ValueModel::Object(fields_model(o.children@)),
            JsonType::Null => ValueModel::Null,
        }
    }
}

/// The abstract values of a sequence of nodes.
pub open spec fn model_seq(s: Seq<JsonType>) -> Seq<ValueModel>
    decreases s, 0int,
{
    if s.len() == 0 {
        Seq::empty()
    } else {
        seq![s[0].model()] + model_seq(s.drop_first())
    }
}

/// The abstract pairs of a sequence of keyed nodes.
pub open spec fn fields_model(s: Seq<(String, JsonType)>) -> Seq<(Seq<char>, ValueModel)>
    decreases s, 0int,
{
    if s.len() == 0 {
        Seq::empty()
    } else {
        seq![(s[0].0@, s[0].1.model())] + fields_model(s.drop_first())
    }
}

impl View for JsonType {
    type V = ValueModel;

    open spec fn view(&self) -> ValueModel {
        self.model()
    }
}

impl View for JsonObject {
    type V = Seq<(Seq<char>, ValueModel)>;

    open spec fn view(&self) -> Seq<(Seq<char>, ValueModel)> {
        fields_model(self.children@)
    }
}

pub broadcast proof fn lemma_model_seq(s: Seq<JsonType>)
    ensures
        (#[trigger] model_seq(s)).len() == s.len(),
        forall|i: int| 0 <= i < s.len() ==> model_seq(s)[i] == (#[trigger] s[i]).model(),
    decreases s.len(),
{
    if s.len() > 0 {
        lemma_model_seq(s.drop_first());
        assert(forall|i: int| 1 <= i < s.len() ==> s.drop_first()[i - 1] == #[trigger] s[i]);
    }
}

pub broadcast proof fn lemma_fields_model(s: Seq<(String, JsonType)>)
    ensures
        (#[trigger] fields_model(s)).len() == s.len(),
        forall|i: int|
            0 <= i < s.len() ==> fields_model(s)[i] == ((#[trigger] s[i]).0@, s[i].1.model()),
    decreases s.len(),
{
    if s.len() > 0 {
        lemma_fields_model(s.drop_first());
        assert(forall|i: int| 1 <= i < s.len() ==> s.drop_first()[i - 1] == #[trigger] s[i]);
    }
}

impl Clone for JsonType {
    fn clone(&self) -> (r: Self)
        ensures
            r@ == self@,
        decreases self, 1int,
    {
        match self {
            JsonType::Bool(b) => JsonType::Bool(*b),
            JsonType::Number(n) => JsonType::Number(n.clone()),
            JsonType::String(s) => JsonType::String(s.clone()),
            JsonType::Array(a) => JsonType::Array(clone_values(a)),
            JsonType::Object(o) => JsonType::Object(o.clone()),
            JsonType::Null => JsonType::Null,
        }
    }
}

/// A fresh copy of a sequence of values, equal at the model level.
fn clone_values(a: &Vec<JsonType>) -> (r: Vec<JsonType>)
    ensures
        model_seq(r@) == model_seq(a@),
    decreases *a, 0int,
{
    broadcast use lemma_model_seq;

    let mut r: Vec<JsonType> = Vec::new();
    let mut i: usize = 0;
    while i < a.len()
        invariant
            i <= a.len(),
            r@.len() == i,
            forall|j: int| 0 <= j < i ==> (#[trigger] r@[j]).model() == a@[j].model(),
        decreases a.len() - i,
    {
        proof {
            assert(decreases_to!(*a, 0int => a@[i as int], 1int));
        }
        r.push(a[i].clone());
        i = i + 1;
    }
    proof {
        broadcast use lemma_model_seq;

        assert forall|j: int| 0 <= j < a@.len() implies model_seq(r@)[j] == model_seq(a@)[j] by {
            assert(r@[j].model() == a@[j].model());
        }
        assert(model_seq(r@) =~= model_seq(a@));
    }
    r
}

/// A fresh copy of a sequence of keyed values, equal at the model level.
fn clone_pairs(a: &Vec<(String, JsonType)>) -> (r: Vec<(String, JsonType)>)
    ensures
        fields_model(r@) == fields_model(a@),
    decreases *a, 0int,
{
    broadcast use lemma_fields_model;

    let mut r: Vec<(String, JsonType)> = Vec::new();
    let mut i: usize = 0;
    while i < a.len()
        invariant
            i <= a.len(),
            r@.len() == i,
            forall|j: int|
                0 <= j < i ==> (#[trigger] r@[j]).0@ == a@[j].0@ && r@[j].1.model()
                    == a@[j].1.model(),
        decreases a.len() - i,
    {
        proof {
            assert(decreases_to!(*a, 0int => a@[i as int].1, 1int));
        }
        let pair = &a[i];
        r.push((pair.0.clone(), pair.1.clone()));
        i = i + 1;
    }
    proof {
        broadcast use lemma_fields_model;

        assert forall|j: int| 0 <= j < a@.len() implies fields_model(r@)[j] == fields_model(
            a@,
        )[j] by {
            assert(r@[j].0@ == a@[j].0@ && r@[j].1.model() == a@[j].1.model());
        }
        assert(fields_model(r@) =~= fields_model(a@));
    }
    r
}

impl Clone for JsonObject {
    fn clone(&self) -> (r: Self)
        ensures
            r@ == self@,
        decreases self,
    {
        proof {
            assert(decreases_to!(*self => self.children, 0int));
        }
        JsonObject { children: clone_pairs(&self.children) }
    }
}

impl JsonObject {
    /// An empty object.
    pub fn new() -> (r: JsonObject)
        ensures
            r@ == Seq::<(Seq<char>, ValueModel)>::empty(),
    {
        JsonObject { children: Vec::new() }
    }

    /// How many key/value pairs the object holds.
    pub fn len(&self) -> (r: usize)
        ensures
            r == self@.len(),
    {
        proof {
            broadcast use lemma_fields_model;

        }
        self.children.len()
    }

    /// The index of the first pair carrying `key`, if any.
    fn get_index_of_key(&self, key: &String) -> (r: Option<usize>)
        ensures
            match r {
                Some(i) => key_index(self@, key@) == i,
                None => key_index(self@, key@) == -1,
            },
    {
        proof {
            broadcast use lemma_fields_model;

            lemma_key_index(self@, key@);
        }
        let mut j: usize = 0;
        while j < self.children.len()
            invariant
                j <= self.children.len(),
                self@.len() == self.children.len(),
                forall|t: int| 0 <= t < j ==> (#[trigger] self@[t]).0 != key@,
                forall|t: int|
                    0 <= t < self@.len() ==> (#[trigger] self@[t]) == (
                    self.children@[t].0@,
                    self.children@[t].1.model(),
                ),
            decreases self.children.len() - j,
        {
            if self.children[j].0 == *key {
                proof {
                    lemma_key_index(self@, key@);
                    assert(self@[j as int].0 == key@);
                    assert(key_index(self@, key@) != -1);
                    let ki = key_index(self@, key@);
                    assert(!(ki < j) && !(ki > j));
                }
                return Some(j);
            }
            j = j + 1;
        }
        proof {
            lemma_key_index(self@, key@);
        }
        None
    }

    /// The stored value under `key`, unchanged, or `KeyNotFound`.
    pub fn get(&self, key: &str) -> (r: Result<JsonType, JsonError>)
        ensures
            match r {
                Ok(v) => has_key(self@, key@) && v@ == lookup(self@, key@),
                Err(e) => !has_key(self@, key@) && e == JsonError::KeyNotFound,
            },
    {
        let k = key.to_owned();
        match self.get_index_of_key(&k) {
            None => Err(JsonError::KeyNotFound),
            Some(i) => {
                proof {
                    broadcast use lemma_fields_model;

                    lemma_key_index(self@, key@);
                }
                Ok(self.children[i].1.clone())
            },
        }
    }

    /// The boolean stored under `key`; `WrongTypeValueRequest` when the key
    /// holds another kind, `KeyNotFound` when it is absent.
    pub fn get_bool(&self, key: &str) -> (r: Result<bool, JsonError>)
        ensures
            match r {
                Ok(b) => has_key(self@, key@) && lookup(self@, key@) == ValueModel::Bool(b),
                Err(e) => match e {
                    JsonError::KeyNotFound => !has_key(self@, key@),
                    JsonError::WrongTypeValueRequest => has_key(self@, key@) && !(lookup(
                        self@,
                        key@,
                    ) is Bool),
                    _ => false,
                },
            },
    {
        let k = key.to_owned();
        match self.get_index_of_key(&k) {
            None => Err(JsonError::KeyNotFound),
            Some(i) => {
                proof {
                    broadcast use lemma_fields_model;

                    lemma_key_index(self@, key@);
                }
                match &self.children[i].1 {
                    JsonType::Bool(b) => Ok(*b),
                    _ => Err(JsonError::WrongTypeValueRequest),
                }
            },
        }
    }

    /// The number stored under `key`, with the usual two failure kinds.
    pub fn get_number(&self, key: &str) -> (r: Result<JsonNumber, JsonError>)
        ensures
            match r {
                Ok(n) => has_key(self@, key@) && lookup(self@, key@) == ValueModel::Number(
                    n@.0,
                    n@.1,
                ),
                Err(e) => match e {
                    JsonError::KeyNotFound => !has_key(self@, key@),
                    JsonError::WrongTypeValueRequest => has_key(self@, key@) && !(lookup(
                        self@,
                        key@,
                    ) is Number),
                    _ => false,
                },
            },
    {
        let k = key.to_owned();
        match self.get_index_of_key(&k) {
            None => Err(JsonError::KeyNotFound),
            Some(i) => {
                proof {
                    broadcast use lemma_fields_model;

                    lemma_key_index(self@, key@);
                }
                match &self.children[i].1 {
                    JsonType::Number(n) => Ok(n.clone()),
                    _ => Err(JsonError::WrongTypeValueRequest),
                }
            },
        }
    }

    /// The text stored under `key`, with the usual two failure kinds.
    pub fn get_string(&self, key: &str) -> (r: Result<String, JsonError>)
        ensures
            match r {
                Ok(s) => has_key(self@, key@) && lookup(self@, key@) == ValueModel::Str(s@),
                Err(e) => match e {
                    JsonError::KeyNotFound => !has_key(self@, key@),
                    JsonError::WrongTypeValueRequest => has_key(self@, key@) && !(lookup(
                        self@,
                        key@,
                    ) is Str),
                    _ => false,
                },
            },
    {
        let k = key.to_owned();
        match self.get_index_of_key(&k) {
            None => Err(JsonError::KeyNotFound),
            Some(i) => {
                proof {
                    broadcast use lemma_fields_model;

                    lemma_key_index(self@, key@);
                }
                match &self.children[i].1 {
                    JsonType::String(s) => Ok(s.clone()),
                    _ => Err(JsonError::WrongTypeValueRequest),
                }
            },
        }
    }

    /// The array stored under `key`, with the usual two failure kinds.
    pub fn get_array(&self, key: &str) -> (r: Result<Vec<JsonType>, JsonError>)
        ensures
            match r {
                Ok(a) => has_key(self@, key@) && lookup(self@, key@) == ValueModel::Array(
                    model_seq(a@),
                ),
                Err(e) => match e {
                    JsonError::KeyNotFound => !has_key(self@, key@),
                    JsonError::WrongTypeValueRequest => has_key(self@, key@) && !(lookup(
                        self@,
                        key@,
                    ) is Array),
                    _ => false,
                },
            },
    {
        let k = key.to_owned();
        match self.get_index_of_key(&k) {
            None => Err(JsonError::KeyNotFound),
            Some(i) => {
                proof {
                    broadcast use lemma_fields_model;

                    lemma_key_index(self@, key@);
                }
                match &self.children[i].1 {
                    JsonType::Array(a) => Ok(clone_values(a)),
                    _ => Err(JsonError::WrongTypeValueRequest),
                }
            },
        }
    }

    /// A copy of the nested object stored under `key`, with the usual two
    /// failure kinds.
    pub fn get_obj(&self, key: &str) -> (r: Result<JsonObject, JsonError>)
        ensures
            match r {
                Ok(o) => has_key(self@, key@) && lookup(self@, key@) == ValueModel::Object(o@),
                Err(e) => match e {
                    JsonError::KeyNotFound => !has_key(self@, key@),
                    JsonError::WrongTypeValueRequest => has_key(self@, key@) && !(lookup(
                        self@,
                        key@,
                    ) is Object),
                    _ => false,
                },
            },
    {
        let k = key.to_owned();
        match self.get_index_of_key(&k) {
            None => Err(JsonError::KeyNotFound),
            Some(i) => {
                proof {
                    broadcast use lemma_fields_model;

                    lemma_key_index(self@, key@);
                }
                match &self.children[i].1 {
                    JsonType::Object(o) => Ok(o.clone()),
                    _ => Err(JsonError::WrongTypeValueRequest),
                }
            },
        }
    }

    /// An exclusively borrowed handle to the nested object stored under
    /// `key`, for in-place editing, with the usual two failure kinds.
    /// Whatever the caller leaves in the handle ends up at the key's
    /// position; every other pair is untouched.
    pub fn get_obj_ref(&mut self, key: &str) -> (r: Result<&mut JsonObject, JsonError>)
        ensures
            r is Ok ==> {
                &&& has_key(old(self)@, key@)
                &&& lookup(old(self)@, key@) == ValueModel::Object((*r->Ok_0)@)
                &&& final (self)@ == old(self)@.update(
                    key_index(old(self)@, key@),
                    (key@, ValueModel::Object(final (r->Ok_0)@)),
                )
            },
            r is Err ==> {
                &&& final (self)@ == old(self)@
                &&& match r->Err_0 {
                    JsonError::KeyNotFound => !has_key(old(self)@, key@),
                    JsonError::WrongTypeValueRequest => has_key(old(self)@, key@) && !(lookup(
                        old(self)@,
                        key@,
                    ) is Object),
                    _ => false,
                }
            },
            has_key(old(self)@, key@) && lookup(old(self)@, key@) is Object ==> r is Ok,
    {
        proof {
            broadcast use lemma_fields_model;

        }
        let ghost old_model = self@;
        let k = key.to_owned();
        let idx = self.get_index_of_key(&k);
        match idx {
            None => Err(JsonError::KeyNotFound),
            Some(i) => {
                proof {
                    lemma_key_index(old_model, key@);
                }
                match &mut self.children[i].1 {
                    JsonType::Object(o) => {
                        proof {
                            let ci = i as int;
                            let target = old_model.update(
                                ci,
                                (key@, ValueModel::Object(final (o)@)),
                            );
                            assert forall|j: int|
                                0 <= j < old_model.len() implies after_borrow(*self)@[j]
                                == target[j] by {
                                assert(after_borrow(*self)@[j] == (
                                    after_borrow(*self).children@[j].0@,
                                    after_borrow(*self).children@[j].1.model(),
                                ));
                                assert(old_model[j] == (
                                    old(self).children@[j].0@,
                                    old(self).children@[j].1.model(),
                                ));
                            }
                            assert(after_borrow(*self)@ =~= target);
                        }
                        Ok(o)
                    },
                    _ => {
                        proof {
                            assert(after_borrow(*self).children@ =~= old(self).children@);
                            assert(after_borrow(*self)@ == old(self)@);
                        }
                        Err(JsonError::WrongTypeValueRequest)
                    },
                }
            },
        }
    }

    /// Stores `value` under `key`: replaces in place when the key exists,
    /// appends otherwise. Never fails.
    fn set_value(&mut self, key: &str, value: JsonType)
        ensures
            final (self)@ == set_entry(old(self)@, key@, value@),
    {
        proof {
            broadcast use lemma_fields_model;

        }
        let ghost old_model = self@;
        let k = key.to_owned();
        let idx = self.get_index_of_key(&k);
        match idx {
            Some(i) => {
                proof {
                    lemma_key_index(old_model, key@);
                }
                let ghost v = value@;
                self.children.set(i, (k, value));
                proof {
                    assert forall|j: int| 0 <= j < old_model.len() implies self@[j] == set_entry(
                        old_model,
                        key@,
                        v,
                    )[j] by {
                        assert(self.children@[j] == if j == i {
                            (k, value)
                        } else {
                            old(self).children@[j]
                        });
                    }
                    assert(self@ =~= set_entry(old_model, key@, v));
                }
            },
            None => {
                proof {
                    lemma_key_index(old_model, key@);
                }
                let ghost v = value@;
                self.children.push((k, value));
                proof {
                    assert forall|j: int|
                        0 <= j < old_model.len() + 1 implies self@[j] == set_entry(
                        old_model,
                        key@,
                        v,
                    )[j] by {
                        assert(self.children@[j] == if j == old_model.len() {
                            (k, value)
                        } else {
                            old(self).children@[j]
                        });
                    }
                    assert(self@ =~= set_entry(old_model, key@, v));
                }
            },
        }
    }

    /// Stores a boolean under `key` (replace in place or append).
    pub fn set_bool(&mut self, key: &str, value: bool)
        ensures
            final (self)@ == set_entry(old(self)@, key@, ValueModel::Bool(value)),
    {
        self.set_value(key, JsonType::Bool(value));
    }

    /// Stores a number under `key` (replace in place or append).
    pub fn set_number(&mut self, key: &str, value: JsonNumber)
        ensures
            final (self)@ == set_entry(old(self)@, key@, ValueModel::Number(value@.0, value@.1)),
    {
        self.set_value(key, JsonType::Number(value));
    }

    /// Stores text under `key` (replace in place or append).
    pub fn set_string(&mut self, key: &str, value: &str)
        ensures
            final (self)@ == set_entry(old(self)@, key@, ValueModel::Str(value@)),
    {
        self.set_value(key, JsonType::String(value.to_owned()));
    }

    /// Stores an array under `key` (replace in place or append).
    pub fn set_array(&mut self, key: &str, value: Vec<JsonType>)
        ensures
            final (self)@ == set_entry(old(self)@, key@, ValueModel::Array(model_seq(value@))),
    {
        self.set_value(key, JsonType::Array(value));
    }

    /// Stores a null under `key` (replace in place or append).
    pub fn set_null(&mut self, key: &str)
        ensures
            final (self)@ == set_entry(old(self)@, key@, ValueModel::Null),
    {
        self.set_value(key, JsonType::Null);
    }

    /// Stores a fresh empty object under `key` (replace in place or append),
    /// meant to be filled through `get_obj_ref` right afterwards.
    pub fn push_obj(&mut self, key: &str)
        ensures
            final (self)@ == set_entry(
                old(self)@,
                key@,
                ValueModel::Object(Seq::<(Seq<char>, ValueModel)>::empty()),
            ),
    {
        self.set_value(key, JsonType::Object(JsonObject::new()));
    }
}

} // verus!
