//! JSON values as the program holds them.

use vstd::prelude::*;
use vstd::std_specs::cmp::PartialEqSpecImpl;
use crate::bindings::{bind, distinct_keys, has_key, key_index, lemma_key_index};
use crate::json::model::Json;
use crate::json::number::Number;
use crate::text::same_text;

verus! {

/// The members of a JSON object: keys bound to values, no key twice, in the
/// order in which the keys were first bound. That order is the order in which
/// the members are written out; it plays no part when objects are compared.
#[derive(Debug)]
pub struct Object {
    entries: Vec<(String, Value)>,
}

/// A JSON value.
#[derive(Debug)]
pub enum Value {
    /// `null`.
    Null,
    /// `true` or `false`.
    Bool(bool),
    /// A number.
    Number(Number),
    /// A string of Unicode scalar values.
    String(String),
    /// An ordered sequence of values.
    Array(Vec<Value>),
    /// A mapping from keys to values.
    Object(Object),
}

impl View for Value {
    type V = Json;

    open spec fn view(&self) -> Json
        decreases self,
    {
        match self {
            Value::Null => Json::Null,
            Value::Bool(b) => Json::Bool(*b),
            Value::Number(n) => Json::Number(n@),
            Value::String(s) => Json::String(s@),
            Value::Array(items) => Json::Array(
                Seq::new(
                    items@.len(),
                    |i: int|
                        if 0 <= i < items@.len() {
                            items@[i].view()
                        } else {
                            Json::Null
                        },
                ),
            ),
            Value::Object(o) => Json::Object(o.view()),
        }
    }
}

impl View for Object {
    type V = Seq<(Seq<char>, Json)>;

    closed spec fn view(&self) -> Seq<(Seq<char>, Json)>
        decreases self,
    {
        Seq::new(
            self.entries@.len(),
            |i: int|
                if 0 <= i < self.entries@.len() {
                    (self.entries@[i].0@, self.entries@[i].1.view())
                } else {
                    (Seq::empty(), Json::Null)
                },
        )
    }
}

impl Object {
    #[verifier::type_invariant]
    spec fn valid(self) -> bool {
        distinct_keys(self@)
    }

    /// An object without members.
    pub fn new() -> (o: Object)
        ensures
            o@ == Seq::<(Seq<char>, Json)>::empty(),
    {
        let o = Object { entries: Vec::new() };
        assert(o@ =~= Seq::<(Seq<char>, Json)>::empty());
        o
    }

    /// The number of members. No two of them share a key.
    pub fn len(&self) -> (n: usize)
        ensures
            n == self@.len(),
            distinct_keys(self@),
    {
        proof {
            use_type_invariant(self);
        }
        self.entries.len()
    }

    /// Whether the object has no members.
    pub fn is_empty(&self) -> (r: bool)
        ensures
            r == (self@.len() == 0),
    {
        self.entries.len() == 0
    }

    /// The key of the member at `i`.
    pub fn key_at(&self, i: usize) -> (k: &str)
        requires
            i < self@.len(),
        ensures
            k@ == self@[i as int].0,
    {
        self.entries[i].0.as_str()
    }

    /// The value of the member at `i`.
    pub fn value_at(&self, i: usize) -> (v: &Value)
        requires
            i < self@.len(),
        ensures
            v@ == self@[i as int].1,
            decreases_to!(self => v),
    {
        &self.entries[i].1
    }

    /// The place of the member with the given key, if there is one.
    pub fn index_of(&self, key: &str) -> (r: Option<usize>)
        ensures
            r is Some <==> has_key(self@, key@),
            r matches Some(i) ==> i == key_index(self@, key@) && self@[i as int].0 == key@,
    {
        let mut i: usize = 0;
        assert(self@.skip(0) =~= self@);
        while i < self.entries.len()
            invariant
                i <= self@.len(),
                self@.len() == self.entries@.len(),
                key_index(self@, key@) == i + key_index(self@.skip(i as int), key@),
            decreases self@.len() - i,
        {
            if same_text(self.entries[i].0.as_str(), key) {
                return Some(i);
            }
            assert(self@.skip(i as int).skip(1) =~= self@.skip(i + 1));
            i += 1;
        }
        None
    }

    /// Whether a member has the given key.
    pub fn contains_key(&self, key: &str) -> (r: bool)
        ensures
            r == has_key(self@, key@),
    {
        self.index_of(key).is_some()
    }

    /// The value bound to `key`, if any.
    pub fn get(&self, key: &str) -> (r: Option<&Value>)
        ensures
            r is Some <==> has_key(self@, key@),
            r matches Some(v) ==> v@ == self@[key_index(self@, key@)].1,
    {
        match self.index_of(key) {
            Some(i) => Some(&self.entries[i].1),
            None => None,
        }
    }

    /// Binds `key` to `value`. A key that was bound before keeps its place
    /// and loses its earlier value.
    pub fn insert(&mut self, key: String, value: Value)
        ensures
            final(self)@ == bind(old(self)@, key@, value@),
    {
        proof {
            use_type_invariant(&*self);
        }
        let ghost before = self@;
        let found = self.index_of(key.as_str());
        let mut taken = Object::new();
        core::mem::swap(self, &mut taken);
        let mut entries = taken.entries;
        match found {
            Some(i) => {
                entries.set(i, (key, value));
            },
            None => {
                proof {
                    lemma_key_index(before, key@);
                }
                entries.push((key, value));
            },
        }
        let ghost after = Object { entries }@;
        assert(after =~= bind(before, key@, value@));
        *self = Object { entries };
    }
}

impl Value {
    /// Structural equality: see `Json::same_as`.
    pub fn equals(&self, other: &Value) -> (r: bool)
        ensures
            r == self@.same_as(other@),
        decreases self,
    {
        match (self, other) {
            (Value::Null, Value::Null) => true,
            (Value::Bool(a), Value::Bool(b)) => *a == *b,
            (Value::Number(a), Value::Number(b)) => a.equals(b),
            (Value::String(a), Value::String(b)) => same_text(a.as_str(), b.as_str()),
            (Value::Array(a), Value::Array(b)) => {
                if a.len() != b.len() {
                    return false;
                }
                let mut i: usize = 0;
                while i < a.len()
                    invariant
                        i <= a.len(),
                        a.len() == b.len(),
                        *self == Value::Array(*a),
                        *other == Value::Array(*b),
                        forall|k: int|
                            0 <= k < i ==> (#[trigger] self@->Array_0[k]).same_as(
                                other@->Array_0[k],
                            ),
                    decreases a.len() - i,
                {
                    if !a[i].equals(&b[i]) {
                        assert(!self@->Array_0[i as int].same_as(other@->Array_0[i as int]));
                        return false;
                    }
                    i += 1;
                }
                true
            },
            (Value::Object(a), Value::Object(b)) => {
                let n = a.len();
                if n != b.len() {
                    return false;
                }
                let mut i: usize = 0;
                while i < n
                    invariant
                        i <= n,
                        n == a@.len(),
                        a@.len() == b@.len(),
                        *self == Value::Object(*a),
                        *other == Value::Object(*b),
                        forall|k: int|
                            0 <= k < i ==> has_key(b@, (#[trigger] a@[k]).0) && a@[k].1.same_as(
                                b@[key_index(b@, a@[k].0)].1,
                            ),
                    decreases n - i,
                {
                    match b.index_of(a.key_at(i)) {
                        Some(j) => {
                            if !a.value_at(i).equals(b.value_at(j)) {
                                assert(!a@[i as int].1.same_as(
                                    b@[key_index(b@, a@[i as int].0)].1,
                                ));
                                return false;
                            }
                        },
                        None => {
                            assert(!has_key(b@, a@[i as int].0));
                            return false;
                        },
                    }
                    i += 1;
                }
                true
            },
            _ => false,
        }
    }
}

impl Clone for Value {
    /// A copy that is the same value, part by part.
    fn clone(&self) -> (r: Value)
        ensures
            r@ == self@,
        decreases self,
    {
        match self {
            Value::Null => Value::Null,
            Value::Bool(b) => Value::Bool(*b),
            Value::Number(n) => Value::Number(n.clone()),
            Value::String(s) => Value::String(s.clone()),
            Value::Array(items) => {
                let mut copy: Vec<Value> = Vec::new();
                let mut i: usize = 0;
                while i < items.len()
                    invariant
                        i <= items.len(),
                        *self == Value::Array(*items),
                        copy@.len() == i,
                        forall|k: int| 0 <= k < i ==> (#[trigger] copy@[k])@ == items@[k]@,
                    decreases items.len() - i,
                {
                    assert(self->Array_0[i as int] == items[i as int]);
                    copy.push(items[i].clone());
                    i += 1;
                }
                let r = Value::Array(copy);
                assert(r@->Array_0 =~= self@->Array_0);
                r
            },
            Value::Object(o) => Value::Object(o.clone()),
        }
    }
}

impl Clone for Object {
    /// A copy with the same members in the same order.
    fn clone(&self) -> (r: Object)
        ensures
            r@ == self@,
        decreases self,
    {
        proof {
            use_type_invariant(self);
        }
        let mut entries: Vec<(String, Value)> = Vec::new();
        let mut i: usize = 0;
        while i < self.entries.len()
            invariant
                i <= self.entries.len(),
                entries@.len() == i,
                forall|k: int|
                    0 <= k < i ==> (#[trigger] entries@[k]).0@ == self.entries@[k].0@
                        && entries@[k].1@ == self.entries@[k].1@,
            decreases self.entries.len() - i,
        {
            let key = self.entries[i].0.clone();
            let item = self.entries[i].1.clone();
            entries.push((key, item));
            i += 1;
        }
        let ghost copy = Object { entries }@;
        assert(copy =~= self@);
        Object { entries }
    }
}

impl PartialEq for Value {
    fn eq(&self, other: &Value) -> (r: bool) {
        self.equals(other)
    }
}

impl PartialEqSpecImpl for Value {
    open spec fn obeys_eq_spec() -> bool {
        true
    }

    open spec fn eq_spec(&self, other: &Value) -> bool {
        self@.same_as(other@)
    }
}

} // verus!
