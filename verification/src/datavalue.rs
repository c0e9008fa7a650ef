//! The value tree: its node type, the mathematical view that the contracts
//! speak of, and the typed accessors.
use vstd::prelude::*;
use crate::floating::{from_int, int_bits};
use crate::text::same_text;
use crate::time::{Span, Timestamp};

verus! {

/// The tag of a value.
#[derive(Debug, Clone, Copy, PartialEq, Eq, Structural)]
pub enum DataValueType {
    Null,
    Bool,
    Integer,
    Float,
    String,
    Array,
    Object,
    DateTime,
    Duration,
}

/// A number: a 64-bit integer, or a binary64 number by its bit pattern.
#[derive(Debug, Clone, Copy, PartialEq, Eq, Structural)]
pub enum Number {
    Integer(i64),
    Float(u64),
}

/// A node of the tree. An object is an ordered list of pairs: keys may
/// repeat, and a lookup finds the first.
#[derive(Debug)]
pub enum DataValue {
    Null,
    Bool(bool),
    Number(Number),
    String(String),
    Array(Vec<DataValue>),
    Object(Vec<(String, DataValue)>),
    DateTime(Timestamp),
    Duration(Span),
}

/// The mathematical content of a [`DataValue`].
pub enum ValueView {
    Null,
    Bool(bool),
    Integer(i64),
    Float(u64),
    String(Seq<char>),
    Array(Seq<ValueView>),
    Object(Seq<(Seq<char>, ValueView)>),
    DateTime(Timestamp),
    Duration(Span),
}

/// The index of the first pair of `entries` whose key is `key`, if any.
pub open spec fn first_index(entries: Seq<(Seq<char>, ValueView)>, key: Seq<char>) -> Option<int>
    decreases entries.len(),
{
    if entries.len() == 0 {
        None
    } else if entries[0].0 == key {
        Some(0)
    } else {
        match first_index(entries.drop_first(), key) {
            Some(i) => Some(i + 1),
            None => None,
        }
    }
}

/// A lookup finds the first pair with the key, and finds none only where
/// no pair has the key.
pub proof fn lemma_first_index_is_first(entries: Seq<(Seq<char>, ValueView)>, key: Seq<char>)
    ensures
        match first_index(entries, key) {
            Some(i) => 0 <= i < entries.len() && entries[i].0 == key && forall|j: int|
                0 <= j < i ==> (#[trigger] entries[j]).0 != key,
            None => forall|j: int| 0 <= j < entries.len() ==> (#[trigger] entries[j]).0 != key,
        },
    decreases entries.len(),
{
    if entries.len() > 0 && entries[0].0 != key {
        let rest = entries.drop_first();
        lemma_first_index_is_first(rest, key);
        match first_index(rest, key) {
            Some(i) => {
                assert(rest[i] == entries[i + 1]);
                assert forall|j: int| 0 <= j < i + 1 implies (#[trigger] entries[j]).0 != key by {
                    if j > 0 {
                        assert(rest[j - 1] == entries[j]);
                    }
                }
            },
            None => {
                assert forall|j: int| 0 <= j < entries.len() implies (#[trigger] entries[j]).0
                    != key by {
                    if j > 0 {
                        assert(rest[j - 1] == entries[j]);
                    }
                }
            },
        }
    }
}

impl ValueView {
    /// The tag of this value.
    pub open spec fn tag(self) -> DataValueType {
        match self {
            ValueView::Null => DataValueType::Null,
            ValueView::Bool(_) => DataValueType::Bool,
            ValueView::Integer(_) => DataValueType::Integer,
            ValueView::Float(_) => DataValueType::Float,
            ValueView::String(_) => DataValueType::String,
            ValueView::Array(_) => DataValueType::Array,
            ValueView::Object(_) => DataValueType::Object,
            ValueView::DateTime(_) => DataValueType::DateTime,
            ValueView::Duration(_) => DataValueType::Duration,
        }
    }

    /// The value under `key`: that of the first pair with this key, if this
    /// is an object that has one.
    pub open spec fn get(self, key: Seq<char>) -> Option<ValueView> {
        match self {
            ValueView::Object(entries) => match first_index(entries, key) {
                Some(i) => Some(entries[i].1),
                None => None,
            },
            _ => None,
        }
    }

    /// The element at `index`, if this is an array that has one.
    pub open spec fn get_index(self, index: int) -> Option<ValueView> {
        match self {
            ValueView::Array(items) => if 0 <= index < items.len() {
                Some(items[index])
            } else {
                None
            },
            _ => None,
        }
    }
}

impl DataValue {
    /// The mathematical content of this tree.
    pub open spec fn model(self) -> ValueView
        decreases self,
    {
        match self {
            DataValue::Null => ValueView::Null,
            DataValue::Bool(b) => ValueView::Bool(b),
            DataValue::Number(Number::Integer(i)) => ValueView::Integer(i),
            DataValue::Number(Number::Float(bits)) => ValueView::Float(bits),
            DataValue::String(s) => ValueView::String(s@),
            DataValue::Array(items) => ValueView::Array(
                Seq::new(
                    items@.len(),
                    |i: int|
                        if 0 <= i < items@.len() {
                            items@[i].model()
                        } else {
                            ValueView::Null
                        },
                ),
            ),
            DataValue::Object(entries) => ValueView::Object(
                Seq::new(
                    entries@.len(),
                    |i: int|
                        if 0 <= i < entries@.len() {
                            (entries@[i].0@, entries@[i].1.model())
                        } else {
                            (Seq::empty(), ValueView::Null)
                        },
                ),
            ),
            DataValue::DateTime(t) => ValueView::DateTime(t),
            DataValue::Duration(d) => ValueView::Duration(d),
        }
    }
}

impl View for DataValue {
    type V = ValueView;

    open spec fn view(&self) -> ValueView {
        self.model()
    }
}

impl Clone for DataValue {
    /// A copy of the whole tree.
    fn clone(&self) -> (res: DataValue)
        ensures
            res@ == self@,
        decreases self,
    {
        match self {
            DataValue::Null => DataValue::Null,
            DataValue::Bool(b) => DataValue::Bool(*b),
            DataValue::Number(n) => DataValue::Number(*n),
            DataValue::String(s) => DataValue::String(s.clone()),
            DataValue::Array(items) => {
                let mut copy: Vec<DataValue> = Vec::new();
                let mut i: usize = 0;
                while i < items.len()
                    invariant
                        i <= items@.len(),
                        *self == DataValue::Array(*items),
                        copy@.len() == i,
                        forall|j: int| 0 <= j < i ==> (#[trigger] copy@[j])@ == items@[j]@,
                    decreases items@.len() - i,
                {
                    assert(decreases_to!(*self => self->Array_0));
                    assert(decreases_to!(*items => items@[i as int]));
                    copy.push(items[i].clone());
                    i = i + 1;
                }
                let res = DataValue::Array(copy);
                assert(res@->Array_0 =~= self@->Array_0);
                res
            },
            DataValue::Object(entries) => {
                let mut copy: Vec<(String, DataValue)> = Vec::new();
                let mut i: usize = 0;
                while i < entries.len()
                    invariant
                        i <= entries@.len(),
                        *self == DataValue::Object(*entries),
                        copy@.len() == i,
                        forall|j: int|
                            0 <= j < i ==> (#[trigger] copy@[j]).0@ == entries@[j].0@ && copy@[j].1@
                                == entries@[j].1@,
                    decreases entries@.len() - i,
                {
                    assert(decreases_to!(*self => self->Object_0));
                    assert(decreases_to!(*entries => entries@[i as int]));
                    copy.push((entries[i].0.clone(), entries[i].1.clone()));
                    i = i + 1;
                }
                let res = DataValue::Object(copy);
                assert(res@->Object_0 =~= self@->Object_0);
                res
            },
            DataValue::DateTime(t) => DataValue::DateTime(*t),
            DataValue::Duration(d) => DataValue::Duration(*d),
        }
    }
}

impl DataValue {
    /// The tag of this value.
    pub fn get_type(&self) -> (t: DataValueType)
        ensures
            t == self@.tag(),
    {
        match self {
            DataValue::Null => DataValueType::Null,
            DataValue::Bool(_) => DataValueType::Bool,
            DataValue::Number(Number::Integer(_)) => DataValueType::Integer,
            DataValue::Number(Number::Float(_)) => DataValueType::Float,
            DataValue::String(_) => DataValueType::String,
            DataValue::Array(_) => DataValueType::Array,
            DataValue::Object(_) => DataValueType::Object,
            DataValue::DateTime(_) => DataValueType::DateTime,
            DataValue::Duration(_) => DataValueType::Duration,
        }
    }

    /// The boolean, if this is one.
    pub fn as_bool(&self) -> (r: Option<bool>)
        ensures
            r == (match self@ {
                ValueView::Bool(b) => Some(b),
                _ => None,
            }),
    {
        match self {
            DataValue::Bool(b) => Some(*b),
            _ => None,
        }
    }

    /// The integer, if this is one.
    pub fn as_i64(&self) -> (r: Option<i64>)
        ensures
            r == (match self@ {
                ValueView::Integer(i) => Some(i),
                _ => None,
            }),
    {
        match self {
            DataValue::Number(Number::Integer(i)) => Some(*i),
            _ => None,
        }
    }

    /// The bit pattern of this number as a binary64 number: that of a
    /// float itself, that of the nearest float for an integer.
    pub fn as_f64(&self) -> (r: Option<u64>)
        ensures
            r == (match self@ {
                ValueView::Integer(i) => Some(int_bits(i as int) as u64),
                ValueView::Float(bits) => Some(bits),
                _ => None,
            }),
    {
        match self {
            DataValue::Number(Number::Integer(i)) => Some(from_int(*i)),
            DataValue::Number(Number::Float(bits)) => Some(*bits),
            _ => None,
        }
    }

    /// The text, if this is a string.
    pub fn as_str(&self) -> (r: Option<&str>)
        ensures
            match self@ {
                ValueView::String(s) => r matches Some(t) && t@ == s,
                _ => r is None,
            },
    {
        match self {
            DataValue::String(s) => Some(s.as_str()),
            _ => None,
        }
    }

    /// The elements, if this is an array.
    pub fn as_array(&self) -> (r: Option<&[DataValue]>)
        ensures
            match self@ {
                ValueView::Array(items) => r matches Some(v) && v@.len() == items.len()
                    && forall|i: int| 0 <= i < items.len() ==> (#[trigger] v@[i])@ == items[i],
                _ => r is None,
            },
    {
        match self {
            DataValue::Array(a) => Some(a.as_slice()),
            _ => None,
        }
    }

    /// The pairs, if this is an object.
    pub fn as_object(&self) -> (r: Option<&[(String, DataValue)]>)
        ensures
            match self@ {
                ValueView::Object(entries) => r matches Some(v) && v@.len() == entries.len()
                    && forall|i: int|
                    0 <= i < entries.len() ==> ((#[trigger] v@[i]).0@, v@[i].1@) == entries[i],
                _ => r is None,
            },
    {
        match self {
            DataValue::Object(o) => Some(o.as_slice()),
            _ => None,
        }
    }

    /// The instant, if this is a date-time.
    pub fn as_datetime(&self) -> (r: Option<Timestamp>)
        ensures
            r == (match self@ {
                ValueView::DateTime(t) => Some(t),
                _ => None,
            }),
    {
        match self {
            DataValue::DateTime(t) => Some(*t),
            _ => None,
        }
    }

    /// The span, if this is a duration.
    pub fn as_duration(&self) -> (r: Option<Span>)
        ensures
            r == (match self@ {
                ValueView::Duration(d) => Some(d),
                _ => None,
            }),
    {
        match self {
            DataValue::Duration(d) => Some(*d),
            _ => None,
        }
    }

    /// The value under `key`: that of the first pair with this key, if this
    /// is an object that has one.
    pub fn get(&self, key: &str) -> (r: Option<&DataValue>)
        ensures
            match self@.get(key@) {
                Some(v) => r matches Some(found) && found@ == v,
                None => r is None,
            },
    {
        match self {
            DataValue::Object(entries) => {
                let mut i: usize = 0;
                assert(self@->Object_0.skip(0) =~= self@->Object_0);
                while i < entries.len()
                    invariant
                        i <= entries@.len(),
                        self@ is Object,
                        self@->Object_0.len() == entries@.len(),
                        forall|j: int|
                            0 <= j < entries@.len() ==> #[trigger] self@->Object_0[j] == (
                                entries@[j].0@,
                                entries@[j].1@,
                            ),
                        first_index(self@->Object_0, key@) == (match first_index(
                            self@->Object_0.skip(i as int),
                            key@,
                        ) {
                            Some(k) => Some(k + i),
                            None => None,
                        }),
                    decreases entries@.len() - i,
                {
                    let ghost rest = self@->Object_0.skip(i as int);
                    assert(rest[0] == self@->Object_0[i as int]);
                    assert(rest.drop_first() == self@->Object_0.skip(i + 1));
                    if same_text(entries[i].0.as_str(), key) {
                        return Some(&entries[i].1);
                    }
                    i = i + 1;
                }
                assert(self@->Object_0.skip(i as int).len() == 0);
                None
            },
            _ => None,
        }
    }

    /// Whether this is an object with a pair under `key`.
    pub fn contains_key(&self, key: &str) -> (r: bool)
        ensures
            r == self@.get(key@).is_some(),
    {
        self.get(key).is_some()
    }

    /// The element at `index`, if this is an array that has one.
    pub fn get_index(&self, index: usize) -> (r: Option<&DataValue>)
        ensures
            match self@.get_index(index as int) {
                Some(v) => r matches Some(found) && found@ == v,
                None => r is None,
            },
    {
        match self {
            DataValue::Array(items) => if index < items.len() {
                Some(&items[index])
            } else {
                None
            },
            _ => None,
        }
    }
}

} // verus!

