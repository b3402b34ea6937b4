//! Loosely typed values, and the layouts that say how to read them.
//!
//! The wire does not describe itself, so a [`Value`] is read under the
//! guidance of a layout (see [`layout`]).

pub mod de;
pub mod index;
pub mod layout;
pub mod ser;
pub mod visitor;
pub mod wire;

use vstd::prelude::*;

verus! {

/// Any value that the format can carry.
#[derive(Debug)]
pub enum Value {
    /// Unit.
    Unit,
    /// A natural number.
    Nat0(u32),
    /// A boolean.
    Bool(bool),
    /// A byte string. Its bytes need not be UTF-8.
    String(Vec<u8>),
    /// A character.
    Char(char),
    /// An integer.
    Int(i64),
    /// A 64-bit float, as its IEEE-754 bit pattern.
    Float(u64),
    /// A value that may be absent.
    Option(Option<Box<Value>>),
    /// Named values, in the order of their declaration.
    Record(Vec<(String, Value)>),
    /// A fixed row of values.
    Tuple(Vec<Value>),
    /// A variant of a sum: the constructor's name and index, and what it
    /// holds. A constructor without arguments holds unit, one with a
    /// single argument holds that argument, one with more holds their
    /// tuple.
    Sum { name: String, index: u16, value: Box<Value> },
    /// Any number of values of one shape.
    List(Vec<Value>),
}

/// The mathematical content of a [`Value`].
pub enum ValueView {
    Unit,
    Nat0(u32),
    Bool(bool),
    String(Seq<u8>),
    Char(char),
    Int(i64),
    Float(u64),
    Option(Option<Box<ValueView>>),
    Record(Seq<(Seq<char>, ValueView)>),
    Tuple(Seq<ValueView>),
    Sum { name: Seq<char>, index: u16, value: Box<ValueView> },
    List(Seq<ValueView>),
}

/// The content of `value`.
pub open spec fn value_view(value: Value) -> ValueView
    decreases value, 1nat,
{
    match value {
        Value::Unit => ValueView::Unit,
        Value::Nat0(n) => ValueView::Nat0(n),
        Value::Bool(b) => ValueView::Bool(b),
        Value::String(bytes) => ValueView::String(bytes@),
        Value::Char(c) => ValueView::Char(c),
        Value::Int(n) => ValueView::Int(n),
        Value::Float(bits) => ValueView::Float(bits),
        Value::Option(None) => ValueView::Option(None),
        Value::Option(Some(inner)) => ValueView::Option(Some(Box::new(value_view(*inner)))),
        Value::Record(entries) => ValueView::Record(entry_views(entries@)),
        Value::Tuple(items) => ValueView::Tuple(value_views(items@)),
        Value::Sum { name, index, value } => ValueView::Sum {
            name: name@,
            index,
            value: Box::new(value_view(*value)),
        },
        Value::List(items) => ValueView::List(value_views(items@)),
    }
}

/// The contents of the values of `values`, in order.
pub open spec fn value_views(values: Seq<Value>) -> Seq<ValueView>
    decreases values, 0nat,
{
    Seq::new(
        values.len(),
        |i: int|
            if 0 <= i < values.len() {
                value_view(values[i])
            } else {
                arbitrary()
            },
    )
}

/// The contents of the entries of `entries`, in order.
pub open spec fn entry_views(entries: Seq<(String, Value)>) -> Seq<(Seq<char>, ValueView)>
    decreases entries, 0nat,
{
    Seq::new(
        entries.len(),
        |i: int|
            if 0 <= i < entries.len() {
                (entries[i].0@, value_view(entries[i].1))
            } else {
                arbitrary()
            },
    )
}

impl View for Value {
    type V = ValueView;

    open spec fn view(&self) -> ValueView {
        value_view(*self)
    }
}

impl Default for Value {
    fn default() -> (v: Value)
        ensures
            v@ == ValueView::Unit,
    {
        Value::Unit
    }
}

/// A copy of each value of `values`.
pub fn clone_values(values: &Vec<Value>) -> (copy: Vec<Value>)
    ensures
        value_views(copy@) == value_views(values@),
    decreases values, 0nat,
{
    let mut copy: Vec<Value> = Vec::new();
    let n: usize = values.len();
    let mut i: usize = 0;
    while i < n
        invariant
            i <= n,
            n == values.len(),
            copy.len() == i,
            forall|j: int| 0 <= j < i ==> value_view(#[trigger] copy@[j]) == value_view(values@[j]),
        decreases n - i,
    {
        let item = values[i].clone();
        copy.push(item);
        i = i + 1;
    }
    assert(value_views(copy@) =~= value_views(values@));
    copy
}

impl Clone for Value {
    fn clone(&self) -> (copy: Self)
        ensures
            copy@ == self@,
        decreases self, 1nat,
    {
        match self {
            Value::Unit => Value::Unit,
            Value::Nat0(n) => Value::Nat0(*n),
            Value::Bool(b) => Value::Bool(*b),
            Value::String(bytes) => {
                let copy = vstd::slice::slice_to_vec(bytes.as_slice());
                Value::String(copy)
            },
            Value::Char(c) => Value::Char(*c),
            Value::Int(n) => Value::Int(*n),
            Value::Float(bits) => Value::Float(*bits),
            Value::Option(None) => Value::Option(None),
            Value::Option(Some(inner)) => {
                let inner: &Value = &**inner;
                Value::Option(Some(Box::new(inner.clone())))
            },
            Value::Record(entries) => {
                let mut copy: Vec<(String, Value)> = Vec::new();
                let n: usize = entries.len();
                let mut i: usize = 0;
                while i < n
                    invariant
                        i <= n,
                        n == entries.len(),
                        copy.len() == i,
                        *self == Value::Record(*entries),
                        forall|j: int|
                            0 <= j < i ==> (#[trigger] copy@[j]).0@ == entries@[j].0@
                                && value_view(copy@[j].1) == value_view(entries@[j].1),
                    decreases n - i,
                {
                    let entry: &(String, Value) = &entries[i];
                    assert(decreases_to!(self => self->Record_0));
                    assert(decreases_to!(entries => entries[i as int]));
                    assert(decreases_to!(entries[i as int] => entries[i as int].1));
                    copy.push((entry.0.clone(), entry.1.clone()));
                    i = i + 1;
                }
                assert(entry_views(copy@) =~= entry_views(entries@));
                Value::Record(copy)
            },
            Value::Tuple(items) => Value::Tuple(clone_values(items)),
            Value::Sum { name, index, value } => {
                let inner: &Value = &**value;
                Value::Sum { name: name.clone(), index: *index, value: Box::new(inner.clone()) }
            },
            Value::List(items) => Value::List(clone_values(items)),
        }
    }
}

/// Whether `a` and `b` hold the same bytes.
fn same_bytes(a: &Vec<u8>, b: &Vec<u8>) -> (same: bool)
    ensures
        same == (a@ == b@),
{
    let n: usize = a.len();
    if b.len() != n {
        return false;
    }
    let mut i: usize = 0;
    while i < n
        invariant
            i <= n,
            n == a.len(),
            n == b.len(),
            forall|j: int| 0 <= j < i ==> a@[j] == b@[j],
        decreases n - i,
    {
        if a[i] != b[i] {
            return false;
        }
        i = i + 1;
    }
    assert(a@ =~= b@);
    true
}

/// Whether `a` and `b` hold the same values in the same order.
fn same_values(a: &Vec<Value>, b: &Vec<Value>) -> (same: bool)
    ensures
        same == (value_views(a@) == value_views(b@)),
    decreases a, 0nat,
{
    let n: usize = a.len();
    if b.len() != n {
        assert(value_views(a@).len() != value_views(b@).len());
        return false;
    }
    let mut i: usize = 0;
    while i < n
        invariant
            i <= n,
            n == a.len(),
            n == b.len(),
            forall|j: int| 0 <= j < i ==> value_view(a@[j]) == value_view(b@[j]),
        decreases n - i,
    {
        if !a[i].same(&b[i]) {
            assert(value_views(a@)[i as int] != value_views(b@)[i as int]);
            return false;
        }
        i = i + 1;
    }
    assert(value_views(a@) =~= value_views(b@));
    true
}

impl PartialEq for Value {
    fn eq(&self, other: &Value) -> (r: bool) {
        self.same(other)
    }
}

impl vstd::std_specs::cmp::PartialEqSpecImpl for Value {
    open spec fn obeys_eq_spec() -> bool {
        true
    }

    open spec fn eq_spec(&self, other: &Value) -> bool {
        self@ == other@
    }
}

impl Value {
    /// Whether `self` and `other` are the same value: of one kind, with
    /// the same content in every part.
    pub fn same(&self, other: &Value) -> (same: bool)
        ensures
            same == (self@ == other@),
        decreases self, 1nat,
    {
        match self {
            Value::Unit => match other {
                Value::Unit => true,
                _ => false,
            },
            Value::Nat0(a) => match other {
                Value::Nat0(b) => *a == *b,
                _ => false,
            },
            Value::Bool(a) => match other {
                Value::Bool(b) => *a == *b,
                _ => false,
            },
            Value::String(a) => match other {
                Value::String(b) => same_bytes(a, b),
                _ => false,
            },
            Value::Char(a) => match other {
                Value::Char(b) => *a == *b,
                _ => false,
            },
            Value::Int(a) => match other {
                Value::Int(b) => *a == *b,
                _ => false,
            },
            Value::Float(a) => match other {
                Value::Float(b) => *a == *b,
                _ => false,
            },
            Value::Option(None) => match other {
                Value::Option(None) => true,
                _ => false,
            },
            Value::Option(Some(a)) => match other {
                Value::Option(Some(b)) => {
                    let a: &Value = &**a;
                    a.same(&**b)
                },
                _ => false,
            },
            Value::Record(a) => match other {
                Value::Record(b) => {
                    let n: usize = a.len();
                    if b.len() != n {
                        assert(entry_views(a@).len() != entry_views(b@).len());
                        return false;
                    }
                    let mut i: usize = 0;
                    while i < n
                        invariant
                            i <= n,
                            n == a.len(),
                            n == b.len(),
                            *self == Value::Record(*a),
                            *other == Value::Record(*b),
                            forall|j: int|
                                0 <= j < i ==> entry_views(a@)[j] == entry_views(b@)[j],
                        decreases n - i,
                    {
                        let x: &(String, Value) = &a[i];
                        let y: &(String, Value) = &b[i];
                        assert(decreases_to!(self => self->Record_0));
                        assert(decreases_to!(a => a[i as int]));
                        assert(decreases_to!(a[i as int] => a[i as int].1));
                        if !(x.0 == y.0) || !x.1.same(&y.1) {
                            assert(entry_views(a@)[i as int] != entry_views(b@)[i as int]);
                            return false;
                        }
                        i = i + 1;
                    }
                    assert(entry_views(a@) =~= entry_views(b@));
                    true
                },
                _ => false,
            },
            Value::Tuple(a) => match other {
                Value::Tuple(b) => same_values(a, b),
                _ => false,
            },
            Value::Sum { name, index, value } => match other {
                Value::Sum { name: other_name, index: other_index, value: other_value } => {
                    let held: &Value = &**value;
                    *name == *other_name && *index == *other_index && held.same(&**other_value)
                },
                _ => false,
            },
            Value::List(a) => match other {
                Value::List(b) => same_values(a, b),
                _ => false,
            },
        }
    }
}

} // verus!
