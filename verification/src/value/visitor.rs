//! Which value each event of a typed reader stands for.

use crate::value::{entry_views, value_views, Value, ValueView};
use vstd::prelude::*;

verus! {

/// Builds a [`Value`] from the events that a reader reports.
pub struct ValueVisitor;

impl ValueVisitor {
    /// A boolean.
    pub fn visit_bool(&self, value: bool) -> (v: Value)
        ensures
            v@ == ValueView::Bool(value),
    {
        Value::Bool(value)
    }

    /// An integer.
    pub fn visit_i64(&self, value: i64) -> (v: Value)
        ensures
            v@ == ValueView::Int(value),
    {
        Value::Int(value)
    }

    /// A float, as its bit pattern.
    pub fn visit_f64(&self, bits: u64) -> (v: Value)
        ensures
            v@ == ValueView::Float(bits),
    {
        Value::Float(bits)
    }

    /// A character.
    pub fn visit_char(&self, value: char) -> (v: Value)
        ensures
            v@ == ValueView::Char(value),
    {
        Value::Char(value)
    }

    /// A string: the bytes of its UTF-8 form.
    pub fn visit_str(&self, value: &str) -> (v: Value)
        ensures
            v@ == ValueView::String(vstd::utf8::encode_utf8(value@)),
    {
        self.visit_string(vstd::slice::slice_to_vec(value.as_bytes()))
    }

    /// A byte string.
    pub fn visit_string(&self, value: Vec<u8>) -> (v: Value)
        ensures
            v@ == ValueView::String(value@),
    {
        Value::String(value)
    }

    /// An option that is absent.
    pub fn visit_none(&self) -> (v: Value)
        ensures
            v@ == ValueView::Option(None),
    {
        Value::Option(None)
    }

    /// An option that holds `inner`.
    pub fn visit_some(&self, inner: Value) -> (v: Value)
        ensures
            v@ == ValueView::Option(Some(Box::new(inner@))),
    {
        Value::Option(Some(Box::new(inner)))
    }

    /// Unit.
    pub fn visit_unit(&self) -> (v: Value)
        ensures
            v@ == ValueView::Unit,
    {
        Value::Unit
    }

    /// A row of values.
    pub fn visit_seq(&self, items: Vec<Value>) -> (v: Value)
        ensures
            v@ == ValueView::Tuple(value_views(items@)),
    {
        Value::Tuple(items)
    }

    /// Named values.
    pub fn visit_map(&self, entries: Vec<(String, Value)>) -> (v: Value)
        ensures
            v@ == ValueView::Record(entry_views(entries@)),
    {
        Value::Record(entries)
    }

    /// A variant of a sum.
    pub fn visit_enum(&self, name: String, index: u16, value: Value) -> (v: Value)
        ensures
            v@ == (ValueView::Sum { name: name@, index, value: Box::new(value@) }),
    {
        Value::Sum { name, index, value: Box::new(value) }
    }
}

} // verus!
