//! Reaching into a value by position or by name.

use crate::value::{entry_views, value_view, value_views, Value, ValueView};
use vstd::prelude::*;

verus! {

/// The values that a position reaches into: those of a list or a tuple,
/// and of a sum that holds a list or a tuple.
pub open spec fn items_of(v: ValueView) -> Option<Seq<ValueView>> {
    match v {
        ValueView::List(items) => Some(items),
        ValueView::Tuple(items) => Some(items),
        ValueView::Sum { value, .. } => match *value {
            ValueView::List(items) => Some(items),
            ValueView::Tuple(items) => Some(items),
            _ => None,
        },
        _ => None,
    }
}

/// The entries that a name reaches into: those of a record, and of a sum
/// that holds a record.
pub open spec fn entries_of(v: ValueView) -> Option<Seq<(Seq<char>, ValueView)>> {
    match v {
        ValueView::Record(entries) => Some(entries),
        ValueView::Sum { value, .. } => match *value {
            ValueView::Record(entries) => Some(entries),
            _ => None,
        },
        _ => None,
    }
}

/// The value at the position `i` of `v`, if `v` has one.
pub open spec fn value_at(v: ValueView, i: nat) -> Option<ValueView> {
    match items_of(v) {
        Some(items) => if i < items.len() {
            Some(items[i as int])
        } else {
            None
        },
        None => None,
    }
}

/// The place of the first entry of `entries`, from `from` on, that has the
/// name `name`.
pub open spec fn first_named(
    entries: Seq<(Seq<char>, ValueView)>,
    name: Seq<char>,
    from: nat,
) -> Option<nat>
    decreases entries.len() - from,
{
    if from >= entries.len() {
        None
    } else if entries[from as int].0 == name {
        Some(from)
    } else {
        first_named(entries, name, from + 1)
    }
}

/// The value of the first field of `v` that has the name `name`, if `v`
/// has one.
pub open spec fn value_named(v: ValueView, name: Seq<char>) -> Option<ValueView> {
    match entries_of(v) {
        Some(entries) => match first_named(entries, name, 0) {
            Some(i) => Some(entries[i as int].1),
            None => None,
        },
        None => None,
    }
}

/// A key that reaches into a [`Value`].
pub trait Index {
    /// What the key reaches in a value with the content `v`.
    spec fn reaches(&self, v: ValueView) -> Option<ValueView>;

    /// The value that the key reaches in `v`, or nothing when the shape of
    /// `v` has no such place.
    fn index_into<'v>(&self, v: &'v Value) -> (r: Option<&'v Value>)
        ensures
            match self.reaches(v@) {
                Some(found) => r matches Some(x) && x@ == found,
                None => r is None,
            },
    ;
}

/// The value at the position `i` of `items`.
fn item_at<'v>(items: &'v Vec<Value>, i: usize) -> (r: Option<&'v Value>)
    ensures
        match value_at(ValueView::List(value_views(items@)), i as nat) {
            Some(found) => r matches Some(x) && x@ == found,
            None => r is None,
        },
{
    if i < items.len() {
        Some(&items[i])
    } else {
        None
    }
}

/// The value of the first entry of `entries` that has the name `name`.
fn entry_named<'v>(entries: &'v Vec<(String, Value)>, name: &String) -> (r: Option<&'v Value>)
    ensures
        match first_named(entry_views(entries@), name@, 0) {
            Some(i) => r matches Some(x) && x@ == entry_views(entries@)[i as int].1,
            None => r is None,
        },
{
    let n: usize = entries.len();
    let mut i: usize = 0;
    while i < n
        invariant
            i <= n,
            n == entries.len(),
            first_named(entry_views(entries@), name@, 0) == first_named(
                entry_views(entries@),
                name@,
                i as nat,
            ),
        decreases n - i,
    {
        let entry: &(String, Value) = &entries[i];
        if entry.0 == *name {
            return Some(&entry.1);
        }
        i = i + 1;
    }
    None
}

impl Index for usize {
    open spec fn reaches(&self, v: ValueView) -> Option<ValueView> {
        value_at(v, *self as nat)
    }

    fn index_into<'v>(&self, v: &'v Value) -> (r: Option<&'v Value>) {
        proof {
            reveal_with_fuel(value_view, 2);
        }
        match v {
            Value::List(items) => item_at(items, *self),
            Value::Tuple(items) => item_at(items, *self),
            Value::Sum { value, .. } => match &**value {
                Value::List(items) => item_at(items, *self),
                Value::Tuple(items) => item_at(items, *self),
                _ => None,
            },
            _ => None,
        }
    }
}

impl Index for String {
    open spec fn reaches(&self, v: ValueView) -> Option<ValueView> {
        value_named(v, self@)
    }

    fn index_into<'v>(&self, v: &'v Value) -> (r: Option<&'v Value>) {
        proof {
            reveal_with_fuel(value_view, 2);
        }
        match v {
            Value::Record(entries) => entry_named(entries, self),
            Value::Sum { value, .. } => match &**value {
                Value::Record(entries) => entry_named(entries, self),
                _ => None,
            },
            _ => None,
        }
    }
}

impl Index for str {
    open spec fn reaches(&self, v: ValueView) -> Option<ValueView> {
        value_named(v, self@)
    }

    fn index_into<'v>(&self, v: &'v Value) -> (r: Option<&'v Value>) {
        let name: String = self.to_owned();
        name.index_into(v)
    }
}

impl Value {
    /// The value that `index` reaches in `self`, or nothing when the shape
    /// of `self` has no such place.
    pub fn get<I: Index>(&self, index: I) -> (r: Option<&Value>)
        ensures
            match index.reaches(self@) {
                Some(found) => r matches Some(x) && x@ == found,
                None => r is None,
            },
    {
        index.index_into(self)
    }
}

} // verus!
