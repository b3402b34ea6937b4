//! The wire form of a value under a layout.
//!
//! [`parse_value`] says what a byte sequence holds when it is read under
//! a rule, and [`value_bytes`] says which bytes a value of that rule's
//! shape becomes. They are inverse to one another on the values that
//! conform to the rule.

use crate::error::ErrorCode;
use crate::integers::{
    integer_bytes, lemma_integer_round_trip, lemma_integer_size, lemma_nat0_round_trip,
    lemma_nat0_size, nat0_bytes, parse_integer, parse_nat0, Parsed,
};
use crate::primitives::{
    bool_bytes, bytes_bytes, char_bytes, float64_bytes, lemma_bool_round_trip,
    lemma_bytes_round_trip, lemma_char_round_trip, lemma_float64_round_trip,
    lemma_selector_round_trip, lemma_unit_round_trip, parse_bool, parse_bytes, parse_char,
    parse_float64, parse_integer_within, parse_length, parse_selector, parse_unit, selector_bytes,
    unit_bytes,
};
use crate::value::layout::{FieldView, RuleView, SummandView};
use crate::value::ValueView;
use vstd::prelude::*;

verus! {

/// What a constructor holds that was given the arguments `items`: unit for
/// none, the argument itself for one, their tuple for more.
pub open spec fn payload_of(items: Seq<ValueView>) -> ValueView {
    if items.len() == 0 {
        ValueView::Unit
    } else if items.len() == 1 {
        items[0]
    } else {
        ValueView::Tuple(items)
    }
}

/// The outcome of a read of several values of which `done` were read from
/// `used` bytes and `rest` is the outcome for those that follow.
pub open spec fn extend<T>(done: Seq<T>, used: nat, rest: Parsed<Seq<T>>) -> Parsed<Seq<T>> {
    match rest {
        Ok((more, u)) => Ok((done + more, used + u)),
        Err((code, at)) => Err((code, used + at)),
    }
}

/// The value of the shape `rule` read from the front of `s`.
#[verifier::opaque]
pub open spec fn parse_value(rule: RuleView, s: Seq<u8>) -> Parsed<ValueView>
    decreases rule, 0nat,
{
    match rule {
        RuleView::Unit => match parse_unit(s) {
            Ok((_, used)) => Ok((ValueView::Unit, used)),
            Err(e) => Err(e),
        },
        RuleView::Bool => match parse_bool(s) {
            Ok((b, used)) => Ok((ValueView::Bool(b), used)),
            Err(e) => Err(e),
        },
        RuleView::Char => match parse_char(s) {
            Ok((c, used)) => Ok((ValueView::Char(c), used)),
            Err(e) => Err(e),
        },
        RuleView::String => match parse_bytes(s) {
            Ok((b, used)) => Ok((ValueView::String(b), used)),
            Err(e) => Err(e),
        },
        RuleView::Float => match parse_float64(s) {
            Ok((bits, used)) => Ok((ValueView::Float(bits), used)),
            Err(e) => Err(e),
        },
        RuleView::Int | RuleView::Int64 | RuleView::NativeInt => match parse_integer(s) {
            Ok((n, used)) => Ok((ValueView::Int(n), used)),
            Err(e) => Err(e),
        },
        RuleView::Int32 => match parse_integer_within(s, i32::MIN as int, i32::MAX as int) {
            Ok((n, used)) => Ok((ValueView::Int(n), used)),
            Err(e) => Err(e),
        },
        RuleView::Nat0 => match parse_nat0(s) {
            Ok((n, used)) => if n <= u32::MAX {
                Ok((ValueView::Nat0(n as u32), used))
            } else {
                Err((ErrorCode::IntegerSizeMismatch, used))
            },
            Err(e) => Err(e),
        },
        RuleView::Option(inner) => match parse_bool(s) {
            Ok((present, used)) => if present {
                match parse_value(*inner, s.skip(used as int)) {
                    Ok((v, u)) => Ok((ValueView::Option(Some(Box::new(v))), used + u)),
                    Err((code, at)) => Err((code, used + at)),
                }
            } else {
                Ok((ValueView::Option(None), used))
            },
            Err(e) => Err(e),
        },
        RuleView::List(inner) => match parse_length(s, usize::MAX as nat) {
            Ok((n, used)) => match parse_repeated(*inner, n as nat, s.skip(used as int)) {
                Ok((items, u)) => Ok((ValueView::List(items), used + u)),
                Err((code, at)) => Err((code, used + at)),
            },
            Err(e) => Err(e),
        },
        RuleView::Tuple(rules) => match parse_each(rules, 0, s) {
            Ok((items, used)) => Ok((ValueView::Tuple(items), used)),
            Err(e) => Err(e),
        },
        RuleView::Record(fields) => match parse_fields(fields, 0, s) {
            Ok((entries, used)) => Ok((ValueView::Record(entries), used)),
            Err(e) => Err(e),
        },
        RuleView::Sum(summands) => match parse_selector(s, summands.len()) {
            Ok((k, used)) => if k < summands.len() {
                match parse_each(summands[k as int].args, 0, s.skip(used as int)) {
                    Ok((items, u)) => Ok(
                        (
                            ValueView::Sum {
                                name: summands[k as int].name,
                                index: k,
                                value: Box::new(payload_of(items)),
                            },
                            used + u,
                        ),
                    ),
                    Err((code, at)) => Err((code, used + at)),
                }
            } else {
                Err((ErrorCode::InvalidVariantIndex, used))
            },
            Err(e) => Err(e),
        },
        RuleView::Resolved { path, rule: inner } => parse_value(*inner, s),
        RuleView::Unresolved(_) => Err((ErrorCode::UnresolvedReference, 0)),
        RuleView::Polyvar(_) => Err((ErrorCode::UnsupportedRule, 0)),
        RuleView::Custom => Err((ErrorCode::UnsupportedRule, 0)),
        RuleView::CustomForPath(_) => Err((ErrorCode::UnsupportedRule, 0)),
    }
}

/// The values of the shapes `rules[from..]`, one after another, read from
/// the front of `s`.
pub open spec fn parse_each(rules: Seq<RuleView>, from: nat, s: Seq<u8>) -> Parsed<Seq<ValueView>>
    decreases rules, rules.len() - from,
{
    if from >= rules.len() {
        Ok((Seq::empty(), 0))
    } else {
        match parse_value(rules[from as int], s) {
            Ok((v, used)) => extend(seq![v], used, parse_each(rules, from + 1, s.skip(used as int))),
            Err(e) => Err(e),
        }
    }
}

/// The values of the fields `fields[from..]`, one after another, read
/// from the front of `s`, each with the name of its field.
pub open spec fn parse_fields(fields: Seq<FieldView>, from: nat, s: Seq<u8>) -> Parsed<
    Seq<(Seq<char>, ValueView)>,
>
    decreases fields, fields.len() - from,
{
    if from >= fields.len() {
        Ok((Seq::empty(), 0))
    } else {
        match parse_value(fields[from as int].rule, s) {
            Ok((v, used)) => extend(
                seq![(fields[from as int].name, v)],
                used,
                parse_fields(fields, from + 1, s.skip(used as int)),
            ),
            Err(e) => Err(e),
        }
    }
}

/// `count` values of the shape `rule`, one after another, read from the
/// front of `s`.
pub open spec fn parse_repeated(rule: RuleView, count: nat, s: Seq<u8>) -> Parsed<Seq<ValueView>>
    decreases rule, count + 1,
{
    if count == 0 {
        Ok((Seq::empty(), 0))
    } else {
        match parse_value(rule, s) {
            Ok((v, used)) => extend(
                seq![v],
                used,
                parse_repeated(rule, (count - 1) as nat, s.skip(used as int)),
            ),
            Err(e) => Err(e),
        }
    }
}

/// The arguments that a constructor with `count` arguments was given
/// when it holds `value`: none, `value` itself, or the items of the tuple
/// `value`.
pub open spec fn arguments_of(count: nat, value: ValueView) -> Seq<ValueView> {
    if count == 0 {
        Seq::empty()
    } else if count == 1 {
        seq![value]
    } else {
        match value {
            ValueView::Tuple(items) => items,
            _ => Seq::empty(),
        }
    }
}

/// Whether `value` has the shape `rule`.
///
/// A rule without a wire form of its own (a polymorphic variant, a custom
/// rule, a reference that is not resolved) is the shape of no value.
pub open spec fn conforms(rule: RuleView, value: ValueView) -> bool
    decreases rule,
{
    match rule {
        RuleView::Unit => value is Unit,
        RuleView::Bool => value is Bool,
        RuleView::Char => value is Char,
        RuleView::String => value matches ValueView::String(b) && b.len() <= usize::MAX,
        RuleView::Float => value is Float,
        RuleView::Int | RuleView::Int64 | RuleView::NativeInt => value is Int,
        RuleView::Int32 => value matches ValueView::Int(n) && i32::MIN <= n <= i32::MAX,
        RuleView::Nat0 => value is Nat0,
        RuleView::Option(inner) => value matches ValueView::Option(held) && (held matches Some(
            x,
        ) ==> conforms(*inner, *x)),
        RuleView::List(inner) => value matches ValueView::List(items) && items.len()
            <= usize::MAX && forall|i: int|
            0 <= i < items.len() ==> conforms(*inner, #[trigger] items[i]),
        RuleView::Tuple(rules) => value matches ValueView::Tuple(items) && items.len()
            == rules.len() && forall|i: int|
            0 <= i < rules.len() ==> conforms(#[trigger] rules[i], items[i]),
        RuleView::Record(fields) => value matches ValueView::Record(entries) && entries.len()
            == fields.len() && forall|i: int|
            0 <= i < fields.len() ==> entries[i].0 == (#[trigger] fields[i]).name && conforms(
                fields[i].rule,
                entries[i].1,
            ),
        RuleView::Sum(summands) => value matches ValueView::Sum { name, index, value: held }
            && index < summands.len() && name == summands[index as int].name && ({
            let args = summands[index as int].args;
            let items = arguments_of(args.len(), *held);
            &&& payload_of(items) == *held
            &&& items.len() == args.len()
            &&& forall|i: int| 0 <= i < args.len() ==> conforms(#[trigger] args[i], items[i])
        }),
        RuleView::Resolved { path, rule: inner } => conforms(*inner, value),
        _ => false,
    }
}

/// The wire form of `value` under the rule `rule`, for a value that
/// conforms to the rule.
#[verifier::opaque]
pub open spec fn value_bytes(rule: RuleView, value: ValueView) -> Seq<u8>
    decreases rule, 0nat,
{
    match rule {
        RuleView::Unit => unit_bytes(),
        RuleView::Bool => bool_bytes(value->Bool_0),
        RuleView::Char => char_bytes(value->Char_0),
        RuleView::String => bytes_bytes(value->String_0),
        RuleView::Float => float64_bytes(value->Float_0),
        RuleView::Int | RuleView::Int32 | RuleView::Int64 | RuleView::NativeInt => integer_bytes(
            value->Int_0 as int,
        ),
        RuleView::Nat0 => nat0_bytes(value->Nat0_0 as nat),
        RuleView::Option(inner) => match value->Option_0 {
            Some(x) => bool_bytes(true) + value_bytes(*inner, *x),
            None => bool_bytes(false),
        },
        RuleView::List(inner) => nat0_bytes(value->List_0.len()) + repeated_bytes(
            *inner,
            value->List_0,
            0,
        ),
        RuleView::Tuple(rules) => each_bytes(rules, value->Tuple_0, 0),
        RuleView::Record(fields) => fields_bytes(fields, value->Record_0, 0),
        RuleView::Sum(summands) => {
            let k = value->Sum_index as int;
            if k < summands.len() {
                selector_bytes(k as nat, summands.len()) + each_bytes(
                    summands[k].args,
                    arguments_of(summands[k].args.len(), *value->Sum_value),
                    0,
                )
            } else {
                Seq::empty()
            }
        },
        RuleView::Resolved { path, rule: inner } => value_bytes(*inner, value),
        _ => Seq::empty(),
    }
}

/// The wire forms of `items[from..]` under the rules `rules[from..]`, one
/// after another.
pub open spec fn each_bytes(rules: Seq<RuleView>, items: Seq<ValueView>, from: nat) -> Seq<u8>
    decreases rules, rules.len() - from,
{
    if from >= rules.len() {
        Seq::empty()
    } else {
        value_bytes(rules[from as int], items[from as int]) + each_bytes(rules, items, from + 1)
    }
}

/// The wire forms of the values of `entries[from..]` under the rules of
/// `fields[from..]`, one after another.
pub open spec fn fields_bytes(
    fields: Seq<FieldView>,
    entries: Seq<(Seq<char>, ValueView)>,
    from: nat,
) -> Seq<u8>
    decreases fields, fields.len() - from,
{
    if from >= fields.len() {
        Seq::empty()
    } else {
        value_bytes(fields[from as int].rule, entries[from as int].1) + fields_bytes(
            fields,
            entries,
            from + 1,
        )
    }
}

/// The wire forms of `items[from..]` under the rule `rule`, one after
/// another.
pub open spec fn repeated_bytes(rule: RuleView, items: Seq<ValueView>, from: nat) -> Seq<u8>
    decreases rule, items.len() - from + 1,
{
    if from >= items.len() {
        Seq::empty()
    } else {
        value_bytes(rule, items[from as int]) + repeated_bytes(rule, items, from + 1)
    }
}

/// What [`each_bytes`] is, one step at a time.
pub proof fn lemma_each_bytes_step(rules: Seq<RuleView>, items: Seq<ValueView>, from: nat)
    ensures
        each_bytes(rules, items, from) == (if from >= rules.len() {
            Seq::<u8>::empty()
        } else {
            value_bytes(rules[from as int], items[from as int]) + each_bytes(
                rules,
                items,
                from + 1,
            )
        }),
{
    reveal(value_bytes);
}

/// What [`fields_bytes`] is, one step at a time.
pub proof fn lemma_fields_bytes_step(
    fields: Seq<FieldView>,
    entries: Seq<(Seq<char>, ValueView)>,
    from: nat,
)
    ensures
        fields_bytes(fields, entries, from) == (if from >= fields.len() {
            Seq::<u8>::empty()
        } else {
            value_bytes(fields[from as int].rule, entries[from as int].1) + fields_bytes(
                fields,
                entries,
                from + 1,
            )
        }),
{
    reveal(value_bytes);
}

/// What [`repeated_bytes`] is, one step at a time.
pub proof fn lemma_repeated_bytes_step(rule: RuleView, items: Seq<ValueView>, from: nat)
    ensures
        repeated_bytes(rule, items, from) == (if from >= items.len() {
            Seq::<u8>::empty()
        } else {
            value_bytes(rule, items[from as int]) + repeated_bytes(rule, items, from + 1)
        }),
{
    reveal(value_bytes);
}

/// What [`parse_each`] is, one step at a time.
pub proof fn lemma_parse_each_step(rules: Seq<RuleView>, from: nat, s: Seq<u8>)
    ensures
        parse_each(rules, from, s) == (if from >= rules.len() {
            Ok::<(Seq<ValueView>, nat), (ErrorCode, nat)>((Seq::empty(), 0))
        } else {
            match parse_value(rules[from as int], s) {
                Ok((v, used)) => extend(
                    seq![v],
                    used,
                    parse_each(rules, from + 1, s.skip(used as int)),
                ),
                Err(e) => Err(e),
            }
        }),
{
    reveal(parse_value);
}

/// What [`parse_fields`] is, one step at a time.
pub proof fn lemma_parse_fields_step(fields: Seq<FieldView>, from: nat, s: Seq<u8>)
    ensures
        parse_fields(fields, from, s) == (if from >= fields.len() {
            Ok::<(Seq<(Seq<char>, ValueView)>, nat), (ErrorCode, nat)>((Seq::empty(), 0))
        } else {
            match parse_value(fields[from as int].rule, s) {
                Ok((v, used)) => extend(
                    seq![(fields[from as int].name, v)],
                    used,
                    parse_fields(fields, from + 1, s.skip(used as int)),
                ),
                Err(e) => Err(e),
            }
        }),
{
    reveal(parse_value);
}

/// What [`parse_repeated`] is, one step at a time.
pub proof fn lemma_parse_repeated_step(rule: RuleView, count: nat, s: Seq<u8>)
    ensures
        parse_repeated(rule, count, s) == (if count == 0 {
            Ok::<(Seq<ValueView>, nat), (ErrorCode, nat)>((Seq::empty(), 0))
        } else {
            match parse_value(rule, s) {
                Ok((v, used)) => extend(
                    seq![v],
                    used,
                    parse_repeated(rule, (count - 1) as nat, s.skip(used as int)),
                ),
                Err(e) => Err(e),
            }
        }),
{
    reveal(parse_value);
}

/// Round trip: the wire form of a value that conforms to a rule,
/// whatever follows it, is read back under that rule as the value, and the
/// reader takes exactly the bytes of the wire form.
pub proof fn lemma_value_round_trip(rule: RuleView, value: ValueView, rest: Seq<u8>)
    requires
        conforms(rule, value),
    ensures
        parse_value(rule, value_bytes(rule, value) + rest) == Ok::<
            (ValueView, nat),
            (ErrorCode, nat),
        >((value, value_bytes(rule, value).len())),
    decreases rule, 1nat,
{
    match rule {
        RuleView::Option(_) => {
            lemma_option_round_trip(rule, value, rest);
        },
        RuleView::List(_) => {
            lemma_list_round_trip(rule, value, rest);
        },
        RuleView::Tuple(rules) => {
            reveal(parse_value);
            reveal(value_bytes);
            let items = value->Tuple_0;
            lemma_each_round_trip(rules, items, 0, rest);
            assert(items.skip(0) =~= items);
        },
        RuleView::Record(fields) => {
            reveal(parse_value);
            reveal(value_bytes);
            let entries = value->Record_0;
            lemma_fields_round_trip(fields, entries, 0, rest);
            assert(entries.skip(0) =~= entries);
        },
        RuleView::Sum(_) => {
            lemma_sum_round_trip(rule, value, rest);
        },
        RuleView::Resolved { path, rule: inner } => {
            reveal(parse_value);
            reveal(value_bytes);
            lemma_value_round_trip(*inner, value, rest);
        },
        _ => {
            lemma_leaf_round_trip(rule, value, rest);
        },
    }
}

/// Round trip for the values without parts.
proof fn lemma_leaf_round_trip(rule: RuleView, value: ValueView, rest: Seq<u8>)
    requires
        conforms(rule, value),
        !(rule is Option),
        !(rule is List),
        !(rule is Tuple),
        !(rule is Record),
        !(rule is Sum),
        !(rule is Resolved),
    ensures
        parse_value(rule, value_bytes(rule, value) + rest) == Ok::<
            (ValueView, nat),
            (ErrorCode, nat),
        >((value, value_bytes(rule, value).len())),
{
    reveal(parse_value);
    reveal(value_bytes);
    match rule {
        RuleView::Unit => {
            lemma_unit_round_trip(rest);
        },
        RuleView::Bool => {
            lemma_bool_round_trip(value->Bool_0, rest);
        },
        RuleView::Char => {
            lemma_char_round_trip(value->Char_0, rest);
        },
        RuleView::String => {
            lemma_bytes_round_trip(value->String_0, rest);
        },
        RuleView::Float => {
            lemma_float64_round_trip(value->Float_0, rest);
            crate::endian::lemma_le_bytes_len(value->Float_0 as nat, 8);
        },
        RuleView::Int | RuleView::Int32 | RuleView::Int64 | RuleView::NativeInt => {
            lemma_integer_round_trip(value->Int_0, rest);
            lemma_integer_size(value->Int_0 as int);
        },
        RuleView::Nat0 => {
            lemma_nat0_round_trip(value->Nat0_0 as u64, rest);
            lemma_nat0_size(value->Nat0_0 as nat);
        },
        _ => {},
    }
}

/// Round trip for an option.
proof fn lemma_option_round_trip(rule: RuleView, value: ValueView, rest: Seq<u8>)
    requires
        conforms(rule, value),
        rule is Option,
    ensures
        parse_value(rule, value_bytes(rule, value) + rest) == Ok::<
            (ValueView, nat),
            (ErrorCode, nat),
        >((value, value_bytes(rule, value).len())),
    decreases rule, 0nat,
{
    reveal(parse_value);
    reveal(value_bytes);
    let inner = *rule->Option_0;
    let s = value_bytes(rule, value) + rest;
    match value->Option_0 {
        Some(x) => {
            let held = value_bytes(inner, *x);
            assert(s =~= bool_bytes(true) + (held + rest));
            lemma_bool_round_trip(true, held + rest);
            assert(s.skip(1) =~= held + rest);
            lemma_value_round_trip(inner, *x, rest);
        },
        None => {
            lemma_bool_round_trip(false, rest);
        },
    }
}

/// Round trip for a list.
proof fn lemma_list_round_trip(rule: RuleView, value: ValueView, rest: Seq<u8>)
    requires
        conforms(rule, value),
        rule is List,
    ensures
        parse_value(rule, value_bytes(rule, value) + rest) == Ok::<
            (ValueView, nat),
            (ErrorCode, nat),
        >((value, value_bytes(rule, value).len())),
    decreases rule, 0nat,
{
    reveal(parse_value);
    reveal(value_bytes);
    let inner = *rule->List_0;
    let s = value_bytes(rule, value) + rest;
    let items = value->List_0;
    let count = nat0_bytes(items.len());
    let body = repeated_bytes(inner, items, 0);
    assert(s =~= count + (body + rest));
    lemma_nat0_round_trip(items.len() as u64, body + rest);
    lemma_nat0_size(items.len());
    assert(s.skip(count.len() as int) =~= body + rest);
    lemma_repeated_round_trip(inner, items, 0, rest);
    assert(items.skip(0) =~= items);
}

/// Round trip for a variant of a sum.
proof fn lemma_sum_round_trip(rule: RuleView, value: ValueView, rest: Seq<u8>)
    requires
        conforms(rule, value),
        rule is Sum,
    ensures
        parse_value(rule, value_bytes(rule, value) + rest) == Ok::<
            (ValueView, nat),
            (ErrorCode, nat),
        >((value, value_bytes(rule, value).len())),
    decreases rule, 0nat,
{
    reveal(parse_value);
    reveal(value_bytes);
    let summands = rule->Sum_0;
    let s = value_bytes(rule, value) + rest;
    let k = value->Sum_index as nat;
    let held = *value->Sum_value;
    let args = summands[k as int].args;
    let items = arguments_of(args.len(), held);
    let selector = selector_bytes(k, summands.len());
    let body = each_bytes(args, items, 0);
    assert(s =~= selector + (body + rest));
    lemma_selector_round_trip(k, summands.len(), body + rest);
    crate::endian::lemma_le_bytes_len(k, crate::primitives::selector_width(summands.len()));
    assert(s.skip(selector.len() as int) =~= body + rest);
    lemma_each_round_trip(args, items, 0, rest);
    assert(items.skip(0) =~= items);
}

/// Round trip for a row of values, from the place `from` on.
pub proof fn lemma_each_round_trip(
    rules: Seq<RuleView>,
    items: Seq<ValueView>,
    from: nat,
    rest: Seq<u8>,
)
    requires
        items.len() == rules.len(),
        from <= rules.len(),
        forall|i: int| from <= i < rules.len() ==> conforms(#[trigger] rules[i], items[i]),
    ensures
        parse_each(rules, from, each_bytes(rules, items, from) + rest) == Ok::<
            (Seq<ValueView>, nat),
            (ErrorCode, nat),
        >((items.skip(from as int), each_bytes(rules, items, from).len())),
    decreases rules, rules.len() - from,
{
    let form = each_bytes(rules, items, from);
    let s = form + rest;
    lemma_each_bytes_step(rules, items, from);
    lemma_parse_each_step(rules, from, s);
    if from >= rules.len() {
        assert(items.skip(from as int) =~= Seq::<ValueView>::empty());
    } else {
        let piece = value_bytes(rules[from as int], items[from as int]);
        let tail = each_bytes(rules, items, from + 1);
        assert(s =~= piece + (tail + rest));
        lemma_value_round_trip(rules[from as int], items[from as int], tail + rest);
        assert(s.skip(piece.len() as int) =~= tail + rest);
        lemma_each_round_trip(rules, items, from + 1, rest);
        assert(seq![items[from as int]] + items.skip(from as int + 1) =~= items.skip(from as int));
    }
}

/// Round trip for the fields of a record, from the place `from` on.
pub proof fn lemma_fields_round_trip(
    fields: Seq<FieldView>,
    entries: Seq<(Seq<char>, ValueView)>,
    from: nat,
    rest: Seq<u8>,
)
    requires
        entries.len() == fields.len(),
        from <= fields.len(),
        forall|i: int|
            from <= i < fields.len() ==> entries[i].0 == (#[trigger] fields[i]).name && conforms(
                fields[i].rule,
                entries[i].1,
            ),
    ensures
        parse_fields(fields, from, fields_bytes(fields, entries, from) + rest) == Ok::<
            (Seq<(Seq<char>, ValueView)>, nat),
            (ErrorCode, nat),
        >((entries.skip(from as int), fields_bytes(fields, entries, from).len())),
    decreases fields, fields.len() - from,
{
    let form = fields_bytes(fields, entries, from);
    let s = form + rest;
    lemma_fields_bytes_step(fields, entries, from);
    lemma_parse_fields_step(fields, from, s);
    if from >= fields.len() {
        assert(entries.skip(from as int) =~= Seq::<(Seq<char>, ValueView)>::empty());
    } else {
        let piece = value_bytes(fields[from as int].rule, entries[from as int].1);
        let tail = fields_bytes(fields, entries, from + 1);
        assert(s =~= piece + (tail + rest));
        lemma_value_round_trip(fields[from as int].rule, entries[from as int].1, tail + rest);
        assert(s.skip(piece.len() as int) =~= tail + rest);
        lemma_fields_round_trip(fields, entries, from + 1, rest);
        assert(entries[from as int] == (fields[from as int].name, entries[from as int].1));
        assert(seq![entries[from as int]] + entries.skip(from as int + 1) =~= entries.skip(
            from as int,
        ));
    }
}

/// Round trip for the items of a list, from the place `from` on.
pub proof fn lemma_repeated_round_trip(
    rule: RuleView,
    items: Seq<ValueView>,
    from: nat,
    rest: Seq<u8>,
)
    requires
        from <= items.len(),
        forall|i: int| 0 <= i < items.len() ==> conforms(rule, #[trigger] items[i]),
    ensures
        parse_repeated(
            rule,
            (items.len() - from) as nat,
            repeated_bytes(rule, items, from) + rest,
        ) == Ok::<(Seq<ValueView>, nat), (ErrorCode, nat)>(
            (items.skip(from as int), repeated_bytes(rule, items, from).len()),
        ),
    decreases rule, items.len() - from + 1,
{
    let form = repeated_bytes(rule, items, from);
    let s = form + rest;
    lemma_repeated_bytes_step(rule, items, from);
    lemma_parse_repeated_step(rule, (items.len() - from) as nat, s);
    if from >= items.len() {
        assert(items.skip(from as int) =~= Seq::<ValueView>::empty());
    } else {
        let piece = value_bytes(rule, items[from as int]);
        let tail = repeated_bytes(rule, items, from + 1);
        assert(s =~= piece + (tail + rest));
        lemma_value_round_trip(rule, items[from as int], tail + rest);
        assert(s.skip(piece.len() as int) =~= tail + rest);
        lemma_repeated_round_trip(rule, items, from + 1, rest);
        assert(seq![items[from as int]] + items.skip(from as int + 1) =~= items.skip(from as int));
    }
}

/// The selector decides the variant: under a sum, a stream that reads as
/// a value reads as the variant whose index the selector holds, with that
/// variant's name; for a sum of up to 256 variants the selector is the
/// first byte of the stream.
pub proof fn lemma_selector_decides_variant(summands: Seq<SummandView>, s: Seq<u8>)
    ensures
        match parse_value(RuleView::Sum(summands), s) {
            Ok((v, _)) => parse_selector(s, summands.len()) matches Ok((k, _)) && v matches ValueView::Sum {
                name,
                index,
                value,
            } && index == k && k < summands.len() && name == summands[k as int].name && (
            summands.len() <= 0x100 ==> s.len() >= 1 && k == s[0]),
            Err(_) => true,
        },
{
    reveal(parse_value);
    if summands.len() <= 0x100 && s.len() >= 1 {
        assert(s.take(1).skip(1) =~= Seq::<u8>::empty());
        reveal_with_fuel(crate::endian::le_value, 2);
    }
}

} // verus!
