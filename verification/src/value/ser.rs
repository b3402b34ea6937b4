//! Writing a value in the shape that a layout gives it.

use crate::error::{Error, ErrorCode};
use crate::integers::append_bytes;
use crate::ser::Serializer;
use crate::value::layout::{
    field_views, rule_views, summand_views, BinProtRule, RecordField, RuleRef, RuleView, Summand,
};
use crate::value::wire::{
    arguments_of, conforms, each_bytes, fields_bytes, lemma_each_bytes_step,
    lemma_fields_bytes_step, lemma_repeated_bytes_step, payload_of, repeated_bytes, value_bytes,
};
use crate::value::{entry_views, value_views, Value, ValueView};
use vstd::prelude::*;

verus! {

/// Appends the wire form of `value` under `rule`, and says whether `value`
/// has the shape of `rule`. When it has not, what was appended is of no
/// use.
fn encode_value(ser: &mut Serializer, value: &Value, rule: &BinProtRule) -> (ok: bool)
    ensures
        ok == conforms(rule@, value@),
        ok ==> final(ser)@ == old(ser)@ + value_bytes(rule@, value@),
    decreases rule@, 0nat,
{
    proof {
        reveal(value_bytes);
    }
    match rule {
        BinProtRule::Unit => match value {
            Value::Unit => {
                let _ = ser.serialize_unit();
                true
            },
            _ => false,
        },
        BinProtRule::Bool => match value {
            Value::Bool(b) => {
                let _ = ser.serialize_bool(*b);
                true
            },
            _ => false,
        },
        BinProtRule::Char => match value {
            Value::Char(c) => {
                let _ = ser.serialize_char(*c);
                true
            },
            _ => false,
        },
        BinProtRule::String => match value {
            Value::String(bytes) => {
                let len: usize = bytes.len();
                let _ = ser.serialize_bytes(bytes.as_slice());
                assert(conforms(rule@, value@));
                true
            },
            _ => false,
        },
        BinProtRule::Float => match value {
            Value::Float(bits) => {
                let _ = ser.serialize_f64(*bits);
                true
            },
            _ => false,
        },
        BinProtRule::Int | BinProtRule::Int64 | BinProtRule::NativeInt => match value {
            Value::Int(n) => {
                let _ = ser.serialize_i64(*n);
                true
            },
            _ => false,
        },
        BinProtRule::Int32 => match value {
            Value::Int(n) => {
                if -0x8000_0000 <= *n && *n <= 0x7fff_ffff {
                    let _ = ser.serialize_i64(*n);
                    true
                } else {
                    false
                }
            },
            _ => false,
        },
        BinProtRule::Nat0 => match value {
            Value::Nat0(n) => {
                let _ = ser.serialize_seq(*n as usize);
                true
            },
            _ => false,
        },
        BinProtRule::Option(inner) => match value {
            Value::Option(None) => {
                let _ = ser.serialize_none();
                true
            },
            Value::Option(Some(held)) => {
                let _ = ser.serialize_some();
                assert(*(rule@->Option_0) == (**inner)@);
                assert(decreases_to!(rule@ => rule@->Option_0));
                assert(decreases_to!(rule@ => (**inner)@));
                let ok = encode_value(ser, &**held, &**inner);
                proof {
                    if ok {
                        assert(ser@ =~= old(ser)@ + value_bytes(rule@, value@));
                    }
                }
                assert(ok == conforms(rule@, value@));
                ok
            },
            _ => false,
        },
        BinProtRule::List(inner) => match value {
            Value::List(items) => {
                let _ = ser.serialize_seq(items.len());
                assert(decreases_to!(rule@ => rule@->List_0));
                let ok = encode_repeated(ser, items, &**inner);
                proof {
                    if ok {
                        assert(ser@ =~= old(ser)@ + value_bytes(rule@, value@));
                    }
                }
                assert(ok == conforms(rule@, value@));
                ok
            },
            _ => false,
        },
        BinProtRule::Tuple(rules) => match value {
            Value::Tuple(items) => {
                assert(decreases_to!(rule@ => rule@->Tuple_0));
                let ok = encode_each(ser, items, rules);
                proof {
                    let shapes = rule_views(rules@);
                    let values = value_views(items@);
                    assert(rule@ == RuleView::Tuple(shapes));
                    assert(value@ == ValueView::Tuple(values));
                    if ok {
                        assert forall|i: int| 0 <= i < shapes.len() implies conforms(
                            #[trigger] shapes[i],
                            values[i],
                        ) by {}
                        assert(conforms(rule@, value@));
                    }
                    if conforms(rule@, value@) {
                        assert forall|i: int| 0 <= i < shapes.len() implies conforms(
                            #[trigger] shapes[i],
                            values[i],
                        ) by {}
                        assert(ok);
                    }
                }
                ok
            },
            _ => false,
        },
        BinProtRule::Record(fields) => match value {
            Value::Record(entries) => {
                assert(decreases_to!(rule@ => rule@->Record_0));
                let ok = encode_fields(ser, entries, fields);
                proof {
                    let shapes = field_views(fields@);
                    let values = entry_views(entries@);
                    assert(rule@ == RuleView::Record(shapes));
                    assert(value@ == ValueView::Record(values));
                    if ok {
                        assert forall|i: int| 0 <= i < shapes.len() implies values[i].0 == (
                        #[trigger] shapes[i]).name && conforms(shapes[i].rule, values[i].1) by {}
                        assert(conforms(rule@, value@));
                    }
                    if conforms(rule@, value@) {
                        assert forall|i: int| 0 <= i < shapes.len() implies values[i].0 == (
                        #[trigger] shapes[i]).name && conforms(shapes[i].rule, values[i].1) by {}
                        assert(ok);
                    }
                }
                ok
            },
            _ => false,
        },
        BinProtRule::Sum(summands) => match value {
            Value::Sum { name, index, value: held } => {
                assert(decreases_to!(rule@ => rule@->Sum_0));
                let ok = encode_variant(ser, name, *index, &**held, summands);
                assert(ok == conforms(rule@, value@));
                ok
            },
            _ => false,
        },
        BinProtRule::Reference(RuleRef::Resolved(r)) => {
            assert(decreases_to!(rule@ => rule@->Resolved_rule));
            let ok = encode_value(ser, value, &*r.ref_rule);
            assert(ok == conforms(rule@, value@));
            ok
        },
        _ => false,
    }
}

/// Appends the wire forms of `items` under `rules`, one after another,
/// and says whether there is one item of the right shape for each rule.
fn encode_each(ser: &mut Serializer, items: &Vec<Value>, rules: &Vec<BinProtRule>) -> (ok: bool)
    ensures
        ok == (items.len() == rules.len() && forall|i: int|
            0 <= i < rules.len() ==> conforms(
                #[trigger] rule_views(rules@)[i],
                value_views(items@)[i],
            )),
        ok ==> final(ser)@ == old(ser)@ + each_bytes(rule_views(rules@), value_views(items@), 0),
    decreases rule_views(rules@), 1nat,
{
    let n: usize = rules.len();
    if items.len() != n {
        return false;
    }
    let ghost shapes = rule_views(rules@);
    let ghost values = value_views(items@);
    let mut i: usize = 0;
    assert(ser@ + each_bytes(shapes, values, 0) =~= old(ser)@ + each_bytes(shapes, values, 0));
    while i < n
        invariant
            i <= n,
            n == rules.len(),
            n == items.len(),
            shapes == rule_views(rules@),
            values == value_views(items@),
            forall|j: int| 0 <= j < i ==> conforms(#[trigger] shapes[j], values[j]),
            ser@ + each_bytes(shapes, values, i as nat) == old(ser)@ + each_bytes(
                shapes,
                values,
                0,
            ),
        decreases n - i,
    {
        let ghost before = ser@;
        proof {
            lemma_each_bytes_step(shapes, values, i as nat);
        }
        if !encode_value(ser, &items[i], &rules[i]) {
            assert(!conforms(shapes[i as int], values[i as int]));
            return false;
        }
        proof {
            let piece = value_bytes(shapes[i as int], values[i as int]);
            let tail = each_bytes(shapes, values, (i + 1) as nat);
            assert((before + piece) + tail =~= before + (piece + tail));
        }
        i = i + 1;
    }
    proof {
        lemma_each_bytes_step(shapes, values, n as nat);
        assert(ser@ + Seq::<u8>::empty() =~= ser@);
    }
    true
}

/// Appends the wire forms of the values of `entries` under the rules of
/// `fields`, one after another, and says whether there is one entry of
/// the right name and shape for each field.
fn encode_fields(
    ser: &mut Serializer,
    entries: &Vec<(String, Value)>,
    fields: &Vec<RecordField>,
) -> (ok: bool)
    ensures
        ok == (entries.len() == fields.len() && forall|i: int|
            0 <= i < fields.len() ==> entry_views(entries@)[i].0 == (#[trigger] field_views(
                fields@,
            )[i]).name && conforms(field_views(fields@)[i].rule, entry_views(entries@)[i].1)),
        ok ==> final(ser)@ == old(ser)@ + fields_bytes(
            field_views(fields@),
            entry_views(entries@),
            0,
        ),
    decreases field_views(fields@), 1nat,
{
    let n: usize = fields.len();
    if entries.len() != n {
        return false;
    }
    let ghost shapes = field_views(fields@);
    let ghost values = entry_views(entries@);
    let mut i: usize = 0;
    assert(ser@ + fields_bytes(shapes, values, 0) =~= old(ser)@ + fields_bytes(shapes, values, 0));
    while i < n
        invariant
            i <= n,
            n == fields.len(),
            n == entries.len(),
            shapes == field_views(fields@),
            values == entry_views(entries@),
            forall|j: int|
                0 <= j < i ==> values[j].0 == (#[trigger] shapes[j]).name && conforms(
                    shapes[j].rule,
                    values[j].1,
                ),
            ser@ + fields_bytes(shapes, values, i as nat) == old(ser)@ + fields_bytes(
                shapes,
                values,
                0,
            ),
        decreases n - i,
    {
        let ghost before = ser@;
        proof {
            lemma_fields_bytes_step(shapes, values, i as nat);
        }
        let entry: &(String, Value) = &entries[i];
        let field: &RecordField = &fields[i];
        if !(entry.0 == field.field_name) {
            assert(values[i as int].0 != shapes[i as int].name);
            return false;
        }
        if !encode_value(ser, &entry.1, &field.field_rule) {
            assert(!conforms(shapes[i as int].rule, values[i as int].1));
            return false;
        }
        proof {
            let piece = value_bytes(shapes[i as int].rule, values[i as int].1);
            let tail = fields_bytes(shapes, values, (i + 1) as nat);
            assert((before + piece) + tail =~= before + (piece + tail));
        }
        i = i + 1;
    }
    proof {
        lemma_fields_bytes_step(shapes, values, n as nat);
        assert(ser@ + Seq::<u8>::empty() =~= ser@);
    }
    true
}

/// Appends the wire forms of `items` under `rule`, one after another, and
/// says whether every item has the shape of `rule`.
fn encode_repeated(ser: &mut Serializer, items: &Vec<Value>, rule: &BinProtRule) -> (ok: bool)
    ensures
        ok == (forall|i: int|
            0 <= i < items.len() ==> conforms(rule@, #[trigger] value_views(items@)[i])),
        ok ==> final(ser)@ == old(ser)@ + repeated_bytes(rule@, value_views(items@), 0),
    decreases rule@, 1nat,
{
    let n: usize = items.len();
    let ghost values = value_views(items@);
    let mut i: usize = 0;
    assert(ser@ + repeated_bytes(rule@, values, 0) =~= old(ser)@ + repeated_bytes(
        rule@,
        values,
        0,
    ));
    while i < n
        invariant
            i <= n,
            n == items.len(),
            values == value_views(items@),
            forall|j: int| 0 <= j < i ==> conforms(rule@, #[trigger] values[j]),
            ser@ + repeated_bytes(rule@, values, i as nat) == old(ser)@ + repeated_bytes(
                rule@,
                values,
                0,
            ),
        decreases n - i,
    {
        let ghost before = ser@;
        proof {
            lemma_repeated_bytes_step(rule@, values, i as nat);
        }
        if !encode_value(ser, &items[i], rule) {
            assert(!conforms(rule@, values[i as int]));
            return false;
        }
        proof {
            let piece = value_bytes(rule@, values[i as int]);
            let tail = repeated_bytes(rule@, values, (i + 1) as nat);
            assert((before + piece) + tail =~= before + (piece + tail));
        }
        i = i + 1;
    }
    proof {
        lemma_repeated_bytes_step(rule@, values, n as nat);
        assert(ser@ + Seq::<u8>::empty() =~= ser@);
    }
    true
}

/// Appends the wire form of a variant of a sum: the selector, and the
/// arguments that the variant holds. Says whether the sum has such a
/// variant.
fn encode_variant(
    ser: &mut Serializer,
    name: &String,
    index: u16,
    held: &Value,
    summands: &Vec<Summand>,
) -> (ok: bool)
    ensures
        ok == conforms(
            RuleView::Sum(summand_views(summands@)),
            ValueView::Sum { name: name@, index, value: Box::new(held@) },
        ),
        ok ==> final(ser)@ == old(ser)@ + value_bytes(
            RuleView::Sum(summand_views(summands@)),
            ValueView::Sum { name: name@, index, value: Box::new(held@) },
        ),
    decreases summand_views(summands@), 2nat,
{
    proof {
        reveal(value_bytes);
    }
    if index as usize >= summands.len() {
        return false;
    }
    let summand: &Summand = &summands[index as usize];
    let ghost args = summand_views(summands@)[index as int].args;
    assert(args == rule_views(summand.ctor_args@));
    if !(*name == summand.ctor_name) {
        return false;
    }
    let selected = ser.serialize_unit_variant(index as u32, summands.len());
    let count: usize = summand.ctor_args.len();
    let ghost shape = RuleView::Sum(summand_views(summands@));
    let ghost whole = ValueView::Sum { name: name@, index, value: Box::new(held@) };
    let ghost given = arguments_of(args.len(), held@);
    assert(conforms(shape, whole) == (payload_of(given) == held@ && given.len() == args.len()
        && forall|i: int| 0 <= i < args.len() ==> conforms(#[trigger] args[i], given[i])));
    if count == 0 {
        proof {
            lemma_each_bytes_step(args, arguments_of(0, held@), 0);
            assert(ser@ + Seq::<u8>::empty() =~= ser@);
        }
        match held {
            Value::Unit => true,
            _ => false,
        }
    } else if count == 1 {
        proof {
            let items = arguments_of(1, held@);
            lemma_each_bytes_step(args, items, 0);
            lemma_each_bytes_step(args, items, 1);
            assert(value_bytes(args[0], held@) + Seq::<u8>::empty() =~= value_bytes(
                args[0],
                held@,
            ));
        }
        assert(decreases_to!(summand_views(summands@) => summand_views(summands@)[index as int]));
        assert(decreases_to!(args => args[0]));
        let ok = encode_value(ser, held, &summand.ctor_args[0]);
        assert(ok == conforms(args[0], given[0]));
        proof {
            if ok {
                assert(ser@ =~= old(ser)@ + value_bytes(
                    RuleView::Sum(summand_views(summands@)),
                    ValueView::Sum { name: name@, index, value: Box::new(held@) },
                ));
            }
        }
        ok
    } else {
        match held {
            Value::Tuple(items) => {
                assert(decreases_to!(summand_views(summands@) => summand_views(
                    summands@,
                )[index as int]));
                assert(given == value_views(items@));
                let ok = encode_each(ser, items, &summand.ctor_args);
                proof {
                    if ok {
                        assert(ser@ =~= old(ser)@ + value_bytes(
                            RuleView::Sum(summand_views(summands@)),
                            ValueView::Sum { name: name@, index, value: Box::new(held@) },
                        ));
                    }
                }
                ok
            },
            _ => false,
        }
    }
}

/// Appends to `writer` the wire form of `value` in the shape `layout`.
/// A value that has not that shape is refused, and nothing is written.
pub fn to_writer(writer: &mut Vec<u8>, value: &Value, layout: &BinProtRule) -> (r: Result<
    (),
    Error,
>)
    ensures
        conforms(layout@, value@) ==> r == Ok::<(), Error>(()) && final(writer)@ == old(writer)@
            + value_bytes(layout@, value@),
        !conforms(layout@, value@) ==> r == Err::<(), Error>(
            Error::Syntax(ErrorCode::LayoutMismatch),
        ) && final(writer)@ == old(writer)@,
{
    let mut ser = Serializer::new(Vec::new());
    if encode_value(&mut ser, value, layout) {
        let bytes = ser.into_inner();
        assert(bytes@ =~= value_bytes(layout@, value@));
        append_bytes(writer, bytes.as_slice());
        Ok(())
    } else {
        Err(Error::Syntax(ErrorCode::LayoutMismatch))
    }
}

} // verus!
