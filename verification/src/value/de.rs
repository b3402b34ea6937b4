//! Reading a value under the guidance of a layout.
//!
//! The layout is walked by its branching iterator while the stream is
//! read: each rule that the walk yields says what to read next, and each
//! selector read from the stream says which branch the walk takes.

use crate::de::Deserializer;
use crate::error::{Error, ErrorCode};
use crate::integers::Parsed;
use crate::narrow::u32_from_u64;
use crate::primitives::lemma_parse_char_errors;
use crate::read_ext::ReadBinProtExt;
use crate::value::layout::traverse::{
    field_rules, lemma_resolve_is_final, lemma_resolve_within, parts, resolve, BinProtRuleIterator,
    BranchingIterator,
};
use crate::value::layout::{
    field_views, rule_views, summand_views, BinProtRule, RecordField, RuleView, Summand,
};
use crate::value::wire::{
    extend, lemma_parse_each_step, lemma_parse_fields_step, lemma_parse_repeated_step, parse_each,
    parse_fields, parse_repeated, parse_value,
};
use crate::value::visitor::ValueVisitor;
use crate::value::{entry_views, value_views, Value, ValueView};
use vstd::prelude::*;

verus! {

/// The error of a read that fails with `code` at the position `pos`: a
/// fault of the layout has no position, a fault of the stream has.
pub open spec fn error_of(code: ErrorCode, pos: nat) -> Error {
    if code is UnresolvedReference || code is UnsupportedRule {
        Error::Syntax(code)
    } else {
        Error::Eval(code, pos as usize)
    }
}

/// What holds when a read of a value that parses as `parsed` has returned
/// `r` and has made `after` of `before`.
pub open spec fn decoded(
    before: &Deserializer<'_>,
    after: &Deserializer<'_>,
    parsed: Parsed<ValueView>,
    r: Result<Value, Error>,
) -> bool {
    match parsed {
        Ok((v, used)) => (r matches Ok(x) && x@ == v) && after.advanced(before, used),
        Err((code, at)) => r == Err::<Value, Error>(error_of(code, before.spec_position() + at))
            && after.advanced(before, at),
    }
}

/// A reference reads as the rule that it stands for.
pub proof fn lemma_parse_resolved(rule: RuleView, s: Seq<u8>)
    ensures
        parse_value(rule, s) == parse_value(resolve(rule), s),
    decreases rule,
{
    reveal(parse_value);
    match rule {
        RuleView::Resolved { path, rule: inner } => {
            lemma_parse_resolved(*inner, s);
        },
        _ => {},
    }
}

/// Reads the value whose rule is on top of the walk's stack.
fn decode_next(de: &mut Deserializer<'_>, it: &mut BinProtRuleIterator) -> (r: Result<
    Value,
    Error,
>)
    requires
        old(it)@.branch is None,
        old(it)@.stack.len() > 0,
    ensures
        decoded(
            old(de),
            final(de),
            parse_value(old(it)@.stack.last(), old(de).remaining()),
            r,
        ),
        r is Ok ==> final(it)@.stack == old(it)@.stack.drop_last() && final(it)@.branch is None,
    decreases old(it)@.stack.last(), 0nat,
{
    let ghost top = it@.stack.last();
    let ghost rest = it@.stack.drop_last();
    let ghost s = de.remaining();
    proof {
        reveal(parse_value);
        use_type_invariant(&*de);
        de.lemma_within();
        lemma_resolve_within(top);
        lemma_resolve_is_final(top);
        lemma_parse_resolved(top, s);
    }
    let node = match it.next() {
        Ok(Some(node)) => node,
        Ok(None) => {
            return Err(Error::Syntax(ErrorCode::LayoutExhausted));
        },
        Err(e) => {
            return Err(e);
        },
    };
    match node {
        BinProtRule::Option(inner) => {
            assert(it@.stack =~= rest.push(inner@));
            decode_option(de, it, Ghost(inner@), Ghost(rest))
        },
        BinProtRule::List(element) => {
            assert(it@.stack =~= rest.push(element@));
            decode_list(de, it, &*element, Ghost(rest))
        },
        BinProtRule::Tuple(rules) => {
            match decode_each(de, it, rules.len(), Ghost(rule_views(rules@)), Ghost(rest)) {
                Ok(items) => Ok(ValueVisitor.visit_seq(items)),
                Err(e) => Err(e),
            }
        },
        BinProtRule::Record(fields) => {
            match decode_fields(de, it, &fields, Ghost(rest)) {
                Ok(entries) => Ok(ValueVisitor.visit_map(entries)),
                Err(e) => Err(e),
            }
        },
        BinProtRule::Sum(summands) => decode_sum(de, it, &summands, Ghost(rest)),
        other => decode_leaf(de, &other),
    }
}

/// Reads a value that has no parts. A rule without a wire form of its
/// own is refused.
fn decode_leaf(de: &mut Deserializer<'_>, rule: &BinProtRule) -> (r: Result<Value, Error>)
    requires
        match rule@ {
            RuleView::Option(_) => false,
            RuleView::List(_) => false,
            RuleView::Tuple(_) => false,
            RuleView::Record(_) => false,
            RuleView::Sum(_) => false,
            RuleView::Resolved { .. } => false,
            RuleView::Unresolved(_) => false,
            _ => true,
        },
    ensures
        decoded(old(de), final(de), parse_value(rule@, old(de).remaining()), r),
{
    proof {
        reveal(parse_value);
        use_type_invariant(&*de);
        de.lemma_within();
        lemma_parse_char_errors(de.remaining());
    }
    match rule {
        BinProtRule::Unit => {
            de.deserialize_unit()?;
            Ok(ValueVisitor.visit_unit())
        },
        BinProtRule::Bool => {
            let b: bool = de.deserialize_bool()?;
            Ok(ValueVisitor.visit_bool(b))
        },
        BinProtRule::Char => {
            let c: char = de.deserialize_char()?;
            Ok(ValueVisitor.visit_char(c))
        },
        BinProtRule::String => {
            let bytes = de.deserialize_bytes()?;
            Ok(ValueVisitor.visit_string(bytes))
        },
        BinProtRule::Float => {
            let bits: u64 = de.deserialize_f64()?;
            Ok(ValueVisitor.visit_f64(bits))
        },
        BinProtRule::Int | BinProtRule::Int64 | BinProtRule::NativeInt => {
            let n: i64 = de.deserialize_i64()?;
            Ok(ValueVisitor.visit_i64(n))
        },
        BinProtRule::Int32 => {
            let n: i32 = de.deserialize_i32()?;
            Ok(ValueVisitor.visit_i64(n as i64))
        },
        BinProtRule::Nat0 => {
            let n: u64 = de.bin_read_nat0()?;
            match u32_from_u64(n) {
                Some(x) => Ok(Value::Nat0(x)),
                None => de.error(ErrorCode::IntegerSizeMismatch),
            }
        },
        _ => Err(Error::Syntax(ErrorCode::UnsupportedRule)),
    }
}

/// Reads an option whose part is on top of the walk's stack: the tag,
/// and the value if the tag announces one.
fn decode_option(
    de: &mut Deserializer<'_>,
    it: &mut BinProtRuleIterator,
    Ghost(inner): Ghost<RuleView>,
    Ghost(rest): Ghost<Seq<RuleView>>,
) -> (r: Result<Value, Error>)
    requires
        old(it)@.branch is None,
        old(it)@.stack == rest.push(inner),
    ensures
        decoded(
            old(de),
            final(de),
            parse_value(RuleView::Option(Box::new(inner)), old(de).remaining()),
            r,
        ),
        r is Ok ==> final(it)@.stack == rest && final(it)@.branch is None,
    decreases inner, 1nat,
{
    let ghost s = de.remaining();
    proof {
        reveal(parse_value);
        use_type_invariant(&*de);
        de.lemma_within();
    }
    assert(it@.stack.drop_last() =~= rest);
    let present: bool = de.deserialize_option()?;
    if present {
        assert(de.remaining() =~= s.skip(1));
        match decode_next(de, it) {
            Ok(value) => Ok(ValueVisitor.visit_some(value)),
            Err(e) => Err(e),
        }
    } else {
        it.skip()?;
        Ok(ValueVisitor.visit_none())
    }
}

/// Reads a list whose part is on top of the walk's stack: the count, and
/// as many values.
fn decode_list(
    de: &mut Deserializer<'_>,
    it: &mut BinProtRuleIterator,
    element: &BinProtRule,
    Ghost(rest): Ghost<Seq<RuleView>>,
) -> (r: Result<Value, Error>)
    requires
        old(it)@.branch is None,
        old(it)@.stack == rest.push(element@),
    ensures
        decoded(
            old(de),
            final(de),
            parse_value(RuleView::List(Box::new(element@)), old(de).remaining()),
            r,
        ),
        r is Ok ==> final(it)@.stack == rest && final(it)@.branch is None,
    decreases element@, 2nat,
{
    let ghost s = de.remaining();
    let ghost de0 = *de;
    proof {
        reveal(parse_value);
        use_type_invariant(&*de);
        de.lemma_within();
    }
    it.skip()?;
    assert(it@.stack =~= rest);
    let count: usize = de.deserialize_seq()?;
    let ghost used = (de.spec_position() - de0.spec_position()) as nat;
    assert(de.remaining() =~= s.skip(used as int));
    match decode_repeated(de, it, element, count) {
        Ok(items) => Ok(Value::List(items)),
        Err(e) => Err(e),
    }
}

/// Reads a variant of the sum at which the walk has stopped: the
/// selector, and the arguments of the variant that it selects.
fn decode_sum(
    de: &mut Deserializer<'_>,
    it: &mut BinProtRuleIterator,
    summands: &Vec<Summand>,
    Ghost(rest): Ghost<Seq<RuleView>>,
) -> (r: Result<Value, Error>)
    requires
        old(it)@.branch == Some(summand_views(summands@)),
        old(it)@.stack == rest,
    ensures
        decoded(
            old(de),
            final(de),
            parse_value(RuleView::Sum(summand_views(summands@)), old(de).remaining()),
            r,
        ),
        r is Ok ==> final(it)@.stack == rest && final(it)@.branch is None,
    decreases summand_views(summands@), 2nat,
{
    let ghost s = de.remaining();
    let ghost de0 = *de;
    let ghost offered = summand_views(summands@);
    proof {
        reveal(parse_value);
        use_type_invariant(&*de);
        de.lemma_within();
    }
    let k: u16 = de.deserialize_variant_index(summands.len())?;
    let ghost used = (de.spec_position() - de0.spec_position()) as nat;
    assert(de.remaining() =~= s.skip(used as int));
    it.branch(k as usize)?;
    let summand: &Summand = &summands[k as usize];
    let ghost args = offered[k as int].args;
    assert(args == rule_views(summand.ctor_args@));
    let mut items = match decode_each(de, it, summand.ctor_args.len(), Ghost(args), Ghost(rest)) {
        Ok(items) => items,
        Err(e) => {
            return Err(e);
        },
    };
    let ghost payload = value_views(items@);
    let value = if items.len() == 0 {
        Value::Unit
    } else if items.len() == 1 {
        let only = items.pop().unwrap();
        assert(only@ == payload[0]);
        only
    } else {
        Value::Tuple(items)
    };
    Ok(ValueVisitor.visit_enum(summand.ctor_name.clone(), k, value))
}

/// Reads the values whose rules are on top of the walk's stack: those of
/// `rules`, the first on top.
fn decode_each(
    de: &mut Deserializer<'_>,
    it: &mut BinProtRuleIterator,
    count: usize,
    Ghost(rules): Ghost<Seq<RuleView>>,
    Ghost(rest): Ghost<Seq<RuleView>>,
) -> (r: Result<Vec<Value>, Error>)
    requires
        old(it)@.branch is None,
        old(it)@.stack == rest + rules.reverse(),
        count == rules.len(),
    ensures
        match parse_each(rules, 0, old(de).remaining()) {
            Ok((items, used)) => (r matches Ok(v) && value_views(v@) == items) && final(de).advanced(old(de), used) && final(it)@.stack == rest && final(it)@.branch is None,
            Err((code, at)) => r == Err::<Vec<Value>, Error>(
                error_of(code, old(de).spec_position() + at),
            ) && final(de).advanced(old(de), at),
        },
    decreases rules, 1nat,
{
    let ghost de0 = *de;
    let ghost s = de.remaining();
    let ghost total = parse_each(rules, 0, s);
    proof {
        use_type_invariant(&*de);
        de.lemma_within();
    }
    let mut items: Vec<Value> = Vec::new();
    let mut i: usize = 0;
    assert(s.skip(0) =~= s);
    assert(value_views(items@) =~= Seq::<ValueView>::empty());
    assert(rules.skip(0) =~= rules);
    while i < count
        invariant
            i <= count,
            count == rules.len(),
            items.len() == i,
            it@.branch is None,
            it@.stack == rest + rules.skip(i as int).reverse(),
            de0 == *old(de),
            s == de0.remaining(),
            total == parse_each(rules, 0, s),
            de.spec_position() >= de0.spec_position(),
            de.advanced(&de0, (de.spec_position() - de0.spec_position()) as nat),
            total == extend(
                value_views(items@),
                (de.spec_position() - de0.spec_position()) as nat,
                parse_each(rules, i as nat, de.remaining()),
            ),
        decreases count - i,
    {
        let ghost done = value_views(items@);
        let ghost de1 = *de;
        proof {
            let upper = rules.skip(i as int).reverse();
            assert(upper.len() == count - i);
            assert(it@.stack.last() == upper.last());
            assert(upper.last() == rules[i as int]);
            assert(it@.stack.drop_last() =~= rest + rules.skip(i as int + 1).reverse());
            lemma_parse_each_step(rules, i as nat, de.remaining());
        }
        let item = match decode_next(de, it) {
            Ok(item) => item,
            Err(e) => {
                return Err(e);
            },
        };
        items.push(item);
        i = i + 1;
        proof {
            let u = (de.spec_position() - de1.spec_position()) as nat;
            assert(value_views(items@) =~= done + seq![item@]);
            assert(de.remaining() =~= de1.remaining().skip(u as int));
            let tail = parse_each(rules, i as nat, de.remaining());
            match tail {
                Ok((more, w)) => {
                    assert((done + seq![item@]) + more =~= done + (seq![item@] + more));
                },
                Err(_) => {},
            }
        }
    }
    proof {
        lemma_parse_each_step(rules, count as nat, de.remaining());
    }
    assert(rules.skip(count as int).reverse() =~= Seq::<RuleView>::empty());
    assert(it@.stack =~= rest);
    assert(value_views(items@) + Seq::<ValueView>::empty() =~= value_views(items@));
    Ok(items)
}

/// Reads the values of the fields of a record, whose rules are on top of
/// the walk's stack, the first on top.
fn decode_fields(
    de: &mut Deserializer<'_>,
    it: &mut BinProtRuleIterator,
    fields: &Vec<RecordField>,
    Ghost(rest): Ghost<Seq<RuleView>>,
) -> (r: Result<Vec<(String, Value)>, Error>)
    requires
        old(it)@.branch is None,
        old(it)@.stack == rest + field_rules(field_views(fields@)).reverse(),
    ensures
        match parse_fields(field_views(fields@), 0, old(de).remaining()) {
            Ok((entries, used)) => (r matches Ok(v) && entry_views(v@) == entries) && final(de).advanced(old(de), used) && final(it)@.stack == rest && final(it)@.branch is None,
            Err((code, at)) => r == Err::<Vec<(String, Value)>, Error>(
                error_of(code, old(de).spec_position() + at),
            ) && final(de).advanced(old(de), at),
        },
    decreases field_views(fields@), 1nat,
{
    let ghost de0 = *de;
    let ghost s = de.remaining();
    let ghost shapes = field_views(fields@);
    let ghost rules = field_rules(shapes);
    let ghost total = parse_fields(shapes, 0, s);
    proof {
        use_type_invariant(&*de);
        de.lemma_within();
    }
    let count: usize = fields.len();
    let mut entries: Vec<(String, Value)> = Vec::new();
    let mut i: usize = 0;
    assert(s.skip(0) =~= s);
    assert(entry_views(entries@) =~= Seq::<(Seq<char>, ValueView)>::empty());
    assert(rules.skip(0) =~= rules);
    while i < count
        invariant
            i <= count,
            count == fields.len(),
            count == rules.len(),
            shapes == field_views(fields@),
            rules == field_rules(shapes),
            entries.len() == i,
            it@.branch is None,
            it@.stack == rest + rules.skip(i as int).reverse(),
            de0 == *old(de),
            s == de0.remaining(),
            total == parse_fields(shapes, 0, s),
            de.spec_position() >= de0.spec_position(),
            de.advanced(&de0, (de.spec_position() - de0.spec_position()) as nat),
            total == extend(
                entry_views(entries@),
                (de.spec_position() - de0.spec_position()) as nat,
                parse_fields(shapes, i as nat, de.remaining()),
            ),
        decreases count - i,
    {
        let ghost done = entry_views(entries@);
        let ghost de1 = *de;
        proof {
            let upper = rules.skip(i as int).reverse();
            assert(upper.len() == count - i);
            assert(it@.stack.last() == upper.last());
            assert(upper.last() == rules[i as int]);
            assert(rules[i as int] == shapes[i as int].rule);
            assert(it@.stack.drop_last() =~= rest + rules.skip(i as int + 1).reverse());
            lemma_parse_fields_step(shapes, i as nat, de.remaining());
        }
        let value = match decode_next(de, it) {
            Ok(value) => value,
            Err(e) => {
                return Err(e);
            },
        };
        let name = fields[i].field_name.clone();
        let ghost entry = (name@, value@);
        entries.push((name, value));
        i = i + 1;
        proof {
            let u = (de.spec_position() - de1.spec_position()) as nat;
            assert(entry_views(entries@) =~= done + seq![entry]);
            assert(de.remaining() =~= de1.remaining().skip(u as int));
            let tail = parse_fields(shapes, i as nat, de.remaining());
            match tail {
                Ok((more, w)) => {
                    assert((done + seq![entry]) + more =~= done + (seq![entry] + more));
                },
                Err(_) => {},
            }
        }
    }
    proof {
        lemma_parse_fields_step(shapes, count as nat, de.remaining());
    }
    assert(rules.skip(count as int).reverse() =~= Seq::<RuleView>::empty());
    assert(it@.stack =~= rest);
    assert(entry_views(entries@) + Seq::<(Seq<char>, ValueView)>::empty() =~= entry_views(
        entries@,
    ));
    Ok(entries)
}

/// Reads `count` values of the shape `element`, putting its rule on the
/// walk's stack once for each.
fn decode_repeated(
    de: &mut Deserializer<'_>,
    it: &mut BinProtRuleIterator,
    element: &BinProtRule,
    count: usize,
) -> (r: Result<Vec<Value>, Error>)
    requires
        old(it)@.branch is None,
    ensures
        match parse_repeated(element@, count as nat, old(de).remaining()) {
            Ok((items, used)) => (r matches Ok(v) && value_views(v@) == items) && final(de).advanced(old(de), used) && final(it)@.stack == old(it)@.stack && final(it)@.branch is None,
            Err((code, at)) => r == Err::<Vec<Value>, Error>(
                error_of(code, old(de).spec_position() + at),
            ) && final(de).advanced(old(de), at),
        },
    decreases element@, 1nat,
{
    let ghost de0 = *de;
    let ghost s = de.remaining();
    let ghost rest = it@.stack;
    let ghost total = parse_repeated(element@, count as nat, s);
    let mut items: Vec<Value> = Vec::new();
    let mut i: usize = 0;
    assert(s.skip(0) =~= s);
    assert(value_views(items@) =~= Seq::<ValueView>::empty());
    proof {
        use_type_invariant(&*de);
        de.lemma_within();
    }
    while i < count
        invariant
            i <= count,
            items.len() == i,
            it@.branch is None,
            it@.stack == rest,
            de0 == *old(de),
            s == de0.remaining(),
            total == parse_repeated(element@, count as nat, s),
            de.spec_position() >= de0.spec_position(),
            de.advanced(&de0, (de.spec_position() - de0.spec_position()) as nat),
            total == extend(
                value_views(items@),
                (de.spec_position() - de0.spec_position()) as nat,
                parse_repeated(element@, (count - i) as nat, de.remaining()),
            ),
        decreases count - i,
    {
        let ghost done = value_views(items@);
        let ghost de1 = *de;
        it.push(element.clone())?;
        assert(it@.stack.drop_last() =~= rest);
        proof {
            lemma_parse_repeated_step(element@, (count - i) as nat, de.remaining());
        }
        let item = match decode_next(de, it) {
            Ok(item) => item,
            Err(e) => {
                return Err(e);
            },
        };
        items.push(item);
        i = i + 1;
        proof {
            let u = (de.spec_position() - de1.spec_position()) as nat;
            assert(value_views(items@) =~= done + seq![item@]);
            assert(de.remaining() =~= de1.remaining().skip(u as int));
            let tail = parse_repeated(element@, (count - i) as nat, de.remaining());
            match tail {
                Ok((more, w)) => {
                    assert((done + seq![item@]) + more =~= done + (seq![item@] + more));
                },
                Err(_) => {},
            }
        }
    }
    proof {
        lemma_parse_repeated_step(element@, 0, de.remaining());
    }
    assert(value_views(items@) + Seq::<ValueView>::empty() =~= value_views(items@));
    Ok(items)
}

impl Value {
    /// Reads one value of the shape `layout` from `de`.
    pub fn deserialize(de: &mut Deserializer<'_>, layout: BinProtRule) -> (r: Result<Value, Error>)
        ensures
            decoded(old(de), final(de), parse_value(layout@, old(de).remaining()), r),
    {
        let mut it = layout.into_branching_iter();
        decode_next(de, &mut it)
    }
}

/// What reading the whole of `bytes` as one value of the shape `layout`
/// gives. When `strict` is set, bytes left over after the value are an
/// error.
pub open spec fn parse_whole(layout: RuleView, bytes: Seq<u8>, strict: bool) -> Result<
    ValueView,
    Error,
> {
    match parse_value(layout, bytes) {
        Ok((v, used)) => if strict && used < bytes.len() {
            Err(Error::Eval(ErrorCode::TrailingBytes, used as usize))
        } else {
            Ok(v)
        },
        Err((code, at)) => Err(error_of(code, at)),
    }
}

/// Round trip: the wire form of a value that conforms to a layout, read
/// as a whole under that layout, is the value, strictly or not.
pub proof fn lemma_whole_round_trip(layout: RuleView, value: ValueView, strict: bool)
    requires
        crate::value::wire::conforms(layout, value),
    ensures
        parse_whole(layout, crate::value::wire::value_bytes(layout, value), strict) == Ok::<
            ValueView,
            Error,
        >(value),
{
    let form = crate::value::wire::value_bytes(layout, value);
    crate::value::wire::lemma_value_round_trip(layout, value, Seq::empty());
    assert(form + Seq::<u8>::empty() =~= form);
}

/// Reads `bytes` as one value of the shape `layout`. When `strict` is
/// set, bytes left over after the value are an error.
pub fn from_reader_with_layout(bytes: &[u8], layout: BinProtRule, strict: bool) -> (r: Result<
    Value,
    Error,
>)
    ensures
        match parse_whole(layout@, bytes@, strict) {
            Ok(v) => r matches Ok(x) && x@ == v,
            Err(e) => r == Err::<Value, Error>(e),
        },
{
    let mut de = Deserializer::from_slice(bytes);
    assert(de.remaining() =~= bytes@);
    let value = Value::deserialize(&mut de, layout)?;
    if strict {
        de.end()?;
    }
    Ok(value)
}

} // verus!
