// Wire forms of the values that are not plain integers. The expected bytes
// are written most significant first, as in the reference tables of the
// format, so each case compares against the output read backwards.

use bin_prot::value::layout::{BinProtRule, RecordField};
use bin_prot::value::ser::to_writer;
use bin_prot::{Serializer, Value};

fn backwards(mut bytes: Vec<u8>) -> Vec<u8> {
    bytes.reverse();
    bytes
}

fn written(value: Value, layout: BinProtRule) -> Vec<u8> {
    let mut output = vec![];
    to_writer(&mut output, &value, &layout).expect("Failed writing bin-prot encoded data");
    backwards(output)
}

fn float_written(value: f64) -> Vec<u8> {
    written(Value::Float(value.to_bits()), BinProtRule::Float)
}

fn ints(values: &[i64]) -> Vec<Value> {
    values.iter().map(|v| Value::Int(*v)).collect()
}

fn int32_tuple(values: &[i64]) -> (Value, BinProtRule) {
    (
        Value::Tuple(ints(values)),
        BinProtRule::Tuple(values.iter().map(|_| BinProtRule::Int32).collect()),
    )
}

fn int32_list(values: &[i64]) -> (Value, BinProtRule) {
    (Value::List(ints(values)), BinProtRule::List(Box::new(BinProtRule::Int32)))
}

fn field(name: &str, rule: BinProtRule) -> RecordField {
    RecordField { field_name: name.to_string(), field_rule: rule }
}

// struct A { x: i64, y: f64 }
fn record_a(x: i64, y: f64) -> (Value, BinProtRule) {
    (
        Value::Record(vec![
            ("x".to_string(), Value::Int(x)),
            ("y".to_string(), Value::Float(y.to_bits())),
        ]),
        BinProtRule::Record(vec![field("x", BinProtRule::Int64), field("y", BinProtRule::Float)]),
    )
}

// struct B { y: BInner { w: i64, x: i64 }, z: Option<i64> }
fn record_b(w: i64, x: i64, z: Option<i64>) -> (Value, BinProtRule) {
    let inner = Value::Record(vec![
        ("w".to_string(), Value::Int(w)),
        ("x".to_string(), Value::Int(x)),
    ]);
    let inner_rule =
        BinProtRule::Record(vec![field("w", BinProtRule::Int64), field("x", BinProtRule::Int64)]);
    (
        Value::Record(vec![
            ("y".to_string(), inner),
            ("z".to_string(), Value::Option(z.map(|v| Box::new(Value::Int(v))))),
        ]),
        BinProtRule::Record(vec![
            field("y", inner_rule),
            field("z", BinProtRule::Option(Box::new(BinProtRule::Int64))),
        ]),
    )
}

#[test]
fn test_unit() {
    assert_eq!(vec![0x00], written(Value::Unit, BinProtRule::Unit));
}

#[test]
fn test_bool() {
    assert_eq!(vec![0x01], written(Value::Bool(true), BinProtRule::Bool));
    assert_eq!(vec![0x00], written(Value::Bool(false), BinProtRule::Bool));
}

#[test]
fn test_char() {
    assert_eq!(vec![0x00], written(Value::Char('\u{000}'), BinProtRule::Char));
    assert_eq!(vec![0x41], written(Value::Char('A'), BinProtRule::Char));
    assert_eq!(vec![0x7a], written(Value::Char('z'), BinProtRule::Char));
    assert_eq!(vec![0x3b], written(Value::Char(';'), BinProtRule::Char));
}

#[test]
fn non_integers_repr_test_float() {
    assert_eq!(
        vec![0x3c, 0xb0, 0, 0, 0, 0, 0, 0],
        float_written(2.2204460492503131E-16)
    );
    assert_eq!(vec![0x7f, 0xf0, 0, 0, 0, 0, 0, 0], float_written(f64::INFINITY));
    assert_eq!(
        vec![0x7f, 0xef, 0xff, 0xff, 0xff, 0xff, 0xff, 0xff],
        float_written(1.7976931348623157E+308)
    );
    assert_eq!(vec![0x7f, 0xf0, 0, 0, 0, 0, 0, 0], float_written(f64::INFINITY));
    assert_eq!(vec![0, 0x10, 0, 0, 0, 0, 0, 0], float_written(2.2250738585072014E-308));
    assert_eq!(vec![0, 0, 0, 0, 0, 0, 0, 0x01], float_written(4.94065645841247E-324));
    assert_eq!(vec![0xff, 0xf0, 0, 0, 0, 0, 0, 0], float_written(f64::NEG_INFINITY));
    assert_eq!(vec![0xbf, 0xf0, 0, 0, 0, 0, 0, 0], float_written(-1f64));
    assert_eq!(vec![0xff, 0xf0, 0, 0, 0, 0, 0, 0], float_written(f64::NEG_INFINITY));
    assert_eq!(vec![0x3f, 0xf0, 0, 0, 0, 0, 0, 0], float_written(1f64));
    assert_eq!(
        vec![0x3e, 0x7a, 0xd7, 0xf2, 0x9a, 0xbc, 0xaf, 0x48],
        float_written(1E-07)
    );
}

#[test]
fn test_vec() {
    let (value, layout) = int32_list(&[]);
    assert_eq!(vec![0x00], written(value, layout));
}

#[test]
fn test_float32_vec() {
    // Vec::<f32>::new()
    let mut ser = Serializer::new(vec![]);
    ser.serialize_seq(0).unwrap();
    assert_eq!(vec![0x00], backwards(ser.into_inner()));
    // vec![1f32]
    let mut ser = Serializer::new(vec![]);
    ser.serialize_seq(1).unwrap();
    ser.serialize_f32(1f32.to_bits()).unwrap();
    assert_eq!(vec![0x3f, 0x80, 0x00, 0x00, 0x01], backwards(ser.into_inner()));
}

#[test]
fn test_float64_vec() {
    let floats = BinProtRule::List(Box::new(BinProtRule::Float));
    assert_eq!(vec![0x00], written(Value::List(vec![]), floats.clone()));
    assert_eq!(
        vec![0x3f, 0xf0, 0x00, 0x00, 0x00, 0x00, 0x00, 0x00, 0x01],
        written(Value::List(vec![Value::Float(1f64.to_bits())]), floats)
    );
}

#[test]
fn test_option() {
    let option = |v: Option<i64>| {
        written(
            Value::Option(v.map(|v| Box::new(Value::Int(v)))),
            BinProtRule::Option(Box::new(BinProtRule::Int64)),
        )
    };
    assert_eq!(vec![0x00], option(None));
    assert_eq!(vec![0x00, 0x01], option(Some(0i64)));
    assert_eq!(vec![0x01, 0x01], option(Some(1i64)));
    assert_eq!(vec![0xff, 0xff, 0x01], option(Some(-1)));
    assert_eq!(vec![0x7f, 0xff, 0xff, 0xff, 0xfd, 0x01], option(Some(2147483647i64)));
    assert_eq!(vec![0x80, 0x00, 0x00, 0x00, 0xfd, 0x01], option(Some(-2147483648i64)));
}

#[test]
fn test_pair() {
    let pair = |a: i64, b: i64| {
        let (value, layout) = int32_tuple(&[a, b]);
        written(value, layout)
    };
    assert_eq!(vec![0x00, 0x00], pair(0, 0));
    assert_eq!(vec![0x01, 0x01], pair(1, 1));
    assert_eq!(vec![0xff, 0xff, 0xff, 0xff], pair(-1, -1));
    assert_eq!(
        vec![0x7f, 0xff, 0xff, 0xff, 0xfd, 0x7f, 0xff, 0xff, 0xff, 0xfd],
        pair(2147483647, 2147483647)
    );
    assert_eq!(
        vec![0x80, 0x00, 0x00, 0x00, 0xfd, 0x80, 0x00, 0x00, 0x00, 0xfd],
        pair(-2147483648, -2147483648)
    );
}

#[test]
fn non_integers_repr_test_triple() {
    let triple = |a: i64, b: i64, c: i64| {
        let (value, layout) = int32_tuple(&[a, b, c]);
        written(value, layout)
    };
    assert_eq!(vec![0x00, 0x00, 0x00], triple(0, 0, 0));
    assert_eq!(vec![0x01, 0x01, 0x01], triple(1, 1, 1));
    assert_eq!(vec![0xff, 0xff, 0xff, 0xff, 0xff, 0xff], triple(-1, -1, -1));
    assert_eq!(
        vec![
            0x7f, 0xff, 0xff, 0xff, 0xfd, 0x7f, 0xff, 0xff, 0xff, 0xfd, 0x7f, 0xff, 0xff, 0xff,
            0xfd
        ],
        triple(2147483647, 2147483647, 2147483647)
    );
    assert_eq!(
        vec![
            0x80, 0x00, 0x00, 0x00, 0xfd, 0x80, 0x00, 0x00, 0x00, 0xfd, 0x80, 0x00, 0x00, 0x00,
            0xfd
        ],
        triple(-2147483648, -2147483648, -2147483648)
    );
}

#[test]
fn non_integers_repr_test_list() {
    let list = |values: &[i64]| {
        let (value, layout) = int32_list(values);
        written(value, layout)
    };
    assert_eq!(vec![0x00], list(&[]));
    assert_eq!(vec![0x00, 0x01], list(&[0]));
    assert_eq!(vec![0x01, 0x00, 0x02], list(&[0, 1]));
    assert_eq!(vec![0xff, 0xff, 0x01, 0x02], list(&[1, -1]));
    assert_eq!(vec![0x7f, 0xff, 0xff, 0xff, 0xfd, 0x00, 0x02], list(&[0, 2147483647]));
    assert_eq!(
        vec![0x80, 0x00, 0x00, 0x00, 0xfd, 0x7f, 0xff, 0xff, 0xff, 0xfd, 0x02],
        list(&[2147483647, -2147483648])
    );
}

#[test]
fn test_record1() {
    let (value, layout) = record_a(0, 0.0);
    assert_eq!(vec![0x00; 9], written(value, layout));
    let (value, layout) = record_a(2147483647, f64::INFINITY);
    assert_eq!(
        vec![0x7f, 0xf0, 0x00, 0x00, 0x00, 0x00, 0x00, 0x00, 0x7f, 0xff, 0xff, 0xff, 0xfd],
        written(value, layout)
    );
}

#[test]
fn test_record2() {
    let (value, layout) = record_b(0, 0, None);
    assert_eq!(vec![0x00, 0x00, 0x00], written(value, layout));
    let (value, layout) = record_b(9223372036854775807, 2147483647, None);
    assert_eq!(
        vec![
            0x00, 0x7f, 0xff, 0xff, 0xff, 0xfd, 0x7f, 0xff, 0xff, 0xff, 0xff, 0xff, 0xff, 0xff,
            0xfc
        ],
        written(value, layout)
    );
}

#[test]
fn test_inline_record() {
    let (value, layout) = record_b(0, 0, None);
    assert_eq!(vec![0x00, 0x00, 0x00], written(value, layout));
    let (value, layout) = record_b(9223372036854775807, 2147483647, None);
    assert_eq!(
        vec![
            0x00, 0x7f, 0xff, 0xff, 0xff, 0xfd, 0x7f, 0xff, 0xff, 0xff, 0xff, 0xff, 0xff, 0xff,
            0xfc
        ],
        written(value, layout)
    );
}
