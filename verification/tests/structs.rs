use bin_prot::value::layout::{BinProtRule, RecordField};
use bin_prot::value::ser::to_writer;
use bin_prot::{from_reader_with_layout, Value};
use std::f64::INFINITY;

fn field(name: &str, rule: BinProtRule) -> RecordField {
    RecordField { field_name: name.to_string(), field_rule: rule }
}

// struct A { x: i64, y: f64 }
fn a(x: i64, y: f64) -> (Value, BinProtRule) {
    (
        Value::Record(vec![
            ("x".to_string(), Value::Int(x)),
            ("y".to_string(), Value::Float(y.to_bits())),
        ]),
        BinProtRule::Record(vec![field("x", BinProtRule::Int64), field("y", BinProtRule::Float)]),
    )
}

// struct B { y: b_inner { w: i64, x: i64 }, z: Option<i64> }
fn b(w: i64, x: i64, z: Option<i64>) -> (Value, BinProtRule) {
    (
        Value::Record(vec![
            (
                "y".to_string(),
                Value::Record(vec![
                    ("w".to_string(), Value::Int(w)),
                    ("x".to_string(), Value::Int(x)),
                ]),
            ),
            ("z".to_string(), Value::Option(z.map(|v| Box::new(Value::Int(v))))),
        ]),
        BinProtRule::Record(vec![
            field(
                "y",
                BinProtRule::Record(vec![
                    field("w", BinProtRule::Int64),
                    field("x", BinProtRule::Int64),
                ]),
            ),
            field("z", BinProtRule::Option(Box::new(BinProtRule::Int64))),
        ]),
    )
}

fn struct_test_cases() -> Vec<((Value, BinProtRule), Vec<u8>)> {
    let a0_expected = vec![0, 0, 0, 0, 0, 0, 0, 0, 0];

    let mut a1_expected = vec![
        0x7f, 0xf0, 0x00, 0x00, 0x00, 0x00, 0x00, 0x00, 0x7f, 0xff, 0xff, 0xff, 0xfd,
    ];
    a1_expected.reverse();

    let b0_expected = vec![0, 0, 0];

    let mut b1_expected = vec![
        0x00, 0x7f, 0xff, 0xff, 0xff, 0xfd, 0x7f, 0xff, 0xff, 0xff, 0xff, 0xff, 0xff, 0xff, 0xfc,
    ];
    b1_expected.reverse();

    vec![
        (a(0, 0.0), a0_expected),
        (a(2147483647, INFINITY), a1_expected),
        (b(0, 0, None), b0_expected),
        (b(9223372036854775807, 2147483647, None), b1_expected),
    ]
}

#[test]
fn test_serialize_structs() {
    for ((input, layout), expected) in struct_test_cases() {
        let mut output = Vec::<u8>::new();
        to_writer(&mut output, &input, &layout).unwrap();
        assert_eq!(expected, output);
    }
}

#[test]
fn test_roundtrip_structs() {
    for ((input, layout), _) in struct_test_cases() {
        let mut output = Vec::<u8>::new();
        to_writer(&mut output, &input, &layout).unwrap();
        let re_val = from_reader_with_layout(output.as_slice(), layout, true).unwrap();
        assert_eq!(input, re_val);
    }
}

#[test]
fn record_with_a_large_integer_and_infinity() {
    let (value, layout) = a(2147483647, INFINITY);
    let bytes = vec![0xfd, 0xff, 0xff, 0xff, 0x7f, 0, 0, 0, 0, 0, 0, 0xf0, 0x7f];
    let mut output = vec![];
    to_writer(&mut output, &value, &layout).unwrap();
    assert_eq!(output, bytes);
    assert_eq!(from_reader_with_layout(&bytes, layout, true), Ok(value));
}
