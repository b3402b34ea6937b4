use bin_prot::value::index::Index;
use bin_prot::value::visitor::ValueVisitor;
use bin_prot::{Error, ErrorCode, ReadBinProtExt, Deserializer, Value, WriteBinProtExt};

fn record() -> Value {
    Value::Record(vec![
        ("first".to_string(), Value::Int(1)),
        ("second".to_string(), Value::Bool(true)),
        ("first".to_string(), Value::Int(3)),
    ])
}

#[test]
fn indexing_by_position() {
    let list = Value::List(vec![Value::Int(1), Value::Int(2)]);
    let tuple = Value::Tuple(vec![Value::Unit, Value::Char('x')]);
    assert_eq!(list.get(1usize), Some(&Value::Int(2)));
    assert_eq!(list.get(2usize), None);
    assert_eq!(tuple.get(0usize), Some(&Value::Unit));
    assert_eq!(1usize.index_into(&tuple), Some(&Value::Char('x')));
    let sum = Value::Sum { name: "pair".into(), index: 0, value: Box::new(tuple) };
    assert_eq!(sum.get(1usize), Some(&Value::Char('x')));
    assert_eq!(sum.get(5usize), None);
    assert_eq!(record().get(0usize), None);
    assert_eq!(Value::Int(5).get(0usize), None);
    let held = Value::Sum { name: "n".into(), index: 0, value: Box::new(Value::Int(1)) };
    assert_eq!(held.get(0usize), None);
}

#[test]
fn indexing_by_name() {
    assert_eq!(record().get("second".to_string()), Some(&Value::Bool(true)));
    // of two fields with one name the first is found
    assert_eq!(record().get("first".to_string()), Some(&Value::Int(1)));
    assert_eq!(record().get("third".to_string()), None);
    assert_eq!("second".index_into(&record()), Some(&Value::Bool(true)));
    let sum = Value::Sum { name: "r".into(), index: 0, value: Box::new(record()) };
    assert_eq!("second".to_string().index_into(&sum), Some(&Value::Bool(true)));
    assert_eq!(Value::List(vec![]).get("first".to_string()), None);
}

#[test]
fn values_clone_deeply() {
    let value = Value::Sum {
        name: "deep".into(),
        index: 3,
        value: Box::new(Value::Tuple(vec![
            record(),
            Value::Option(Some(Box::new(Value::String(vec![1, 2, 3])))),
            Value::Option(None),
            Value::List(vec![Value::Nat0(7), Value::Float(1.5f64.to_bits()), Value::Char('c')]),
        ])),
    };
    assert_eq!(value.clone(), value);
    assert_eq!(Value::default(), Value::Unit);
}

#[test]
fn the_visitor_builds_each_kind_of_value() {
    let v = ValueVisitor;
    assert_eq!(v.visit_bool(true), Value::Bool(true));
    assert_eq!(v.visit_i64(-5), Value::Int(-5));
    assert_eq!(v.visit_f64(2.5f64.to_bits()), Value::Float(2.5f64.to_bits()));
    assert_eq!(v.visit_char('q'), Value::Char('q'));
    assert_eq!(v.visit_str("héllo"), Value::String("héllo".as_bytes().to_vec()));
    assert_eq!(v.visit_string(vec![0xff]), Value::String(vec![0xff]));
    assert_eq!(v.visit_none(), Value::Option(None));
    assert_eq!(v.visit_some(Value::Unit), Value::Option(Some(Box::new(Value::Unit))));
    assert_eq!(v.visit_unit(), Value::Unit);
    assert_eq!(v.visit_seq(vec![Value::Unit]), Value::Tuple(vec![Value::Unit]));
    assert_eq!(
        v.visit_map(vec![("k".to_string(), Value::Unit)]),
        Value::Record(vec![("k".to_string(), Value::Unit)])
    );
    assert_eq!(
        v.visit_enum("c".to_string(), 2, Value::Unit),
        Value::Sum { name: "c".to_string(), index: 2, value: Box::new(Value::Unit) }
    );
}

#[test]
fn primitives_on_a_byte_sink() {
    let mut out: Vec<u8> = vec![];
    assert_eq!(out.bin_write_unit(), 1);
    assert_eq!(out.bin_write_bool(true), 1);
    assert_eq!(out.bin_write_bool(false), 1);
    assert_eq!(out.bin_write_char('é'), 2);
    assert_eq!(out.bin_write_integer(-300), 3);
    assert_eq!(out.bin_write_nat0(300), 3);
    assert_eq!(out.bin_write_float32(1.0f32.to_bits()), 4);
    assert_eq!(out.bin_write_float64(f64::NEG_INFINITY.to_bits()), 8);
    assert_eq!(
        out,
        vec![
            0x00, 0x01, 0x00, 0xc3, 0xa9, 0xfe, 0xd4, 0xfe, 0xfe, 0x2c, 0x01, 0x00, 0x00, 0x80,
            0x3f, 0, 0, 0, 0, 0, 0, 0xf0, 0xff
        ]
    );
    let mut de = Deserializer::from_slice(&out);
    assert_eq!(de.bin_read_unit(), Ok(()));
    assert_eq!(de.bin_read_bool(), Ok(true));
    assert_eq!(de.bin_read_bool(), Ok(false));
    assert_eq!(de.bin_read_char(), Ok('é'));
    assert_eq!(de.bin_read_integer(), Ok(-300));
    assert_eq!(de.bin_read_nat0(), Ok(300));
    assert_eq!(de.deserialize_f32(), Ok(1.0f32.to_bits()));
    assert_eq!(de.deserialize_f64(), Ok(f64::NEG_INFINITY.to_bits()));
    assert_eq!(de.end(), Ok(()));
}

#[test]
fn unit_and_bool_bytes_are_checked() {
    let mut de = Deserializer::from_slice(&[0x01, 0x02]);
    assert_eq!(de.bin_read_unit(), Err(Error::Eval(ErrorCode::InvalidUnitByte, 1)));
    assert_eq!(de.bin_read_bool(), Err(Error::Eval(ErrorCode::InvalidBoolByte, 2)));
    assert_eq!(de.bin_read_bool(), Err(Error::Eval(ErrorCode::EofWhileParsing, 2)));
    assert_eq!(de.bin_read_unit(), Err(Error::Eval(ErrorCode::EofWhileParsing, 2)));
    assert_eq!(de.deserialize_option(), Err(Error::Eval(ErrorCode::EofWhileParsing, 2)));
}

#[test]
fn errors_have_codes_positions_and_words() {
    let eval = Error::Eval(ErrorCode::TrailingBytes, 12);
    let syntax = Error::Syntax(ErrorCode::Custom("told by the caller".to_string()));
    assert_eq!(eval.code(), &ErrorCode::TrailingBytes);
    assert_eq!(eval.offset(), Some(12));
    assert_eq!(syntax.offset(), None);
    assert_eq!(eval.code().message(), "trailing bytes found");
    assert_eq!(syntax.code().message(), "told by the caller");
    let codes = [
        ErrorCode::EofWhileParsing,
        ErrorCode::InvalidBoolByte,
        ErrorCode::InvalidUnitByte,
        ErrorCode::InvalidUtf8Char,
        ErrorCode::InvalidIntegerPrefix,
        ErrorCode::IntegerSizeMismatch,
        ErrorCode::InvalidVariantIndex,
        ErrorCode::MustBranch,
        ErrorCode::CannotBranch,
        ErrorCode::InvalidBranch,
        ErrorCode::UnresolvedReference,
        ErrorCode::UnsupportedRule,
        ErrorCode::LayoutMismatch,
        ErrorCode::LayoutExhausted,
        ErrorCode::TrailingBytes,
    ];
    let words: std::collections::HashSet<String> = codes.iter().map(|c| c.message()).collect();
    assert_eq!(words.len(), codes.len());
    assert_eq!(ErrorCode::EofWhileParsing.message(), "EOF while parsing");
}

#[test]
fn equality_looks_at_every_part() {
    let a = Value::Sum {
        name: "s".into(),
        index: 1,
        value: Box::new(Value::Tuple(vec![record(), Value::String(vec![1, 2])])),
    };
    let same = a.clone();
    assert!(a.same(&same));
    assert!(a == same);
    let others = vec![
        Value::Sum { name: "t".into(), index: 1, value: Box::new(Value::Tuple(vec![record(), Value::String(vec![1, 2])])) },
        Value::Sum { name: "s".into(), index: 2, value: Box::new(Value::Tuple(vec![record(), Value::String(vec![1, 2])])) },
        Value::Sum { name: "s".into(), index: 1, value: Box::new(Value::Tuple(vec![record(), Value::String(vec![1, 3])])) },
        Value::Sum { name: "s".into(), index: 1, value: Box::new(Value::Tuple(vec![record()])) },
        Value::Sum { name: "s".into(), index: 1, value: Box::new(Value::List(vec![record(), Value::String(vec![1, 2])])) },
        Value::Unit,
    ];
    for other in others {
        assert!(!a.same(&other));
        assert!(a != other);
    }
    assert!(Value::Option(None) == Value::Option(None));
    assert!(Value::Option(None) != Value::Option(Some(Box::new(Value::Unit))));
    assert!(Value::Float(0) != Value::Float(1 << 63));
    assert!(Value::Nat0(5) != Value::Int(5));
    assert!(
        Value::Record(vec![("a".into(), Value::Unit)]) != Value::Record(vec![("b".into(), Value::Unit)])
    );
}
