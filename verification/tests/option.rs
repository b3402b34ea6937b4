use bin_prot::value::layout::BinProtRule;
use bin_prot::value::ser::to_writer;
use bin_prot::{from_reader_with_layout, Error, ErrorCode, Value};

fn layout() -> BinProtRule {
    BinProtRule::Option(Box::new(BinProtRule::Int64))
}

fn value(input: Option<i64>) -> Value {
    Value::Option(input.map(|v| Box::new(Value::Int(v))))
}

fn option_test_cases() -> Vec<(Option<i64>, Vec<u8>)> {
    vec![
        (None, vec![0x00]),
        (Some(0), vec![0x00, 0x01]),
        (Some(1), vec![0x01, 0x01]),
        (Some(-1), vec![0xff, 0xff, 0x01]),
        (Some(2147483647), vec![0x7f, 0xff, 0xff, 0xff, 0xfd, 0x01]),
    ]
}

#[test]
fn test_serialize_options() {
    for (input, mut expected) in option_test_cases() {
        let mut output = Vec::<u8>::new();
        to_writer(&mut output, &value(input), &layout()).unwrap();
        expected.reverse();
        assert_eq!(expected, output);
    }
}

#[test]
fn options_round_trip() {
    for (input, mut expected) in option_test_cases() {
        expected.reverse();
        assert_eq!(from_reader_with_layout(&expected, layout(), true), Ok(value(input)));
    }
}

#[test]
fn option_tag_must_be_zero_or_one() {
    assert_eq!(
        from_reader_with_layout(&[0x02, 0x00], layout(), false),
        Err(Error::Eval(ErrorCode::InvalidBoolByte, 1))
    );
}
