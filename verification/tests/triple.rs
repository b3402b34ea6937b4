use bin_prot::value::layout::BinProtRule;
use bin_prot::value::ser::to_writer;
use bin_prot::{from_reader_with_layout, Value};

fn layout() -> BinProtRule {
    BinProtRule::Tuple(vec![BinProtRule::Int32, BinProtRule::Int32, BinProtRule::Int32])
}

fn value(input: (i32, i32, i32)) -> Value {
    Value::Tuple(vec![
        Value::Int(input.0 as i64),
        Value::Int(input.1 as i64),
        Value::Int(input.2 as i64),
    ])
}

fn written(input: (i32, i32, i32)) -> Vec<u8> {
    let mut output = Vec::<u8>::new();
    to_writer(&mut output, &value(input), &layout()).unwrap();
    output
}

fn triple_test_cases() -> Vec<((i32, i32, i32), Vec<u8>)> {
    vec![
        ((0, 0, 0), vec![0x00; 3]),
        ((1, 1, 1), vec![0x01; 3]),
        ((-1, -1, -1), vec![0xff; 6]),
        (
            (2147483647, 2147483647, 2147483647),
            vec![
                0x7f, 0xff, 0xff, 0xff, 0xfd, 0x7f, 0xff, 0xff, 0xff, 0xfd, 0x7f, 0xff, 0xff, 0xff,
                0xfd,
            ],
        ),
        (
            (-2147483648, -2147483648, -2147483648),
            vec![
                0x80, 0x00, 0x00, 0x00, 0xfd, 0x80, 0x00, 0x00, 0x00, 0xfd, 0x80, 0x00, 0x00, 0x00,
                0xfd,
            ],
        ),
    ]
}

#[test]
fn triple_test_triple() {
    let backwards = |input: (i32, i32, i32)| {
        let mut output = written(input);
        output.reverse();
        output
    };
    assert_eq!(vec![0x00, 0x00, 0x00], backwards((0, 0, 0)));
    assert_eq!(vec![0x01, 0x01, 0x01], backwards((1, 1, 1)));
    assert_eq!(vec![0xff, 0xff, 0xff, 0xff, 0xff, 0xff], backwards((-1, -1, -1)));
    assert_eq!(
        vec![
            0x7f, 0xff, 0xff, 0xff, 0xfd, 0x7f, 0xff, 0xff, 0xff, 0xfd, 0x7f, 0xff, 0xff, 0xff,
            0xfd
        ],
        backwards((2147483647, 2147483647, 2147483647))
    );
    assert_eq!(
        vec![
            0x80, 0x00, 0x00, 0x00, 0xfd, 0x80, 0x00, 0x00, 0x00, 0xfd, 0x80, 0x00, 0x00, 0x00,
            0xfd
        ],
        backwards((-2147483648, -2147483648, -2147483648))
    );
}

#[test]
fn test_serialize_triples() {
    for (input, mut expected) in triple_test_cases() {
        expected.reverse();
        assert_eq!(expected, written(input));
    }
}

#[test]
fn test_roundtrip_triples() {
    for (input, _) in triple_test_cases() {
        let output = written(input);
        let re_val = from_reader_with_layout(output.as_slice(), layout(), true).unwrap();
        assert_eq!(value(input), re_val);
    }
}
