use bin_prot::value::layout::BinProtRule;
use bin_prot::value::ser::to_writer;
use bin_prot::Value;

fn float_written(value: f64) -> Vec<u8> {
    let mut output = vec![];
    to_writer(&mut output, &Value::Float(value.to_bits()), &BinProtRule::Float)
        .expect("Failed writing bin-prot encoded data");
    output.reverse();
    output
}

#[test]
fn floats_test_float() {
    assert_eq!(
        vec![0x3c, 0xb0, 0, 0, 0, 0, 0, 0],
        float_written(2.2204460492503131E-16)
    );
    assert_eq!(vec![0x7f, 0xf0, 0, 0, 0, 0, 0, 0], float_written(f64::INFINITY));
    assert_eq!(
        vec![0x7f, 0xef, 0xff, 0xff, 0xff, 0xff, 0xff, 0xff],
        float_written(1.7976931348623157E+308)
    );
    assert_eq!(vec![0x7f, 0xf0, 0, 0, 0, 0, 0, 0], float_written(f64::INFINITY));
    assert_eq!(vec![0, 0x10, 0, 0, 0, 0, 0, 0], float_written(2.2250738585072014E-308));
    assert_eq!(vec![0, 0, 0, 0, 0, 0, 0, 0x01], float_written(4.94065645841247E-324));
    assert_eq!(vec![0xff, 0xf0, 0, 0, 0, 0, 0, 0], float_written(f64::NEG_INFINITY));
    assert_eq!(vec![0xbf, 0xf0, 0, 0, 0, 0, 0, 0], float_written(-1f64));
    assert_eq!(vec![0xff, 0xf0, 0, 0, 0, 0, 0, 0], float_written(f64::NEG_INFINITY));
    assert_eq!(vec![0x3f, 0xf0, 0, 0, 0, 0, 0, 0], float_written(1f64));
    assert_eq!(
        vec![0x3e, 0x7a, 0xd7, 0xf2, 0x9a, 0xbc, 0xaf, 0x48],
        float_written(1E-07)
    );
}

#[test]
fn nan_bit_patterns_survive() {
    for bits in [0x7ff8_0000_0000_0001u64, 0xfff0_0000_dead_beef, f64::NAN.to_bits()] {
        let mut output = vec![];
        to_writer(&mut output, &Value::Float(bits), &BinProtRule::Float).unwrap();
        assert_eq!(output, f64::from_bits(bits).to_le_bytes().to_vec());
        let back = bin_prot::from_reader_with_layout(&output, BinProtRule::Float, true).unwrap();
        assert_eq!(back, Value::Float(bits));
    }
}
