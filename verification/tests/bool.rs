use bin_prot::{Deserializer, Serializer};

fn bool_test_cases() -> Vec<(bool, Vec<u8>)> {
    vec![(true, vec![0x01]), (false, vec![0x00])]
}

fn written(input: bool) -> Vec<u8> {
    let mut ser = Serializer::new(Vec::<u8>::new());
    ser.serialize_bool(input).unwrap();
    ser.into_inner()
}

#[test]
fn test_serialize_bools() {
    for (input, expected) in bool_test_cases() {
        assert_eq!(expected, written(input));
    }
}

#[test]
fn test_roundtrip_bools() {
    for (input, _) in bool_test_cases() {
        let output = written(input);
        let mut de = Deserializer::from_slice(output.as_slice());
        let re_val = de.deserialize_bool().unwrap();
        assert_eq!(input, re_val);
        assert!(de.end().is_ok());
    }
}
