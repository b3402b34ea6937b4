// Compound types written and read field by field, as a typed caller
// drives the codec.

use bin_prot::{Deserializer, Error, ErrorCode, Serializer};

#[derive(PartialEq, Debug)]
struct TestTupleStruct(bool, i8, i16, i32, i64, (), Option<()>, [u8; 3], char);

fn write_tuple_struct(ser: &mut Serializer, v: &TestTupleStruct) -> Result<(), Error> {
    ser.serialize_bool(v.0)?;
    ser.serialize_i8(v.1)?;
    ser.serialize_i16(v.2)?;
    ser.serialize_i32(v.3)?;
    ser.serialize_i64(v.4)?;
    ser.serialize_unit()?;
    match v.6 {
        None => ser.serialize_none()?,
        Some(()) => {
            ser.serialize_some()?;
            ser.serialize_unit()?
        }
    }
    for byte in v.7 {
        ser.serialize_u8(byte)?;
    }
    ser.serialize_char(v.8)
}

fn read_tuple_struct(de: &mut Deserializer) -> Result<TestTupleStruct, Error> {
    Ok(TestTupleStruct(
        de.deserialize_bool()?,
        de.deserialize_i8()?,
        de.deserialize_i16()?,
        de.deserialize_i32()?,
        de.deserialize_i64()?,
        de.deserialize_unit()?,
        if de.deserialize_option()? { Some(de.deserialize_unit()?) } else { None },
        [de.deserialize_u8()?, de.deserialize_u8()?, de.deserialize_u8()?],
        de.deserialize_char()?,
    ))
}

#[derive(PartialEq, Debug)]
struct A(bool);

#[derive(PartialEq, Debug)]
struct B {
    a: A,
}

#[test]
fn roundtrip_tuple_struct() {
    let val = TestTupleStruct(true, 0, 0, 0, 0, (), None, [0x01, 0x02, 0x03], 'c');
    let mut ser = Serializer::new(Vec::<u8>::new());
    write_tuple_struct(&mut ser, &val).unwrap();
    let output = ser.into_inner();
    assert_eq!(output, vec![0x01, 0, 0, 0, 0, 0, 0, 0x01, 0x02, 0x03, b'c']);
    let mut de = Deserializer::from_slice(output.as_slice());
    let re_val = read_tuple_struct(&mut de).unwrap();
    assert_eq!(val, re_val);
    assert_eq!(de.end(), Ok(()));
}

#[test]
fn roundtrip_nested_structs() {
    // a wrapper around one value is written as that value
    let val = B { a: A(false) };
    let mut ser = Serializer::new(Vec::<u8>::new());
    ser.serialize_bool(val.a.0).unwrap();
    let output = ser.into_inner();
    assert_eq!(output, vec![0x00]);
    let mut de = Deserializer::from_slice(output.as_slice());
    let re_val = B { a: A(de.deserialize_bool().unwrap()) };
    assert_eq!(val, re_val)
}

#[test]
fn roundtrip_owned_string() {
    let val = "serde-bin-prot".to_string();
    let mut ser = Serializer::new(Vec::<u8>::new());
    ser.serialize_str(&val).unwrap();
    let output = ser.into_inner();
    assert_eq!(output[0] as usize, val.len());
    assert_eq!(&output[1..], val.as_bytes());
    let mut de = Deserializer::from_slice(output.as_slice());
    assert_eq!(String::from_utf8(de.deserialize_bytes().unwrap()), Ok(val));
}

#[test]
fn roundtrip_enum() {
    // enum E { A, B, C }, the variant A
    let mut ser = Serializer::new(Vec::<u8>::new());
    ser.serialize_unit_variant(0, 3).unwrap();
    let output = ser.into_inner();
    assert_eq!(output, vec![0x00]);
    let mut de = Deserializer::from_slice(output.as_slice());
    assert_eq!(de.deserialize_variant_index(3), Ok(0));
}

#[test]
fn roundtrip_enum_with_values() {
    // enum EnumWithValues { A(bool), B(i32, f32), C(Option<bool>) }
    let mut ser = Serializer::new(Vec::<u8>::new());
    // C(Some(true))
    ser.serialize_unit_variant(2, 3).unwrap();
    ser.serialize_some().unwrap();
    ser.serialize_bool(true).unwrap();
    // B(-7, 1.5)
    ser.serialize_unit_variant(1, 3).unwrap();
    ser.serialize_i32(-7).unwrap();
    ser.serialize_f32(1.5f32.to_bits()).unwrap();
    let output = ser.into_inner();
    assert_eq!(output, vec![0x02, 0x01, 0x01, 0x01, 0xff, 0xf9, 0x00, 0x00, 0xc0, 0x3f]);
    let mut de = Deserializer::from_slice(output.as_slice());
    assert_eq!(de.deserialize_variant_index(3), Ok(2));
    assert_eq!(de.deserialize_option(), Ok(true));
    assert_eq!(de.deserialize_bool(), Ok(true));
    assert_eq!(de.deserialize_variant_index(3), Ok(1));
    assert_eq!(de.deserialize_i32(), Ok(-7));
    assert_eq!(de.deserialize_f32().map(f32::from_bits), Ok(1.5));
    assert_eq!(de.end(), Ok(()));
}

#[test]
fn variant_indices_are_checked() {
    let mut ser = Serializer::new(vec![0x11]);
    let refused = Err(Error::Syntax(ErrorCode::InvalidVariantIndex));
    assert_eq!(ser.serialize_unit_variant(3, 3), refused);
    assert_eq!(ser.serialize_unit_variant(70_000, 100_000), refused);
    assert_eq!(ser.serialize_unit_variant(300, 301), Ok(()));
    assert_eq!(ser.into_inner(), vec![0x11, 0x2c, 0x01]);
    let mut de = Deserializer::from_slice(&[0x03]);
    assert_eq!(de.deserialize_variant_index(3), Err(Error::Eval(ErrorCode::InvalidVariantIndex, 1)));
}

#[test]
fn sequences_carry_their_length() {
    let mut ser = Serializer::new(Vec::<u8>::new());
    ser.serialize_seq(300).unwrap();
    ser.serialize_bytes(&[1, 2, 3]).unwrap();
    ser.write(&[9, 9]).unwrap();
    ser.write_byte(7).unwrap();
    let output = ser.into_inner();
    assert_eq!(output, vec![0xfe, 0x2c, 0x01, 0x03, 1, 2, 3, 9, 9, 7]);
    let mut de = Deserializer::from_slice(&output);
    assert_eq!(de.deserialize_seq(), Ok(300));
    assert_eq!(de.deserialize_bytes(), Ok(vec![1, 2, 3]));
    assert_eq!(de.read_bytes(2), Ok(vec![9, 9]));
    assert_eq!(de.read_bytes(2), Err(Error::Eval(ErrorCode::EofWhileParsing, 9)));
    assert_eq!(de.read_byte(), Ok(7));
    assert_eq!(de.read_byte(), Err(Error::Eval(ErrorCode::EofWhileParsing, 10)));
    assert_eq!(de.error::<()>(ErrorCode::TrailingBytes), Err(Error::Eval(ErrorCode::TrailingBytes, 10)));
}

#[test]
fn fixed_fields_are_little_endian() {
    let bytes = [0x34, 0x12, 0x00, 0x00, 0x80, 0x3f, 0, 0, 0, 0, 0, 0, 0xf0, 0x3f, 0x01];
    let mut de = Deserializer::from_slice(&bytes);
    assert_eq!(de.read_u16_le(), Ok(0x1234));
    assert_eq!(de.read_f32_le().map(f32::from_bits), Ok(1.0));
    assert_eq!(de.read_f64_le().map(f64::from_bits), Ok(1.0));
    assert_eq!(de.read_u16_le(), Err(Error::Eval(ErrorCode::EofWhileParsing, 14)));
    assert_eq!(de.read_f32_le(), Err(Error::Eval(ErrorCode::EofWhileParsing, 14)));
    assert_eq!(de.read_f64_le(), Err(Error::Eval(ErrorCode::EofWhileParsing, 14)));
    assert_eq!(de.end(), Err(Error::Eval(ErrorCode::TrailingBytes, 14)));
}
