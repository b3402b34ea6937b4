use bin_prot::{Deserializer, Error, ErrorCode, Serializer};

fn char_test_cases() -> Vec<(char, Vec<u8>)> {
    vec![
        ('\u{000}', vec![0x00]),
        ('A', vec![0x41]),
        ('z', vec![0x7a]),
        (';', vec![0x3b]),
    ]
}

fn written(input: char) -> Vec<u8> {
    let mut ser = Serializer::new(Vec::<u8>::new());
    ser.serialize_char(input).unwrap();
    ser.into_inner()
}

#[test]
fn test_serialize_chars() {
    for (input, expected) in char_test_cases() {
        assert_eq!(expected, written(input));
    }
}

#[test]
fn chars_of_every_width_round_trip() {
    for c in ['a', '\u{7f}', '\u{80}', 'é', '\u{7ff}', '\u{800}', '€', '\u{ffff}', '\u{10000}', '😀', '\u{10ffff}'] {
        let mut output = written(c);
        assert_eq!(output, c.to_string().into_bytes());
        output.push(b'x');
        let mut de = Deserializer::from_slice(output.as_slice());
        assert_eq!(de.deserialize_char(), Ok(c));
        assert_eq!(de.position(), c.len_utf8());
        assert_eq!(de.read_byte(), Ok(b'x'));
    }
}

#[test]
fn chars_that_are_not_utf8_are_refused() {
    let mut de = Deserializer::from_slice(&[0xff, 0xff, 0xff, 0xff, 0x00]);
    assert_eq!(de.deserialize_char(), Err(Error::Eval(ErrorCode::InvalidUtf8Char, 4)));
    // a lone continuation byte, then the end of the stream
    let mut de = Deserializer::from_slice(&[0x80, 0x41]);
    assert_eq!(de.deserialize_char(), Err(Error::Eval(ErrorCode::EofWhileParsing, 2)));
    // a two-byte character cut short
    let mut de = Deserializer::from_slice(&[0xc3]);
    assert_eq!(de.deserialize_char(), Err(Error::Eval(ErrorCode::EofWhileParsing, 1)));
    let mut de = Deserializer::from_slice(&[]);
    assert_eq!(de.deserialize_char(), Err(Error::Eval(ErrorCode::EofWhileParsing, 0)));
}
