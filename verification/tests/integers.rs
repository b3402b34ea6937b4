// The variable-length integer encoding, checked around the points where
// the length of the wire form changes, around the powers of two, and at the
// ends of the range.

use bin_prot::integers::{
    integer, nat0, read_integer, read_nat0, ReadBinProtIntegerExt, WriteBinProtIntegerExt,
};
use bin_prot::nat0::Nat0;
use bin_prot::{Deserializer, Error, ErrorCode, ReadBinProtExt, Serializer, WriteBinProtExt};
use std::collections::HashSet;

type Points = HashSet<i64>;

const TEST_WINDOW_LEN: i64 = 16;

const INT_MIN: i64 = -(2_i64.pow(62));
const INT_MAX: i64 = 2_i64.pow(62) - 1;

struct TestCase {
    min: i64,
    max: i64,
}

fn find_interesting_points(case: TestCase) -> Points {
    let mut points = HashSet::new();
    points.insert(0);
    points.insert(case.min);
    points.insert(case.max);
    points = points.union(&valid_powers_of_two(&case)).cloned().collect();
    add_windows_around_points(case, points)
}

fn powers_of_two() -> Points {
    let mut acc = Points::new();
    for i in 0..62 {
        acc.insert(2_i64.pow(i));
        acc.insert(-(2_i64.pow(i)));
    }
    acc
}

fn valid_powers_of_two(case: &TestCase) -> Points {
    powers_of_two().into_iter().filter(|i| i >= &case.min && i <= &case.max).collect()
}

fn add_windows_around_points(TestCase { min, max }: TestCase, points: Points) -> Points {
    points.into_iter().fold(Points::new(), |mut acc, i| {
        let d = TEST_WINDOW_LEN / 2;
        let a = if i <= (min + d) { min } else { i - d };
        let b = if i >= (max - d) { max } else { i + d };
        for i in a..b {
            acc.insert(i);
        }
        acc
    })
}

fn expected_size(v: i64) -> usize {
    if (0..0x80).contains(&v) {
        1
    } else if (-0x80..0).contains(&v) {
        2
    } else if (-0x8000..0x8000).contains(&v) {
        3
    } else if (-0x8000_0000..0x8000_0000).contains(&v) {
        5
    } else {
        9
    }
}

#[test]
fn test_roundtrip_integers() {
    let int_test = TestCase { min: INT_MIN, max: INT_MAX };

    for val in find_interesting_points(int_test) {
        let mut output = Vec::<u8>::new();
        let written = output.bin_write_integer(val);
        assert_eq!(written, output.len());
        assert_eq!(written, expected_size(val));
        let mut de = Deserializer::from_slice(output.as_slice());
        let re_val = de.bin_read_integer().unwrap();
        assert_eq!(val, re_val);
        assert_eq!(de.position(), written);
    }
}

#[test]
fn integer_wire_forms() {
    assert_eq!(integer::serialize(0), vec![0x00]);
    assert_eq!(integer::serialize(1), vec![0x01]);
    assert_eq!(integer::serialize(-1), vec![0xff, 0xff]);
    assert_eq!(integer::serialize(127), vec![0x7f]);
    assert_eq!(integer::serialize(128), vec![0xfe, 0x80, 0x00]);
    assert_eq!(integer::serialize(2_147_483_647), vec![0xfd, 0xff, 0xff, 0xff, 0x7f]);
    assert_eq!(integer::serialize(-2_147_483_648), vec![0xfd, 0x00, 0x00, 0x00, 0x80]);
    assert_eq!(integer::serialize(-128), vec![0xff, 0x80]);
    assert_eq!(integer::serialize(-129), vec![0xfe, 0x7f, 0xff]);
    assert_eq!(integer::serialize(0x1234), vec![0xfe, 0x34, 0x12]);
    assert_eq!(integer::serialize(-0x1234), vec![0xfe, 0xcc, 0xed]);
    assert_eq!(integer::serialize(0x1234_5678), vec![0xfd, 0x78, 0x56, 0x34, 0x12]);
    assert_eq!(integer::serialize(-0x1234_5678), vec![0xfd, 0x88, 0xa9, 0xcb, 0xed]);
    assert_eq!(
        integer::serialize(0x0123_4567_89ab_cdef),
        vec![0xfc, 0xef, 0xcd, 0xab, 0x89, 0x67, 0x45, 0x23, 0x01]
    );
    assert_eq!(
        integer::serialize(-0x0123_4567_89ab_cdef),
        vec![0xfc, 0x11, 0x32, 0x54, 0x76, 0x98, 0xba, 0xdc, 0xfe]
    );
    assert_eq!(
        integer::serialize(i64::MIN),
        vec![0xfc, 0, 0, 0, 0, 0, 0, 0, 0x80]
    );
    assert_eq!(
        integer::serialize(i64::MAX),
        vec![0xfc, 0xff, 0xff, 0xff, 0xff, 0xff, 0xff, 0xff, 0x7f]
    );
}

#[test]
fn size_windows_of_the_integer_encoding() {
    let boundaries: [i64; 6] = [0x80, 0x8000, 0x8000_0000, -0x80, -0x8000, -0x8000_0000];
    for boundary in boundaries {
        for v in [boundary - 1, boundary, boundary + 1] {
            assert_eq!(integer::serialize(v).len(), expected_size(v), "{}", v);
        }
    }
    assert_eq!(integer::serialize(0x7f).len(), 1);
    assert_eq!(integer::serialize(0x80).len(), 3);
    assert_eq!(integer::serialize(0x7fff).len(), 3);
    assert_eq!(integer::serialize(0x8000).len(), 5);
    assert_eq!(integer::serialize(0x7fff_ffff).len(), 5);
    assert_eq!(integer::serialize(0x8000_0000).len(), 9);
    assert_eq!(integer::serialize(-1).len(), 2);
    assert_eq!(integer::serialize(-0x80).len(), 2);
    assert_eq!(integer::serialize(-0x81).len(), 3);
    assert_eq!(integer::serialize(-0x8000).len(), 3);
    assert_eq!(integer::serialize(-0x8001).len(), 5);
    assert_eq!(integer::serialize(-0x8000_0000).len(), 5);
    assert_eq!(integer::serialize(-0x8000_0001).len(), 9);
}

#[test]
fn the_same_integer_gives_the_same_bytes() {
    for v in [0i64, -1, 300, -70_000, i64::MAX] {
        assert_eq!(integer::serialize(v), integer::serialize(v));
        let mut a = vec![1, 2, 3];
        let mut b = vec![1, 2, 3];
        a.write_binprot_integer(v);
        b.bin_write_integer(v);
        assert_eq!(a, b);
        assert_eq!(&a[3..], integer::serialize(v).as_slice());
    }
}

#[test]
fn nat0_wire_forms() {
    assert_eq!(nat0::serialize(0), vec![0x00]);
    assert_eq!(nat0::serialize(0x7f), vec![0x7f]);
    assert_eq!(nat0::serialize(0x80), vec![0xfe, 0x80, 0x00]);
    assert_eq!(nat0::serialize(0xffff), vec![0xfe, 0xff, 0xff]);
    assert_eq!(nat0::serialize(0x1_0000), vec![0xfd, 0x00, 0x00, 0x01, 0x00]);
    assert_eq!(nat0::serialize(0xffff_ffff), vec![0xfd, 0xff, 0xff, 0xff, 0xff]);
    assert_eq!(
        nat0::serialize(0x1_0000_0000),
        vec![0xfc, 0x00, 0x00, 0x00, 0x00, 0x01, 0x00, 0x00, 0x00]
    );
    assert_eq!(nat0::serialize(u64::MAX), vec![0xfc, 0xff, 0xff, 0xff, 0xff, 0xff, 0xff, 0xff, 0xff]);
    let mut out = vec![];
    out.write_binprot_nat0(0x1234);
    assert_eq!(out.bin_write_nat0(0x1234), 3);
    assert_eq!(out, vec![0xfe, 0x34, 0x12, 0xfe, 0x34, 0x12]);
}

#[test]
fn nat0_round_trips() {
    for v in [0u64, 1, 0x7f, 0x80, 0xff, 0x100, 0xffff, 0x1_0000, 0xffff_ffff, 0x1_0000_0000, u64::MAX] {
        let mut bytes = nat0::serialize(v);
        assert_eq!(nat0::deserialize(&bytes), Ok(v));
        assert_eq!(Nat0::new(v).serialize(), bytes);
        assert_eq!(Nat0::deserialize(&bytes).unwrap().take(), v);
        let used = bytes.len();
        bytes.push(0x55);
        assert_eq!(read_nat0(&bytes), Ok((v, used)));
        let mut de = Deserializer::from_slice(&bytes);
        assert_eq!(de.read_binprot_nat0(), Ok(v));
        assert_eq!(de.position(), used);
    }
    assert_eq!(Nat0::from(77usize).take(), 77);
}

#[test]
fn integers_decode_from_any_field_wide_enough() {
    // a decoder takes a field as it stands, shortest form or not
    assert_eq!(integer::deserialize(&[0xfe, 0x05, 0x00]), Ok(5));
    assert_eq!(integer::deserialize(&[0xfd, 0xff, 0xff, 0xff, 0xff]), Ok(-1));
    assert_eq!(integer::deserialize(&[0xfc, 0xfe, 0xff, 0xff, 0xff, 0xff, 0xff, 0xff, 0xff]), Ok(-2));
    assert_eq!(nat0::deserialize(&[0xfd, 0x05, 0x00, 0x00, 0x00]), Ok(5));
    assert_eq!(read_integer(&[0x05, 0x06]), Ok((5, 1)));
}

#[test]
fn malformed_integers_are_refused() {
    let eof = |at| Err(Error::Eval(ErrorCode::EofWhileParsing, at));
    assert_eq!(integer::deserialize(&[]), eof(0));
    assert_eq!(integer::deserialize(&[0xfe, 0x01]), eof(1));
    assert_eq!(integer::deserialize(&[0xfd, 0x01, 0x02, 0x03]), eof(1));
    assert_eq!(integer::deserialize(&[0xfc, 1, 2, 3, 4, 5, 6, 7]), eof(1));
    assert_eq!(integer::deserialize(&[0xff]), eof(1));
    assert_eq!(nat0::deserialize(&[]), Err(Error::Eval(ErrorCode::EofWhileParsing, 0)));
    assert_eq!(
        nat0::deserialize(&[0xfe, 0x01]),
        Err(Error::Eval(ErrorCode::EofWhileParsing, 1))
    );
    for prefix in [0x80u8, 0x81, 0xc0, 0xfb] {
        assert_eq!(
            integer::deserialize(&[prefix, 0, 0]),
            Err(Error::Eval(ErrorCode::InvalidIntegerPrefix, 1))
        );
        assert_eq!(
            nat0::deserialize(&[prefix, 0, 0]),
            Err(Error::Eval(ErrorCode::InvalidIntegerPrefix, 1))
        );
    }
    // the prefix of a negative byte is no prefix of a natural number
    assert_eq!(
        nat0::deserialize(&[0xff, 0xff]),
        Err(Error::Eval(ErrorCode::InvalidIntegerPrefix, 1))
    );
    // and what follows it in an integer must be negative
    assert_eq!(
        integer::deserialize(&[0xff, 0x05]),
        Err(Error::Eval(ErrorCode::IntegerSizeMismatch, 2))
    );
    assert_eq!(integer::deserialize(&[0xff, 0x80]), Ok(-128));
}

#[test]
fn integers_are_fitted_to_the_width_asked_for() {
    fn reader(bytes: &[u8]) -> Deserializer<'_> {
        Deserializer::from_slice(bytes)
    }
    let mismatch = |at| Error::Eval(ErrorCode::IntegerSizeMismatch, at);
    let small = integer::serialize(127);
    let byte = integer::serialize(255);
    let minus = integer::serialize(-1);
    let wide = integer::serialize(70_000);
    let huge = integer::serialize(5_000_000_000);
    let deep = integer::serialize(-5_000_000_000);

    assert_eq!(reader(&small).deserialize_i8(), Ok(127));
    assert_eq!(reader(&byte).deserialize_i8(), Err(mismatch(3)));
    assert_eq!(reader(&minus).deserialize_i8(), Ok(-1));
    assert_eq!(reader(&integer::serialize(-128)).deserialize_i8(), Ok(-128));
    assert_eq!(reader(&integer::serialize(-129)).deserialize_i8(), Err(mismatch(3)));

    assert_eq!(reader(&byte).deserialize_u8(), Ok(255));
    assert_eq!(reader(&integer::serialize(256)).deserialize_u8(), Err(mismatch(3)));
    assert_eq!(reader(&minus).deserialize_u8(), Err(mismatch(2)));

    assert_eq!(reader(&integer::serialize(32_767)).deserialize_i16(), Ok(32_767));
    assert_eq!(reader(&integer::serialize(32_768)).deserialize_i16(), Err(mismatch(5)));
    assert_eq!(reader(&integer::serialize(-32_768)).deserialize_i16(), Ok(-32_768));

    assert_eq!(reader(&integer::serialize(65_535)).deserialize_u16(), Ok(65_535));
    assert_eq!(reader(&wide).deserialize_u16(), Err(mismatch(5)));
    assert_eq!(reader(&minus).deserialize_u16(), Err(mismatch(2)));

    assert_eq!(reader(&wide).deserialize_i32(), Ok(70_000));
    assert_eq!(reader(&huge).deserialize_i32(), Err(mismatch(9)));
    assert_eq!(reader(&deep).deserialize_i32(), Err(mismatch(9)));
    assert_eq!(reader(&integer::serialize(-2_147_483_648)).deserialize_i32(), Ok(-2_147_483_648));

    assert_eq!(reader(&integer::serialize(4_294_967_295)).deserialize_u32(), Ok(4_294_967_295));
    assert_eq!(reader(&huge).deserialize_u32(), Err(mismatch(9)));
    assert_eq!(reader(&minus).deserialize_u32(), Err(mismatch(2)));

    assert_eq!(reader(&huge).deserialize_i64(), Ok(5_000_000_000));
    assert_eq!(reader(&deep).deserialize_i64(), Ok(-5_000_000_000));
    assert_eq!(reader(&huge).deserialize_u64(), Ok(5_000_000_000));
    assert_eq!(reader(&deep).deserialize_u64(), Err(mismatch(9)));
    assert_eq!(reader(&minus).deserialize_u64(), Err(mismatch(2)));
}

#[test]
fn unsigned_integers_go_through_the_signed_encoding() {
    let written = |v: u64| {
        let mut ser = Serializer::new(vec![]);
        ser.serialize_u64(v).unwrap();
        ser.into_inner()
    };
    assert_eq!(written(5), vec![0x05]);
    assert_eq!(written(i64::MAX as u64), integer::serialize(i64::MAX));
    // beyond the largest signed number the 64 bits read as a negative one
    assert_eq!(written(u64::MAX), integer::serialize(-1));
    assert_eq!(written(1 << 63), integer::serialize(i64::MIN));
    let mut ser = Serializer::new(vec![]);
    ser.serialize_u8(200).unwrap();
    ser.serialize_u16(40_000).unwrap();
    ser.serialize_u32(4_000_000_000).unwrap();
    ser.serialize_i8(-5).unwrap();
    ser.serialize_i16(-500).unwrap();
    ser.serialize_i32(-50_000).unwrap();
    let bytes = ser.into_inner();
    let mut de = Deserializer::from_slice(&bytes);
    assert_eq!(de.deserialize_u8(), Ok(200));
    assert_eq!(de.deserialize_u16(), Ok(40_000));
    assert_eq!(de.deserialize_u32(), Ok(4_000_000_000));
    assert_eq!(de.deserialize_i8(), Ok(-5));
    assert_eq!(de.deserialize_i16(), Ok(-500));
    assert_eq!(de.deserialize_i32(), Ok(-50_000));
    assert_eq!(de.end(), Ok(()));
}
