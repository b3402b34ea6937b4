use bin_prot::value::layout::BinProtRule;
use bin_prot::value::ser::to_writer;
use bin_prot::{from_reader_with_layout, Value};

// An array of known length is a row of elements with no count before it.
fn roundtrip_array(elements: &[i32]) {
    let value = Value::Tuple(elements.iter().map(|v| Value::Int(*v as i64)).collect());
    let layout = BinProtRule::Tuple(elements.iter().map(|_| BinProtRule::Int32).collect());
    let mut output = Vec::<u8>::new();
    to_writer(&mut output, &value, &layout).unwrap();
    let total: usize = elements
        .iter()
        .map(|v| bin_prot::integers::integer::serialize(*v as i64).len())
        .sum();
    assert_eq!(output.len(), total);
    let re_val = from_reader_with_layout(output.as_slice(), layout, true).unwrap();
    assert_eq!(value, re_val)
}

#[test]
fn test_roundtrip_arrays() {
    let test_case: [i32; 0] = [];
    roundtrip_array(&test_case);
    let test_case = [0i32];
    roundtrip_array(&test_case);
    let test_case = [0i32, 1];
    roundtrip_array(&test_case);
    let test_case = [1i32, -1];
    roundtrip_array(&test_case);
    let test_case = [0i32, 2147483647];
    roundtrip_array(&test_case);
    let test_case = [2147483647i32, -2147483648];
    roundtrip_array(&test_case);
}
