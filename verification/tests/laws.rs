use std::collections::VecDeque;

use serialize_bits::{des::DeserializerData, ser::SerializerData};

#[test]
fn test_char_ascii() {
    let value = 'A';
    let data = value.to_data();
    assert_eq!(vec![65], data);
    assert_eq!((value, 1), char::from_data(&data, 0));
}

#[test]
fn test_char_latin1_round_trip() {
    let value = 'é';
    let data = value.to_data();
    assert_eq!(vec![233], data);
    assert_eq!((value, 1), char::from_data(&data, 0));
}

#[test]
fn test_char_truncates() {
    // 'Ā' is code point 256: the single-byte wire format keeps only the
    // low byte, so it does not survive a round trip.
    let value = 'Ā';
    let data = value.to_data();
    assert_eq!(vec![0], data);
    assert_eq!(('\0', 1), char::from_data(&data, 0));
}

#[test]
fn test_option_none() {
    let value: Option<String> = None;
    let data = value.to_data();
    assert_eq!(vec![0], data);
    assert_eq!((None, 1), Option::<String>::from_data(&data, 0));
}

#[test]
fn test_bool_false() {
    let value = false;
    let data = value.to_data();
    assert_eq!(vec![0], data);
    assert_eq!((false, 1), bool::from_data(&data, 0));
}

#[test]
fn test_bool_other_bytes_decode_false() {
    // The wire contract maps byte 1 to true and every other byte to
    // false; it is a total mapping, not a validated one.
    assert_eq!((false, 1), bool::from_data(&vec![7], 0));
    assert_eq!((true, 2), bool::from_data(&vec![9, 1], 1));
}

#[test]
fn test_empty_vec() {
    let value: Vec<String> = Vec::new();
    let data = value.to_data();
    assert_eq!(vec![0, 0, 0, 0, 0, 0, 0, 0], data);
    let (decoded, next) = Vec::<String>::from_data(&data, 0);
    assert_eq!(0, decoded.len());
    assert_eq!(8, next);
}

#[test]
fn test_empty_vec_deque() {
    let value: VecDeque<u16> = VecDeque::new();
    let data = value.to_data();
    assert_eq!(vec![0, 0, 0, 0, 0, 0, 0, 0], data);
    let (decoded, next) = VecDeque::<u16>::from_data(&data, 0);
    assert_eq!(0, decoded.len());
    assert_eq!(8, next);
}

#[test]
fn test_two_values_back_to_back() {
    let first = 555 as u16;
    let second = String::from("pair");
    let mut data = first.to_data();
    data.append(&mut second.to_data());
    let (a, next) = u16::from_data(&data, 0);
    let (b, end) = String::from_data(&data, next);
    assert_eq!((first, 2), (a, next));
    assert_eq!((second.clone(), 14), (b, end));
    assert_eq!(
        (second, 12),
        String::from_data(&String::from("pair").to_data(), 0)
    );
}

#[test]
fn test_nested_containers() {
    let value = vec![vec![1u8, 2u8], vec![3u8]];
    let data = value.to_data();
    assert_eq!(
        vec![19, 0, 0, 0, 0, 0, 0, 0, 2, 0, 0, 0, 0, 0, 0, 0, 1, 2, 1, 0, 0, 0, 0, 0, 0, 0, 3],
        data
    );
    assert_eq!((value, 27), Vec::<Vec<u8>>::from_data(&data, 0));
}

#[test]
fn test_string_unicode() {
    let value = String::from("é");
    let data = value.to_data();
    assert_eq!(vec![2, 0, 0, 0, 0, 0, 0, 0, 195, 169], data);
    assert_eq!((value, 10), String::from_data(&data, 0));
}

#[test]
fn test_sub_slices_exactly() {
    let data = vec![10u8, 11, 12, 13, 14];
    assert_eq!(vec![11, 12], serialize_bits::des::sub("slice", &data, 1, 2));
    assert_eq!(Vec::<u8>::new(), serialize_bits::des::sub("slice", &data, 3, 0));
}

#[test]
fn test_decode_at_offset() {
    // The cursor returned by a decode is where the next decode starts:
    // decoding from a shared buffer equals decoding from its own buffer.
    let values = vec![980765u64, 42u64];
    let mut data = values[0].to_data();
    data.append(&mut values[1].to_data());
    let (a, next) = u64::from_data(&data, 0);
    let (b, end) = u64::from_data(&data, next);
    assert_eq!((980765u64, 8), (a, next));
    assert_eq!((42u64, 16), (b, end));
}
