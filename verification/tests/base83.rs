use blurhash::base83::decode;
use blurhash::base83::encode;
use blurhash::error::Error;

#[test]
fn encode83() {
    let str = encode(6869, 2);
    assert_eq!(str, "~$");
}

#[test]
fn decode83() {
    let v = decode("~$").unwrap();
    assert_eq!(v, 6869);
}

#[test]
fn alphabet_order() {
    assert_eq!(encode(0, 1), "0");
    assert_eq!(encode(9, 1), "9");
    assert_eq!(encode(10, 1), "A");
    assert_eq!(encode(35, 1), "Z");
    assert_eq!(encode(36, 1), "a");
    assert_eq!(encode(61, 1), "z");
    assert_eq!(encode(62, 1), "#");
    assert_eq!(encode(78, 1), "_");
    assert_eq!(encode(79, 1), "{");
    assert_eq!(encode(82, 1), "~");
}

#[test]
fn round_trip_small_values() {
    assert_eq!(decode(&encode(0, 1)).unwrap(), 0);
    assert_eq!(decode(&encode(82, 1)).unwrap(), 82);
    assert_eq!(decode(&encode(83, 2)).unwrap(), 83);
    assert_eq!(decode(&encode(6888, 2)).unwrap(), 6888);
    assert_eq!(decode(&encode(12345, 4)).unwrap(), 12345);
    assert_eq!(decode(&encode(47458320, 4)).unwrap(), 47458320);
}

#[test]
fn encode_pads_with_leading_zeros() {
    assert_eq!(encode(5, 4), "0005");
    assert_eq!(decode("0005").unwrap(), 5);
}

#[test]
fn encode_truncates_oversized_values() {
    // 84 = 1 * 83 + 1: a single digit keeps only the low digit.
    assert_eq!(encode(84, 1), "1");
    assert_eq!(encode(83, 1), "0");
}

#[test]
fn decode_empty_is_zero() {
    assert_eq!(decode("").unwrap(), 0);
}

#[test]
fn decode_rejects_unknown_character() {
    assert_eq!(decode(" "), Err(Error::UnknownCharacter));
    assert_eq!(decode("12!4"), Err(Error::UnknownCharacter));
    assert_eq!(decode("\u{00e9}"), Err(Error::UnknownCharacter));
}

#[test]
fn decode_rejects_oversized_values() {
    // Fourteen top digits exceed what any machine word holds.
    assert_eq!(decode("~~~~~~~~~~~~~~"), Err(Error::ValueOverflow));
}
