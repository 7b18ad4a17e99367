use blurhash::ac;
use blurhash::basis_order;
use blurhash::components;
use blurhash::dc;
use blurhash::decode_quantized;
use blurhash::encode_quantized;
use blurhash::error::Error;

fn ac_terms(n: usize) -> Vec<u16> {
    let mut v: Vec<u16> = Vec::new();
    for i in 0..n {
        v.push(((i * 731 + 17) % 6859) as u16);
    }
    v
}

#[test]
fn size_flag_round_trip_all_counts() {
    for cx in 1u32..=9 {
        for cy in 1u32..=9 {
            let terms = ac_terms((cx * cy - 1) as usize);
            let s = encode_quantized(cx, cy, 41, 1193046, &terms).unwrap();
            assert_eq!(s.len(), (4 + 2 * cx * cy) as usize);
            let (nx, ny) = components(&s).unwrap();
            assert_eq!(nx, cx as usize);
            assert_eq!(ny, cy as usize);
        }
    }
}

#[test]
fn quantized_round_trip() {
    let terms: Vec<u16> = vec![0, 1, 6858, 1234, 5000, 42, 17, 999, 3000, 4500, 77];
    let s = encode_quantized(4, 3, 57, 8574631, &terms).unwrap();
    assert_eq!(s.len(), 28);
    let q = decode_quantized(&s).unwrap();
    assert_eq!(q.components_x, 4);
    assert_eq!(q.components_y, 3);
    assert_eq!(q.quantised_maximum, 57);
    assert_eq!(q.dc_value, 8574631);
    assert_eq!(q.ac_values, terms);
}

#[test]
fn exact_string_for_known_parts() {
    // Flag (2, 2) -> 10 -> 'A'; scale 57 -> 'v'; DC 8574631 -> "E~u,";
    // AC terms 0, 6858, 3000 -> "00", "~q", "aC".
    let terms: Vec<u16> = vec![0, 6858, 3000];
    let s = encode_quantized(2, 2, 57, 8574631, &terms).unwrap();
    assert_eq!(s, "AvE~u,00~qaC");
}

#[test]
fn invalid_component_count() {
    let none: Vec<u16> = Vec::new();
    assert!(matches!(
        encode_quantized(0, 5, 0, 0, &ac_terms(4)),
        Err(Error::InvalidComponentCount)
    ));
    assert!(matches!(
        encode_quantized(10, 1, 0, 0, &ac_terms(9)),
        Err(Error::InvalidComponentCount)
    ));
    assert!(matches!(
        encode_quantized(1, 0, 0, 0, &none),
        Err(Error::InvalidComponentCount)
    ));
}

#[test]
fn minimum_blurhash_has_no_ac_terms() {
    let none: Vec<u16> = Vec::new();
    let s = encode_quantized(1, 1, 0, 0, &none).unwrap();
    assert_eq!(s.len(), 6);
    assert_eq!(s, "000000");
    let q = decode_quantized(&s).unwrap();
    assert_eq!(q.components_x, 1);
    assert_eq!(q.components_y, 1);
    assert_eq!(q.quantised_maximum, 0);
    assert_eq!(q.dc_value, 0);
    assert!(q.ac_values.is_empty());
}

#[test]
fn too_short_is_rejected() {
    assert!(matches!(components(""), Err(Error::TooShort)));
    assert!(matches!(components("LFE.@"), Err(Error::TooShort)));
    assert!(matches!(decode_quantized("~$"), Err(Error::TooShort)));
}

#[test]
fn length_mismatch_is_rejected() {
    // 'L' carries the size flag 21, so (Cx, Cy) = (4, 3) and the string
    // must be 4 + 2 * 12 = 28 characters long.
    let s = encode_quantized(4, 3, 57, 8574631, &ac_terms(11)).unwrap();
    let shorter = &s[..27];
    match components(shorter) {
        Err(Error::LengthMismatch { actual, expected }) => {
            assert_eq!(actual, 27);
            assert_eq!(expected, 28);
        }
        other => panic!("expected a length mismatch, got {:?}", other),
    }
    let mut longer = s.clone();
    longer.push('0');
    match decode_quantized(&longer) {
        Err(Error::LengthMismatch { actual, expected }) => {
            assert_eq!(actual, 29);
            assert_eq!(expected, 28);
        }
        other => panic!("expected a length mismatch, got {:?}", other),
    }
}

#[test]
fn unknown_character_is_rejected() {
    // Correct length for (1, 1), but a character outside the alphabet.
    assert!(matches!(
        decode_quantized("00!000"),
        Err(Error::UnknownCharacter)
    ));
    // A bad size flag is caught before the length check.
    assert!(matches!(
        components("!00000"),
        Err(Error::UnknownCharacter)
    ));
}

#[test]
fn classic_string_header() {
    let s = "LFE.@D9F01_2%L%MIVD*9Goe-;WB";
    let (nx, ny) = components(s).unwrap();
    assert_eq!((nx, ny), (4, 3));
    let q = decode_quantized(s).unwrap();
    assert_eq!(q.components_x, 4);
    assert_eq!(q.components_y, 3);
    assert_eq!(q.ac_values.len(), 11);
}

#[test]
fn size_flag_above_eighty_keeps_decoding() {
    // The flag digit 81 ('}') stands for (Cx, Cy) = (1, 10): not producible
    // by the encoder, but the decoder follows the flag arithmetic.
    let s = "}00000000000000000000000";
    assert_eq!(s.len(), 24);
    let (nx, ny) = components(s).unwrap();
    assert_eq!((nx, ny), (1, 10));
}

#[test]
fn basis_order_is_row_major_x_fastest() {
    assert_eq!(
        basis_order(3, 2),
        vec![(0, 0), (1, 0), (2, 0), (0, 1), (1, 1), (2, 1)]
    );
    assert_eq!(basis_order(1, 1), vec![(0, 0)]);
}

#[test]
fn dc_pack_round_trip() {
    assert_eq!(dc::pack(12, 200, 255), 12 * 65536 + 200 * 256 + 255);
    assert_eq!(dc::unpack(dc::pack(12, 200, 255)), (12, 200, 255));
    assert_eq!(dc::unpack(dc::pack(0, 0, 0)), (0, 0, 0));
    assert_eq!(dc::unpack(dc::pack(255, 255, 255)), (255, 255, 255));
}

#[test]
fn ac_pack_round_trip() {
    assert_eq!(ac::pack(18, 0, 9), 18 * 361 + 9);
    assert_eq!(ac::unpack(6507), (18, 0, 9));
    assert_eq!(ac::unpack(ac::pack(0, 18, 1) as u16), (0, 18, 1));
    assert_eq!(ac::unpack(ac::pack(9, 9, 9) as u16), (9, 9, 9));
    assert_eq!(ac::unpack(0), (0, 0, 0));
}
