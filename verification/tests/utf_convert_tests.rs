use npp_buffer::types::UniMode;
use npp_buffer::utf_convert::{
    bom_for, classify_utf8, detect_encoding_from_bom, utf16_to_utf8, utf8_to_utf16_be,
    utf8_to_utf16_le, Utf8Class,
};

#[test]
fn bom_utf8() {
    assert_eq!(detect_encoding_from_bom(&[0xEF, 0xBB, 0xBF, b'H']), Some(UniMode::Utf8));
}

#[test]
fn bom_utf16_be() {
    assert_eq!(detect_encoding_from_bom(&[0xFE, 0xFF, 0x00, b'H']), Some(UniMode::Utf16BE));
}

#[test]
fn bom_utf16_le() {
    assert_eq!(detect_encoding_from_bom(&[0xFF, 0xFE, b'H', 0x00]), Some(UniMode::Utf16LE));
}

#[test]
fn bom_none() {
    assert_eq!(detect_encoding_from_bom(b"Hello"), None);
    assert_eq!(detect_encoding_from_bom(b""), None);
}

#[test]
fn classify_pure_ascii() {
    assert_eq!(classify_utf8(b"Hello, world!"), Utf8Class::Ascii7Bit);
    assert_eq!(classify_utf8(b""), Utf8Class::Ascii7Bit);
}

#[test]
fn classify_valid_utf8() {
    let bytes: &[u8] = &[0x48, 0xC3, 0xA9, 0x6C, 0x6C, 0x6F];
    assert_eq!(classify_utf8(bytes), Utf8Class::ValidUtf8);
}

#[test]
fn classify_nul_is_raw() {
    assert_eq!(classify_utf8(&[0x41, 0x00, 0x42]), Utf8Class::Raw8Bit);
}

#[test]
fn classify_raw_8bit() {
    assert_eq!(classify_utf8(&[0x41, 0x80, 0x42]), Utf8Class::Raw8Bit);
}

#[test]
fn utf16_le_to_utf8_ascii() {
    let input: &[u8] = &[b'H', 0x00, b'i', 0x00];
    let result = utf16_to_utf8(input, false).unwrap();
    assert_eq!(result, b"Hi");
}

#[test]
fn utf16_be_to_utf8_ascii() {
    let input: &[u8] = &[0x00, b'H', 0x00, b'i'];
    let result = utf16_to_utf8(input, true).unwrap();
    assert_eq!(result, b"Hi");
}

#[test]
fn utf8_to_utf16_le_roundtrip() {
    let original = "Hello, 世界!";
    let utf16 = utf8_to_utf16_le(original.as_bytes()).unwrap();
    let back = utf16_to_utf8(&utf16, false).unwrap();
    assert_eq!(back, original.as_bytes());
}

#[test]
fn utf8_to_utf16_be_roundtrip() {
    let original = "Héllo";
    let utf16 = utf8_to_utf16_be(original.as_bytes()).unwrap();
    let back = utf16_to_utf8(&utf16, true).unwrap();
    assert_eq!(back, original.as_bytes());
}

#[test]
fn utf16_surrogate_pair() {
    let input: &[u8] = &[0x3D, 0xD8, 0x00, 0xDE];
    let result = utf16_to_utf8(input, false).unwrap();
    assert_eq!(result, "\u{1F600}".as_bytes());
}

#[test]
fn utf16_odd_length_returns_none() {
    assert!(utf16_to_utf8(&[0x48], false).is_none());
}

#[test]
fn bom_for_utf8() {
    assert_eq!(bom_for(UniMode::Utf8), &[0xEF, 0xBB, 0xBF]);
}

#[test]
fn bom_for_ansi_empty() {
    assert_eq!(bom_for(UniMode::Ansi8Bit), &[] as &[u8]);
}

#[test]
fn bom_for_utf16_and_detect_back() {
    assert_eq!(bom_for(UniMode::Utf16BE), &[0xFE, 0xFF]);
    assert_eq!(bom_for(UniMode::Utf16LE), &[0xFF, 0xFE]);
    assert!(bom_for(UniMode::Utf8NoBom).is_empty());
    assert!(bom_for(UniMode::Utf16LENoBom).is_empty());
    for mode in [UniMode::Utf8, UniMode::Utf16BE, UniMode::Utf16LE] {
        let mut data = bom_for(mode).to_vec();
        data.extend_from_slice(&[0xFE, 0xFF, 0x41]);
        assert_eq!(detect_encoding_from_bom(&data), Some(mode));
        assert_eq!(detect_encoding_from_bom(bom_for(mode)), Some(mode));
    }
    assert_eq!(detect_encoding_from_bom(&[0xEF, 0xBB]), None);
}

#[test]
fn classify_multibyte_forms() {
    assert_eq!(classify_utf8("€".as_bytes()), Utf8Class::ValidUtf8);
    assert_eq!(classify_utf8("\u{1F600}".as_bytes()), Utf8Class::ValidUtf8);
    // truncated sequences
    assert_eq!(classify_utf8(&[0xE2, 0x82]), Utf8Class::Raw8Bit);
    assert_eq!(classify_utf8(&[0xC3]), Utf8Class::Raw8Bit);
    assert_eq!(classify_utf8(&[0xF0, 0x9F, 0x98]), Utf8Class::Raw8Bit);
    // lead bytes 0xF8 and above lead no sequence
    assert_eq!(classify_utf8(&[0xF8, 0x80, 0x80, 0x80, 0x80]), Utf8Class::Raw8Bit);
    // overlong forms, surrogates and values beyond U+10FFFF are not UTF-8
    assert_eq!(classify_utf8(&[0xC0, 0x80]), Utf8Class::Raw8Bit);
    assert_eq!(classify_utf8(&[0xE0, 0x80, 0x80]), Utf8Class::Raw8Bit);
    assert_eq!(classify_utf8(&[0xED, 0xA0, 0x80]), Utf8Class::Raw8Bit);
    assert_eq!(classify_utf8(&[0xF0, 0x80, 0x80, 0x80]), Utf8Class::Raw8Bit);
    assert_eq!(classify_utf8(&[0xF4, 0x90, 0x80, 0x80]), Utf8Class::Raw8Bit);
    // the largest scalar and the last value before the surrogates are valid
    assert_eq!(classify_utf8(&[0xF4, 0x8F, 0xBF, 0xBF]), Utf8Class::ValidUtf8);
    assert_eq!(classify_utf8(&[0xED, 0x9F, 0xBF]), Utf8Class::ValidUtf8);
}

#[test]
fn utf16_unpaired_surrogates() {
    // lone low surrogate
    assert!(utf16_to_utf8(&[0x00, 0xDC], false).is_none());
    // high surrogate at the end
    assert!(utf16_to_utf8(&[0x41, 0x00, 0x3D, 0xD8], false).is_none());
    // high surrogate followed by a non-surrogate
    assert!(utf16_to_utf8(&[0x3D, 0xD8, 0x41, 0x00], false).is_none());
    assert_eq!(utf16_to_utf8(&[], false).unwrap(), Vec::<u8>::new());
}

#[test]
fn utf16_to_utf8_multibyte_values() {
    // U+00E9 and U+20AC, little-endian
    let out = utf16_to_utf8(&[0xE9, 0x00, 0xAC, 0x20], false).unwrap();
    assert_eq!(out, vec![0xC3, 0xA9, 0xE2, 0x82, 0xAC]);
    // U+1F600, big-endian
    let out = utf16_to_utf8(&[0xD8, 0x3D, 0xDE, 0x00], true).unwrap();
    assert_eq!(out, vec![0xF0, 0x9F, 0x98, 0x80]);
}

#[test]
fn utf8_to_utf16_exact_bytes() {
    assert_eq!(utf8_to_utf16_le("Aé€".as_bytes()).unwrap(), vec![0x41, 0x00, 0xE9, 0x00, 0xAC, 0x20]);
    assert_eq!(utf8_to_utf16_be("Aé€".as_bytes()).unwrap(), vec![0x00, 0x41, 0x00, 0xE9, 0x20, 0xAC]);
    assert_eq!(utf8_to_utf16_le("\u{1F600}".as_bytes()).unwrap(), vec![0x3D, 0xD8, 0x00, 0xDE]);
    assert_eq!(utf8_to_utf16_be("\u{1F600}".as_bytes()).unwrap(), vec![0xD8, 0x3D, 0xDE, 0x00]);
    assert!(utf8_to_utf16_le(b"").unwrap().is_empty());
}

#[test]
fn utf8_to_utf16_rejects_invalid() {
    assert!(utf8_to_utf16_le(&[0xC3]).is_err());
    assert!(utf8_to_utf16_be(&[0xFF, 0x41]).is_err());
    // overlong and surrogate encodings are not UTF-8
    assert!(utf8_to_utf16_le(&[0xC0, 0x80]).is_err());
    assert!(utf8_to_utf16_le(&[0xED, 0xA0, 0x80]).is_err());
}

#[test]
fn utf16_to_utf8_then_back() {
    let le: &[u8] = &[0x48, 0x00, 0x3D, 0xD8, 0x00, 0xDE, 0xE9, 0x00];
    let utf8 = utf16_to_utf8(le, false).unwrap();
    assert_eq!(utf8_to_utf16_le(&utf8).unwrap(), le);
    let be: &[u8] = &[0x00, 0x48, 0xD8, 0x3D, 0xDE, 0x00, 0x00, 0xE9];
    let utf8 = utf16_to_utf8(be, true).unwrap();
    assert_eq!(utf8_to_utf16_be(&utf8).unwrap(), be);
}

#[test]
fn raw_exactly_when_nul_or_unconvertible() {
    for s in ["", "plain", "Héllo", "世界", "\u{1F600}x"] {
        assert_ne!(classify_utf8(s.as_bytes()), Utf8Class::Raw8Bit);
        assert!(utf8_to_utf16_le(s.as_bytes()).is_ok());
    }
    for b in [&[0x41u8, 0x00][..], &[0xC3][..], &[0xC1, 0xBF][..], &[0xED, 0xBF, 0xBF][..]] {
        assert_eq!(classify_utf8(b), Utf8Class::Raw8Bit);
    }
    assert!(utf8_to_utf16_le(&[0x41, 0x00]).is_ok());
}

#[test]
fn utf8_to_utf16_error_is_from_utf8_error() {
    for b in [&[0xC3][..], &[0x41, 0xFF, 0x42][..], &[0x61, 0xED, 0xA0, 0x80][..]] {
        let expected = core::str::from_utf8(b).unwrap_err();
        assert_eq!(utf8_to_utf16_le(b).unwrap_err(), expected);
        assert_eq!(utf8_to_utf16_be(b).unwrap_err(), expected);
    }
    assert_eq!(utf8_to_utf16_le(&[0x41, 0xFF, 0x42]).unwrap_err().valid_up_to(), 1);
}

#[test]
fn big_endian_is_little_endian_swapped() {
    for s in ["Hé", "A\u{1F600}€", ""] {
        let le = utf8_to_utf16_le(s.as_bytes()).unwrap();
        let be = utf8_to_utf16_be(s.as_bytes()).unwrap();
        assert_eq!(le.len(), be.len());
        for k in 0..le.len() / 2 {
            assert_eq!(be[2 * k], le[2 * k + 1]);
            assert_eq!(be[2 * k + 1], le[2 * k]);
        }
    }
    assert_eq!(utf8_to_utf16_be("Hé".as_bytes()).unwrap(), vec![0x00, 0x48, 0x00, 0xE9]);
}
