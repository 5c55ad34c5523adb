use npp_buffer::encoding_mapper::{alias_matches, EncodingMapper, ENCODING_CODE_PAGES};

#[test]
fn get_encoding_from_index_first_entry() {
    assert_eq!(EncodingMapper::get_encoding_from_index(0), 1250);
}

#[test]
fn get_encoding_from_index_out_of_range() {
    assert_eq!(EncodingMapper::get_encoding_from_index(-1), -1);
    assert_eq!(EncodingMapper::get_encoding_from_index(9999), -1);
}

#[test]
fn get_index_from_encoding_known() {
    let idx = EncodingMapper::get_index_from_encoding(1252);
    assert_eq!(idx, 2);
}

#[test]
fn get_index_from_encoding_negative_one() {
    assert_eq!(EncodingMapper::get_index_from_encoding(-1), -1);
}

#[test]
fn get_encoding_from_string_utf8() {
    assert_eq!(EncodingMapper::get_encoding_from_string("utf-8"), 65001);
    assert_eq!(EncodingMapper::get_encoding_from_string("UTF-8"), 65001);
    assert_eq!(EncodingMapper::get_encoding_from_string("utf8"), 65001);
}

#[test]
fn get_encoding_from_string_iso8859() {
    assert_eq!(EncodingMapper::get_encoding_from_string("ISO-8859-1"), 28591);
    assert_eq!(EncodingMapper::get_encoding_from_string("latin1"), 28591);
    assert_eq!(EncodingMapper::get_encoding_from_string("csISOLatin1"), 28591);
}

#[test]
fn get_encoding_from_string_case_insensitive() {
    assert_eq!(EncodingMapper::get_encoding_from_string("WINDOWS-1250"), 1250);
}

#[test]
fn get_encoding_from_string_unknown() {
    assert_eq!(EncodingMapper::get_encoding_from_string("nonexistent"), -1);
    assert_eq!(EncodingMapper::get_encoding_from_string(""), -1);
}

#[test]
fn alias_matches_basic() {
    assert!(alias_matches("latin1", "latin1 ISO_8859-1 ISO-8859-1"));
    assert!(alias_matches("ISO-8859-1", "latin1 ISO_8859-1 ISO-8859-1"));
    assert!(!alias_matches("utf-8", "latin1 ISO_8859-1 ISO-8859-1"));
}

#[test]
fn roundtrip_index_encoding() {
    for (i, code_page) in ENCODING_CODE_PAGES.iter().enumerate() {
        if *code_page != -1 {
            let enc = EncodingMapper::get_encoding_from_index(i as i32);
            let idx = EncodingMapper::get_index_from_encoding(enc);
            assert_eq!(idx, i as i32, "roundtrip failed for entry {i}");
        }
    }
}

#[test]
fn encoding_roundtrip_from_code_page() {
    for code_page in [1250, 28605, 437, 869, 950, 20866] {
        let idx = EncodingMapper::get_index_from_encoding(code_page);
        assert_eq!(EncodingMapper::get_encoding_from_index(idx), code_page);
    }
    assert_eq!(EncodingMapper::get_index_from_encoding(65001), -1);
    assert_eq!(EncodingMapper::get_index_from_encoding(20866), 48);
    assert_eq!(EncodingMapper::get_encoding_from_index(48), 20866);
    assert_eq!(EncodingMapper::get_encoding_from_index(49), -1);
    assert_eq!(EncodingMapper::get_encoding_from_index(18), -1);
}

#[test]
fn alias_words_and_whitespace() {
    assert!(!alias_matches("", "latin1"));
    assert!(!alias_matches("latin1", ""));
    assert!(alias_matches("b", "  a\tb\n"));
    assert!(!alias_matches("a b", "a b"));
    assert!(!alias_matches("latin", "latin1"));
    assert!(alias_matches("KOI8_R", "koi8_r csKOI8R"));
    assert!(alias_matches("é", "x é"));
}

#[test]
fn encoding_from_string_other_entries() {
    assert_eq!(EncodingMapper::get_encoding_from_string("cp437"), 437);
    assert_eq!(EncodingMapper::get_encoding_from_string("KOI8_U"), 21866);
    assert_eq!(EncodingMapper::get_encoding_from_string("shift_jis"), 932);
    assert_eq!(EncodingMapper::get_encoding_from_string("l1"), 28591);
    assert_eq!(EncodingMapper::get_encoding_from_string("utf-16"), -1);
}

#[test]
fn encoding_from_string_ignores_ascii_case() {
    for (a, b) in [("iso-8859-15", "ISO-8859-15"), ("Big5", "BIG5"), ("Utf-8", "uTF-8"), ("nOpE", "NoPe")] {
        assert_eq!(
            EncodingMapper::get_encoding_from_string(a),
            EncodingMapper::get_encoding_from_string(b)
        );
    }
    assert_eq!(EncodingMapper::get_encoding_from_string("BIG5"), 950);
}
