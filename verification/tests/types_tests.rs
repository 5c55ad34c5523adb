use npp_buffer::types::{BufferChangeFlags, DocFileStatus, EolType, LangType, SavingStatus, UniMode};

#[test]
fn eol_from_int() {
    assert_eq!(EolType::from_int(0, EolType::Unknown), EolType::Windows);
    assert_eq!(EolType::from_int(1, EolType::Unknown), EolType::MacOs);
    assert_eq!(EolType::from_int(2, EolType::Unknown), EolType::Unix);
    assert_eq!(EolType::from_int(3, EolType::Windows), EolType::Unknown);
    assert_eq!(EolType::from_int(4, EolType::Unix), EolType::Unix);
    assert_eq!(EolType::from_int(-1, EolType::MacOs), EolType::MacOs);
}

#[test]
fn uni_mode_raw_roundtrip() {
    for v in 0u8..8 {
        let m = UniMode::from_raw(v).unwrap();
        assert_eq!(m.to_raw(), v);
    }
    assert_eq!(UniMode::from_raw(4), Some(UniMode::Utf8NoBom));
    assert_eq!(UniMode::from_raw(8), None);
    assert_eq!(UniMode::from_raw(255), None);
}

#[test]
fn doc_file_status_from_u32() {
    assert_eq!(DocFileStatus::from_u32(0x01), Some(DocFileStatus::Regular));
    assert_eq!(DocFileStatus::from_u32(0x02), Some(DocFileStatus::Unnamed));
    assert_eq!(DocFileStatus::from_u32(0x20), Some(DocFileStatus::Inaccessible));
    assert_eq!(DocFileStatus::from_u32(0x03), None);
    assert_eq!(DocFileStatus::from_u32(0), None);
}

#[test]
fn defaults() {
    assert_eq!(EolType::default(), EolType::Windows);
    assert_eq!(UniMode::default(), UniMode::Utf8NoBom);
    assert_eq!(DocFileStatus::default(), DocFileStatus::Regular);
    assert_eq!(LangType::default(), LangType::Text);
    assert!(BufferChangeFlags::default().is_empty());
}

#[test]
fn change_flag_operators() {
    let mut f = BufferChangeFlags::unicode() | BufferChangeFlags::dirty();
    assert_eq!(f.0, 0x00A);
    assert!(!f.is_empty());
    assert_eq!((f & BufferChangeFlags::dirty()).0, 0x002);
    assert!((f & BufferChangeFlags::format()).is_empty());
    f |= BufferChangeFlags::lexing();
    assert_eq!(f.0, 0x20A);
    assert!(BufferChangeFlags::none().is_empty());
    assert_eq!(BufferChangeFlags::language().0, 0x001);
    assert_eq!(BufferChangeFlags::readonly().0, 0x010);
    assert_eq!(BufferChangeFlags::status().0, 0x020);
    assert_eq!(BufferChangeFlags::timestamp().0, 0x040);
    assert_eq!(BufferChangeFlags::filename().0, 0x080);
    assert_eq!(BufferChangeFlags::recent_tag().0, 0x100);
}

#[test]
fn eol_raw_values() {
    for v in 0u8..4 {
        let e = EolType::from_raw(v).unwrap();
        assert_eq!(e.to_raw(), v);
        assert_eq!(EolType::from_int(v as i32, EolType::Unknown), e);
    }
    assert_eq!(EolType::Unix.to_raw(), 2);
    assert_eq!(EolType::from_raw(4), None);
}

#[test]
fn doc_file_status_raw_values() {
    for st in [
        DocFileStatus::Regular,
        DocFileStatus::Unnamed,
        DocFileStatus::Deleted,
        DocFileStatus::Modified,
        DocFileStatus::NeedReload,
        DocFileStatus::Inaccessible,
    ] {
        assert_eq!(DocFileStatus::from_u32(st.to_u32()), Some(st));
    }
    assert_eq!(DocFileStatus::Modified.to_u32(), 0x08);
}

#[test]
fn saving_status_raw_values() {
    assert_eq!(SavingStatus::Saved.to_raw(), 0);
    assert_eq!(SavingStatus::OpenFailed.to_raw(), 1);
    assert_eq!(SavingStatus::WritingFailed.to_raw(), 2);
    assert_eq!(SavingStatus::NotEnoughRoom.to_raw(), 3);
    assert_eq!(SavingStatus::FullReadOnlySavingForbidden.to_raw(), 4);
}

#[test]
fn lang_raw_values() {
    assert_eq!(LangType::Text.to_raw(), 0);
    assert_eq!(LangType::Ascii.to_raw(), 14);
    assert_eq!(LangType::Swift.to_raw(), 64);
    assert_eq!(LangType::Rust.to_raw(), 75);
    assert_eq!(LangType::TypeScript.to_raw(), 85);
    assert_eq!(LangType::Golang.to_raw(), 90);
    assert_eq!(LangType::Toml.to_raw(), 92);
    assert_eq!(LangType::External.to_raw(), 100);
    for v in [0, 15, 22, 57, 64, 75, 85, 90, 92, 100] {
        assert_eq!(LangType::from_raw(v).to_raw(), v);
    }
    assert_eq!(LangType::from_raw(70), LangType::External);
    assert_eq!(LangType::from_raw(-1), LangType::External);
    assert_eq!(LangType::from_raw(22), LangType::Python);
}
