use npp_buffer::buffer::{BufferId, FileManager, Position};
use npp_buffer::types::{BufferChangeFlags, DocFileStatus, EolType, LangType, SavingStatus, UniMode};

fn make_manager() -> FileManager {
    FileManager::new()
}

#[test]
fn create_and_look_up_buffer() {
    let mut fm = make_manager();
    let id = fm.create_buffer("/tmp/hello.txt", DocFileStatus::Regular, false);
    assert!(id.is_valid());
    let buf = fm.get_buffer(id).unwrap();
    assert_eq!(buf.full_path, "/tmp/hello.txt");
    assert!(!buf.is_dirty);
}

#[test]
fn buffer_id_invalid_sentinel() {
    let fm = make_manager();
    assert!(fm.get_buffer(BufferId::invalid()).is_none());
}

#[test]
fn dirty_count() {
    let mut fm = make_manager();
    let id1 = fm.create_buffer("/a.txt", DocFileStatus::Regular, false);
    let id2 = fm.create_buffer("/b.txt", DocFileStatus::Regular, false);
    assert_eq!(fm.dirty_buffer_count(), 0);

    fm.get_buffer_mut(id1).unwrap().set_dirty(true);
    assert_eq!(fm.dirty_buffer_count(), 1);

    fm.get_buffer_mut(id2).unwrap().set_dirty(true);
    assert_eq!(fm.dirty_buffer_count(), 2);
}

#[test]
fn remove_buffer() {
    let mut fm = make_manager();
    let id = fm.create_buffer("/x.txt", DocFileStatus::Regular, false);
    assert_eq!(fm.buffer_count(), 1);
    assert!(fm.remove_buffer(id));
    assert_eq!(fm.buffer_count(), 0);
    assert!(!fm.remove_buffer(id));
}

#[test]
fn reference_management() {
    let mut fm = make_manager();
    let id = fm.create_buffer("/r.txt", DocFileStatus::Regular, false);
    let buf = fm.get_buffer_mut(id).unwrap();

    let view_a: u64 = 0xDEAD;
    let view_b: u64 = 0xBEEF;

    assert_eq!(buf.add_reference(view_a), 1);
    assert_eq!(buf.add_reference(view_b), 2);
    assert_eq!(buf.add_reference(view_a), 2);

    assert_eq!(buf.remove_reference(view_a), 1);
    assert_eq!(buf.remove_reference(view_b), 0);
}

#[test]
fn set_lang_noop_for_same_lang() {
    let mut fm = make_manager();
    let id = fm.create_buffer("/code.py", DocFileStatus::Regular, false);
    let buf = fm.get_buffer_mut(id).unwrap();

    buf.set_lang_type(LangType::Python, "");
    assert!(buf.need_lexer);

    buf.need_lexer = false;

    let flags = buf.set_lang_type(LangType::Python, "");
    assert_eq!(flags, BufferChangeFlags::none());
    assert!(!buf.need_lexer);
}

#[test]
fn set_lang_ascii_forces_cp437() {
    let mut fm = make_manager();
    let id = fm.create_buffer("/old.txt", DocFileStatus::Regular, false);
    let buf = fm.get_buffer_mut(id).unwrap();
    buf.set_lang_type(LangType::Ascii, "");
    assert_eq!(buf.encoding, 437);
}

#[test]
fn saving_status_ok() {
    assert_eq!(SavingStatus::Saved, SavingStatus::Saved);
    assert_ne!(SavingStatus::Saved, SavingStatus::OpenFailed);
}

#[test]
fn new_buffer_has_defaults() {
    let mut fm = make_manager();
    let id = fm.create_buffer("/n.txt", DocFileStatus::Unnamed, true);
    assert_eq!(id, BufferId(1));
    let buf = fm.get_buffer(id).unwrap();
    assert_eq!(buf.id, id);
    assert_eq!(buf.lang, LangType::Text);
    assert_eq!(buf.eol_format, EolType::Windows);
    assert_eq!(buf.encoding, -1);
    assert_eq!(buf.unicode_mode, UniMode::Utf8NoBom);
    assert_eq!(buf.current_status, DocFileStatus::Unnamed);
    assert!(buf.is_large_file);
    assert!(buf.is_untitled());
    assert!(!buf.is_read_only());
    assert_eq!(buf.recent_tag, -1);
    assert_eq!(buf.doc_color_id, -1);
    assert!(buf.referee_ids.is_empty());
    assert!(buf.user_lang_ext.is_empty());
    assert!(buf.backup_file_name.is_empty());
}

#[test]
fn ids_increase_from_one() {
    let mut fm = make_manager();
    let a = fm.create_buffer("/a", DocFileStatus::Regular, false);
    let b = fm.create_buffer("/b", DocFileStatus::Regular, false);
    let c = fm.create_buffer("/c", DocFileStatus::Regular, false);
    assert_eq!((a.0, b.0, c.0), (1, 2, 3));
    assert_eq!(fm.index_of(b), Some(1));
    assert_eq!(fm.get_buffer_by_index(2).unwrap().id, c);
    assert!(fm.get_buffer_by_index(3).is_none());
    assert_eq!(fm.get_buffer_by_path("/b").unwrap().id, b);
    assert!(fm.get_buffer_by_path("/d").is_none());
}

#[test]
fn default_manager_starts_at_one() {
    let mut fm = FileManager::default();
    assert_eq!(fm.next_buffer_id(), BufferId(1));
    let id = fm.create_buffer("/z", DocFileStatus::Regular, false);
    assert_eq!(id, BufferId(1));
    assert!(id.is_valid());
    assert!(fm.get_buffer(BufferId::invalid()).is_none());
    assert_eq!(fm.next_buffer_id(), BufferId(2));
}

#[test]
fn invalid_id_never_found() {
    let mut fm = make_manager();
    for p in ["/a", "/b", "/c"] {
        fm.create_buffer(p, DocFileStatus::Regular, false);
        assert!(fm.get_buffer(BufferId::invalid()).is_none());
    }
    let b = fm.create_buffer("/d", DocFileStatus::Unnamed, false);
    assert!(fm.remove_buffer(b));
    assert!(fm.get_buffer(BufferId::invalid()).is_none());
    assert!(!fm.remove_buffer(BufferId::invalid()));
}

#[test]
fn other_views_keep_their_state() {
    let mut fm = make_manager();
    let id = fm.create_buffer("/w", DocFileStatus::Regular, false);
    let buf = fm.get_buffer_mut(id).unwrap();
    buf.add_reference(1);
    buf.add_reference(2);
    assert!(buf.get_fold_state(2).unwrap().is_empty());
    buf.set_position(1, Position { caret: 9, top_line: 1, x_offset: 0, anchor: 9, column: 4 });
    buf.set_fold_state(1, vec![3]);
    let other = buf.get_position(2).unwrap();
    assert_eq!((other.caret, other.top_line, other.column), (0, 0, 0));
    assert!(buf.get_fold_state(2).unwrap().is_empty());
    assert_eq!(buf.get_position(1).unwrap().caret, 9);
    assert_eq!(buf.get_fold_state(1).unwrap(), &vec![3]);
    assert!(buf.get_fold_state(3).is_none());
}

#[test]
fn remove_then_lookup_is_absent() {
    let mut fm = make_manager();
    let a = fm.create_buffer("/a", DocFileStatus::Regular, false);
    let b = fm.create_buffer("/b", DocFileStatus::Regular, false);
    assert!(fm.remove_buffer(a));
    assert!(fm.get_buffer(a).is_none());
    assert_eq!(fm.index_of(b), Some(0));
    assert!(fm.get_buffer_mut(a).is_none());
}

#[test]
fn setters_report_flags() {
    let mut fm = make_manager();
    let id = fm.create_buffer("/s", DocFileStatus::Regular, false);
    let buf = fm.get_buffer_mut(id).unwrap();
    assert_eq!(buf.set_dirty(true).0, 0x002);
    assert!(buf.is_dirty);
    assert_eq!(buf.set_encoding(1252).0, 0x00A);
    assert_eq!(buf.encoding, 1252);
    assert_eq!(buf.set_unicode_mode(UniMode::Utf16LE).0, 0x00A);
    assert_eq!(buf.unicode_mode, UniMode::Utf16LE);
    assert_eq!(buf.set_eol_format(EolType::Unix).0, 0x004);
    assert_eq!(buf.eol_format, EolType::Unix);
    assert_eq!(buf.set_user_read_only(true).0, 0x010);
    assert!(buf.is_read_only());
    buf.set_user_read_only(false);
    assert_eq!(buf.set_file_read_only(true).0, 0x010);
    assert!(buf.is_read_only());
    assert_eq!(buf.set_deferred_reload().0, 0x002);
    assert!(!buf.is_dirty);
    assert!(buf.need_reloading);
}

#[test]
fn set_lang_user_takes_name_and_repeats() {
    let mut fm = make_manager();
    let id = fm.create_buffer("/u", DocFileStatus::Regular, false);
    let buf = fm.get_buffer_mut(id).unwrap();
    assert_eq!(buf.set_lang_type(LangType::User, "Markdown").0, 0x201);
    assert_eq!(buf.user_lang_ext, "Markdown");
    buf.need_lexer = false;
    assert_eq!(buf.set_lang_type(LangType::User, "Other").0, 0x201);
    assert_eq!(buf.user_lang_ext, "Other");
    assert!(buf.need_lexer);
    assert_eq!(buf.encoding, -1);
}

#[test]
fn positions_and_folds_read_after_write() {
    let mut fm = make_manager();
    let id = fm.create_buffer("/p", DocFileStatus::Regular, false);
    let buf = fm.get_buffer_mut(id).unwrap();
    assert!(buf.get_position(7).is_none());
    buf.add_reference(7);
    assert_eq!(buf.get_position(7).unwrap().caret, 0);
    let pos = Position { caret: 42, top_line: 3, x_offset: 5, anchor: 40, column: 2 };
    buf.set_position(7, pos);
    let got = buf.get_position(7).unwrap();
    assert_eq!((got.caret, got.top_line, got.x_offset, got.anchor, got.column), (42, 3, 5, 40, 2));
    assert!(buf.get_fold_state(7).unwrap().is_empty());
    buf.set_fold_state(7, vec![1, 5, 9]);
    assert_eq!(buf.get_fold_state(7).unwrap(), &vec![1, 5, 9]);
    buf.set_position(8, Position::default());
    assert!(buf.get_position(8).is_none());
}

#[test]
fn add_then_remove_reference_restores_views() {
    let mut fm = make_manager();
    let id = fm.create_buffer("/v", DocFileStatus::Regular, false);
    let buf = fm.get_buffer_mut(id).unwrap();
    buf.add_reference(1);
    buf.set_fold_state(1, vec![4]);
    assert_eq!(buf.add_reference(2), 2);
    assert_eq!(buf.remove_reference(2), 1);
    assert_eq!(buf.referee_ids, vec![1]);
    assert_eq!(buf.fold_states, vec![vec![4]]);
    assert_eq!(buf.positions.len(), 1);
    assert_eq!(buf.remove_reference(99), 1);
}

#[test]
fn buffer_id_validity() {
    assert!(!BufferId::default().is_valid());
    assert!(BufferId(5).is_valid());
    assert_eq!(BufferId::invalid(), BufferId(0));
}
