use vstd::prelude::*;

use crate::types::{BufferChangeFlags, DocFileStatus, EolType, LangType, UniMode};

verus! {

/// The first index `i >= k` with `s[i] == x`, or `-1` when there is none.
pub open spec fn first_index_from<A>(s: Seq<A>, x: A, k: int) -> int
    decreases s.len() - k,
{
    if k >= s.len() {
        -1
    } else if 0 <= k && s[k] == x {
        k
    } else {
        first_index_from(s, x, k + 1)
    }
}

/// The first index of `x` in `s`, or `-1` when `s` does not hold `x`.
pub open spec fn first_index_of<A>(s: Seq<A>, x: A) -> int {
    first_index_from(s, x, 0)
}

/// `first_index_from` finds the first occurrence at or after `k`.
pub proof fn lemma_first_index_from<A>(s: Seq<A>, x: A, k: int)
    requires
        0 <= k <= s.len(),
    ensures
        ({
            let i = first_index_from(s, x, k);
            &&& i == -1 || (k <= i < s.len() && s[i] == x)
            &&& forall|j: int| k <= j < s.len() && (i == -1 || j < i) ==> s[j] != x
        }),
    decreases s.len() - k,
{
    if k < s.len() && s[k] != x {
        lemma_first_index_from(s, x, k + 1);
    }
}

/// `first_index_of` finds the first occurrence, and finds none exactly when
/// `s` does not hold `x`.
pub proof fn lemma_first_index_of<A>(s: Seq<A>, x: A)
    ensures
        ({
            let i = first_index_of(s, x);
            &&& (i == -1) == !s.contains(x)
            &&& i != -1 ==> (0 <= i < s.len() && s[i] == x && forall|j: int|
                0 <= j < i ==> s[j] != x)
        }),
{
    lemma_first_index_from(s, x, 0);
    let i = first_index_of(s, x);
    if i == -1 {
        assert(!s.contains(x));
    } else {
        assert(s.contains(x)) by {
            assert(s[i] == x);
        }
    }
}

/// Stable identifier of a buffer; 0 means "no buffer".
#[derive(Clone, Copy, Debug, PartialEq, Eq, Structural, Hash)]
pub struct BufferId(pub u64);

impl Default for BufferId {
    fn default() -> (r: Self)
        ensures
            r.0 == 0,
    {
        BufferId(0)
    }
}

impl BufferId {
    /// The identifier meaning "no buffer".
    pub fn invalid() -> (r: BufferId)
        ensures
            r.0 == 0,
    {
        BufferId(0)
    }

    /// Whether this identifier names a buffer (is not 0).
    pub fn is_valid(self) -> (r: bool)
        ensures
            r == (self.0 != 0),
    {
        self.0 != 0
    }
}

/// Saved caret and scroll position within one view.
#[derive(Debug)]
pub struct Position {
    /// Byte offset of the caret in the document.
    pub caret: i64,
    /// First visible line (scroll position).
    pub top_line: i64,
    /// Horizontal scroll offset in pixels.
    pub x_offset: i32,
    /// Byte offset of the selection anchor.
    pub anchor: i64,
    /// Column of the caret (for sticky column tracking).
    pub column: i32,
}

/// The position of a view that has saved none: all zero.
pub open spec fn default_position() -> Position {
    Position { caret: 0, top_line: 0, x_offset: 0, anchor: 0, column: 0 }
}

impl Clone for Position {
    fn clone(&self) -> (r: Self)
        ensures
            r == *self,
    {
        Position {
            caret: self.caret,
            top_line: self.top_line,
            x_offset: self.x_offset,
            anchor: self.anchor,
            column: self.column,
        }
    }
}

impl Default for Position {
    fn default() -> (r: Self)
        ensures
            r == default_position(),
    {
        Position { caret: 0, top_line: 0, x_offset: 0, anchor: 0, column: 0 }
    }
}


/// Document-state record of one open file.
///
/// `positions`, `fold_states` and `referee_ids` are parallel: entry `i` of
/// each belongs to the view registered as `referee_ids[i]`.
#[derive(Debug)]
pub struct BufferState {
    /// Stable identifier assigned at construction.
    pub id: BufferId,
    /// Full path of the file on disk.
    pub full_path: String,
    /// Syntax-highlighting language assigned to this buffer.
    pub lang: LangType,
    /// User-defined language name (meaningful when `lang` is `LangType::User`).
    pub user_lang_ext: String,
    /// Whether the in-memory document differs from the file on disk.
    pub is_dirty: bool,
    /// End-of-line convention of the document.
    pub eol_format: EolType,
    /// Code page in use; `-1` when `unicode_mode` decides the encoding.
    pub encoding: i32,
    /// Unicode mode, authoritative when `encoding` is `-1`.
    pub unicode_mode: UniMode,
    /// Read-only flag set by the user.
    pub is_user_read_only: bool,
    /// Read-only flag of the file on disk.
    pub is_file_read_only: bool,
    /// Relationship between this buffer and its backing file.
    pub current_status: DocFileStatus,
    /// Whether the backing file is on a network share.
    pub is_from_network: bool,
    /// Whether the buffer must be reloaded on next activation.
    pub need_reloading: bool,
    /// Whether the lexer must re-scan the document on next display.
    pub need_lexer: bool,
    /// Whether the user set the language from the menu.
    pub has_lang_been_set_from_menu: bool,
    /// Whether the buffer was loaded from a very large file.
    pub is_large_file: bool,
    /// Whether the buffer stays dirty until saved after an encoding conversion.
    pub is_save_point_dirty: bool,
    /// Whether the buffer is out of sync with its file on disk.
    pub is_unsync: bool,
    /// Whether the file was absent when first loaded.
    pub is_inaccessible: bool,
    /// Whether the user renamed this buffer's tab.
    pub is_untitled_tab_renamed: bool,
    /// Whether this buffer was loaded dirty.
    pub is_loaded_dirty: bool,
    /// Saved position per registered view.
    pub positions: Vec<Position>,
    /// Fold state per registered view.
    pub fold_states: Vec<Vec<usize>>,
    /// Identifiers of the registered views.
    pub referee_ids: Vec<u64>,
    /// Recency tag used by the recent-file list; -1 when unset.
    pub recent_tag: i64,
    /// Colour slot of this buffer's tab indicator; -1 when none.
    pub doc_color_id: i32,
    /// Path of the auto-backup file, empty when none exists.
    pub backup_file_name: String,
    /// Whether the file on disk was modified externally since load.
    pub is_modified: bool,
    /// Right-to-left reading direction.
    pub is_rtl: bool,
    /// Whether this buffer's tab is pinned.
    pub is_pinned: bool,
}

impl BufferState {
    /// The per-view vectors are parallel.
    pub open spec fn wf(&self) -> bool {
        &&& self.positions@.len() == self.referee_ids@.len()
        &&& self.fold_states@.len() == self.referee_ids@.len()
    }

    /// Index of the view `referee_id` in the per-view vectors, or `-1`.
    pub open spec fn reference_index(&self, referee_id: u64) -> int {
        first_index_of(self.referee_ids@, referee_id)
    }

    /// `self` is the state of a buffer just created with the given identity,
    /// path, status and size flag: every other property has its default.
    pub open spec fn is_fresh(
        &self,
        id: BufferId,
        full_path: Seq<char>,
        initial_status: DocFileStatus,
        is_large_file: bool,
    ) -> bool {
        &&& self.id == id
        &&& self.full_path@ == full_path
        &&& self.lang == LangType::Text
        &&& self.user_lang_ext@ == Seq::<char>::empty()
        &&& !self.is_dirty
        &&& self.eol_format == EolType::Windows
        &&& self.encoding == -1
        &&& self.unicode_mode == UniMode::Utf8NoBom
        &&& !self.is_user_read_only
        &&& !self.is_file_read_only
        &&& self.current_status == initial_status
        &&& !self.is_from_network
        &&& !self.need_reloading
        &&& !self.need_lexer
        &&& !self.has_lang_been_set_from_menu
        &&& self.is_large_file == is_large_file
        &&& !self.is_save_point_dirty
        &&& !self.is_unsync
        &&& !self.is_inaccessible
        &&& !self.is_untitled_tab_renamed
        &&& !self.is_loaded_dirty
        &&& self.positions@ == Seq::<Position>::empty()
        &&& self.fold_states@ == Seq::<Vec<usize>>::empty()
        &&& self.referee_ids@ == Seq::<u64>::empty()
        &&& self.recent_tag == -1
        &&& self.doc_color_id == -1
        &&& self.backup_file_name@ == Seq::<char>::empty()
        &&& !self.is_modified
        &&& !self.is_rtl
        &&& !self.is_pinned
    }

    /// Create the state of a new buffer: the given identity, path, status
    /// and size flag, no registered view, and defaults elsewhere (text
    /// language, clean, Windows line endings, encoding -1 with UTF-8 without
    /// BOM, not read-only, recency tag and colour -1).
    pub fn new(
        id: BufferId,
        full_path: &str,
        initial_status: DocFileStatus,
        is_large_file: bool,
    ) -> (r: Self)
        ensures
            r.is_fresh(id, full_path@, initial_status, is_large_file),
            r.wf(),
    {
        BufferState {
            id,
            full_path: full_path.to_owned(),
            lang: LangType::Text,
            user_lang_ext: String::new(),
            is_dirty: false,
            eol_format: EolType::default(),
            encoding: -1,
            unicode_mode: UniMode::Utf8NoBom,
            is_user_read_only: false,
            is_file_read_only: false,
            current_status: initial_status,
            is_from_network: false,
            need_reloading: false,
            need_lexer: false,
            has_lang_been_set_from_menu: false,
            is_large_file,
            is_save_point_dirty: false,
            is_unsync: false,
            is_inaccessible: false,
            is_untitled_tab_renamed: false,
            is_loaded_dirty: false,
            positions: Vec::new(),
            fold_states: Vec::new(),
            referee_ids: Vec::new(),
            recent_tag: -1,
            doc_color_id: -1,
            backup_file_name: String::new(),
            is_modified: false,
            is_rtl: false,
            is_pinned: false,
        }
    }

    /// Whether the user or the file system marked this buffer read-only.
    pub fn is_read_only(&self) -> (r: bool)
        ensures
            r == (self.is_user_read_only || self.is_file_read_only),
    {
        self.is_user_read_only || self.is_file_read_only
    }

    /// Whether the buffer has never been saved.
    pub fn is_untitled(&self) -> (r: bool)
        ensures
            r == (self.current_status == DocFileStatus::Unnamed),
    {
        self.current_status == DocFileStatus::Unnamed
    }

    /// Mark the document dirty or clean; reports the dirty flag as changed.
    pub fn set_dirty(&mut self, dirty: bool) -> (r: BufferChangeFlags)
        ensures
            *final(self) == (BufferState { is_dirty: dirty, ..*old(self) }),
            r.0 == 0x002,
    {
        self.is_dirty = dirty;
        BufferChangeFlags::dirty()
    }

    /// Set the code page (`-1` hands authority back to `unicode_mode`);
    /// reports the encoding and the dirty flag as changed.
    pub fn set_encoding(&mut self, encoding: i32) -> (r: BufferChangeFlags)
        ensures
            *final(self) == (BufferState { encoding: encoding, ..*old(self) }),
            r.0 == 0x00A,
    {
        self.encoding = encoding;
        let r = BufferChangeFlags::unicode() | BufferChangeFlags::dirty();
        assert(0x008u32 | 0x002u32 == 0x00Au32) by (bit_vector);
        r
    }

    /// Set the Unicode mode; reports the encoding and the dirty flag as changed.
    pub fn set_unicode_mode(&mut self, mode: UniMode) -> (r: BufferChangeFlags)
        ensures
            *final(self) == (BufferState { unicode_mode: mode, ..*old(self) }),
            r.0 == 0x00A,
    {
        self.unicode_mode = mode;
        let r = BufferChangeFlags::unicode() | BufferChangeFlags::dirty();
        assert(0x008u32 | 0x002u32 == 0x00Au32) by (bit_vector);
        r
    }

    /// Set the end-of-line convention; reports the format as changed.
    pub fn set_eol_format(&mut self, format: EolType) -> (r: BufferChangeFlags)
        ensures
            *final(self) == (BufferState { eol_format: format, ..*old(self) }),
            r.0 == 0x004,
    {
        self.eol_format = format;
        BufferChangeFlags::format()
    }

    /// Set the syntax language.  Setting the language the buffer already has
    /// changes nothing and reports no change, unless it is `LangType::User`.
    /// Otherwise the language is set, the user language name is taken for
    /// `LangType::User`, code page 437 is forced for `LangType::Ascii`, the
    /// lexer is scheduled, and the language and lexing are reported as changed.
    #[verifier::rlimit(60)]
    pub fn set_lang_type(&mut self, lang: LangType, user_lang_name: &str) -> (r: BufferChangeFlags)
        ensures
            lang == old(self).lang && lang != LangType::User ==> r.0 == 0 && *final(self) == *old(self),
            lang != old(self).lang || lang == LangType::User ==> r.0 == 0x201,
            lang != old(self).lang || lang == LangType::User ==> *final(self) == (BufferState {
                lang: lang,
                need_lexer: true,
                encoding: final(self).encoding,
                user_lang_ext: final(self).user_lang_ext,
                ..*old(self)
            }),
            lang != old(self).lang || lang == LangType::User ==> final(self).encoding == (if lang
                == LangType::Ascii {
                437
            } else {
                old(self).encoding
            }),
            lang == LangType::User ==> final(self).user_lang_ext@ == user_lang_name@,
            lang != LangType::User ==> final(self).user_lang_ext == old(self).user_lang_ext,
    {
        let is_user = matches!(lang, LangType::User);
        if lang == self.lang && !is_user {
            return BufferChangeFlags::none();
        }
        self.lang = lang;
        if is_user {
            self.user_lang_ext = user_lang_name.to_owned();
        } else if matches!(lang, LangType::Ascii) {
            self.encoding = 437;
        }
        self.need_lexer = true;
        assert(0x001u32 | 0x200u32 == 0x201u32) by (bit_vector);
        BufferChangeFlags::language() | BufferChangeFlags::lexing()
    }

    /// Register view `referee_id` with this buffer, with a default position
    /// and no folds, unless it is registered already; returns the number of
    /// registered views.
    pub fn add_reference(&mut self, referee_id: u64) -> (r: usize)
        ensures
            old(self).referee_ids@.contains(referee_id) ==> *final(self) == *old(self),
            !old(self).referee_ids@.contains(referee_id) ==> {
                &&& final(self).referee_ids@ == old(self).referee_ids@.push(referee_id)
                &&& final(self).positions@ == old(self).positions@.push(default_position())
                &&& final(self).fold_states@.len() == old(self).fold_states@.len() + 1
                &&& final(self).fold_states@.drop_last() == old(self).fold_states@
                &&& final(self).fold_states@.last()@ == Seq::<usize>::empty()
                &&& *final(self) == (BufferState {
                    referee_ids: final(self).referee_ids,
                    positions: final(self).positions,
                    fold_states: final(self).fold_states,
                    ..*old(self)
                })
            },
            old(self).wf() ==> final(self).wf(),
            r == final(self).referee_ids@.len(),
    {
        proof {
            lemma_first_index_of(self.referee_ids@, referee_id);
        }
        if self.index_of_reference(referee_id).is_none() {
            self.referee_ids.push(referee_id);
            self.positions.push(Position::default());
            self.fold_states.push(Vec::new());
            assert(self.fold_states@.drop_last() =~= old(self).fold_states@);
        }
        self.referee_ids.len()
    }

    /// Unregister view `referee_id` (its first registration), dropping its
    /// position and folds; returns the number of views still registered.
    pub fn remove_reference(&mut self, referee_id: u64) -> (r: usize)
        requires
            old(self).reference_index(referee_id) < old(self).positions@.len(),
            old(self).reference_index(referee_id) < old(self).fold_states@.len(),
        ensures
            !old(self).referee_ids@.contains(referee_id) ==> *final(self) == *old(self),
            old(self).referee_ids@.contains(referee_id) ==> {
                let i = old(self).reference_index(referee_id);
                &&& final(self).referee_ids@ == old(self).referee_ids@.remove(i)
                &&& final(self).positions@ == old(self).positions@.remove(i)
                &&& final(self).fold_states@ == old(self).fold_states@.remove(i)
                &&& *final(self) == (BufferState {
                    referee_ids: final(self).referee_ids,
                    positions: final(self).positions,
                    fold_states: final(self).fold_states,
                    ..*old(self)
                })
            },
            old(self).wf() ==> final(self).wf(),
            r == final(self).referee_ids@.len(),
    {
        proof {
            lemma_first_index_of(self.referee_ids@, referee_id);
        }
        if let Some(idx) = self.index_of_reference(referee_id) {
            self.referee_ids.remove(idx);
            self.positions.remove(idx);
            self.fold_states.remove(idx);
        }
        self.referee_ids.len()
    }

    /// Save the position of view `referee_id`; nothing changes when the view
    /// is not registered.
    pub fn set_position(&mut self, referee_id: u64, pos: Position)
        requires
            old(self).reference_index(referee_id) < old(self).positions@.len(),
        ensures
            !old(self).referee_ids@.contains(referee_id) ==> *final(self) == *old(self),
            old(self).referee_ids@.contains(referee_id) ==> {
                &&& final(self).positions@ == old(self).positions@.update(
                    old(self).reference_index(referee_id),
                    pos,
                )
                &&& *final(self) == (BufferState { positions: final(self).positions, ..*old(self) })
            },
            old(self).wf() ==> final(self).wf(),
    {
        proof {
            lemma_first_index_of(self.referee_ids@, referee_id);
        }
        if let Some(idx) = self.index_of_reference(referee_id) {
            self.positions.set(idx, pos);
        }
    }

    /// The saved position of view `referee_id`, or `None` when the view is
    /// not registered.
    pub fn get_position(&self, referee_id: u64) -> (r: Option<&Position>)
        requires
            self.reference_index(referee_id) < self.positions@.len(),
        ensures
            r == (if self.referee_ids@.contains(referee_id) {
                Some(&self.positions@[self.reference_index(referee_id)])
            } else {
                None
            }),
    {
        proof {
            lemma_first_index_of(self.referee_ids@, referee_id);
        }
        match self.index_of_reference(referee_id) {
            Some(idx) => Some(&self.positions[idx]),
            None => None,
        }
    }

    /// Save the fold state of view `referee_id`; nothing changes when the
    /// view is not registered.
    pub fn set_fold_state(&mut self, referee_id: u64, folds: Vec<usize>)
        requires
            old(self).reference_index(referee_id) < old(self).fold_states@.len(),
        ensures
            !old(self).referee_ids@.contains(referee_id) ==> *final(self) == *old(self),
            old(self).referee_ids@.contains(referee_id) ==> {
                &&& final(self).fold_states@ == old(self).fold_states@.update(
                    old(self).reference_index(referee_id),
                    folds,
                )
                &&& *final(self) == (BufferState {
                    fold_states: final(self).fold_states,
                    ..*old(self)
                })
            },
            old(self).wf() ==> final(self).wf(),
    {
        proof {
            lemma_first_index_of(self.referee_ids@, referee_id);
        }
        if let Some(idx) = self.index_of_reference(referee_id) {
            self.fold_states.set(idx, folds);
        }
    }

    /// The fold state of view `referee_id`, or `None` when the view is not
    /// registered.
    pub fn get_fold_state(&self, referee_id: u64) -> (r: Option<&Vec<usize>>)
        requires
            self.reference_index(referee_id) < self.fold_states@.len(),
        ensures
            r == (if self.referee_ids@.contains(referee_id) {
                Some(&self.fold_states@[self.reference_index(referee_id)])
            } else {
                None
            }),
    {
        proof {
            lemma_first_index_of(self.referee_ids@, referee_id);
        }
        match self.index_of_reference(referee_id) {
            Some(idx) => Some(&self.fold_states[idx]),
            None => None,
        }
    }

    /// Index of the first registration of view `referee_id`.
    fn index_of_reference(&self, referee_id: u64) -> (r: Option<usize>)
        ensures
            r is None <==> self.reference_index(referee_id) == -1,
            r matches Some(i) ==> i as int == self.reference_index(referee_id),
    {
        let n = self.referee_ids.len();
        let mut i: usize = 0;
        while i < n
            invariant
                n == self.referee_ids@.len(),
                0 <= i <= n,
                self.reference_index(referee_id) == first_index_from(
                    self.referee_ids@,
                    referee_id,
                    i as int,
                ),
            decreases n - i,
        {
            if self.referee_ids[i] == referee_id {
                return Some(i);
            }
            i += 1;
        }
        None
    }

    /// Set the user read-only flag; reports the read-only state as changed.
    pub fn set_user_read_only(&mut self, ro: bool) -> (r: BufferChangeFlags)
        ensures
            *final(self) == (BufferState { is_user_read_only: ro, ..*old(self) }),
            r.0 == 0x010,
    {
        self.is_user_read_only = ro;
        BufferChangeFlags::readonly()
    }

    /// Set the file-system read-only flag; reports the read-only state as changed.
    pub fn set_file_read_only(&mut self, ro: bool) -> (r: BufferChangeFlags)
        ensures
            *final(self) == (BufferState { is_file_read_only: ro, ..*old(self) }),
            r.0 == 0x010,
    {
        self.is_file_read_only = ro;
        BufferChangeFlags::readonly()
    }

    /// Mark the buffer clean and schedule a reload on next activation;
    /// reports the dirty flag as changed.
    pub fn set_deferred_reload(&mut self) -> (r: BufferChangeFlags)
        ensures
            *final(self) == (BufferState { is_dirty: false, need_reloading: true, ..*old(self) }),
            r.0 == 0x002,
    {
        self.is_dirty = false;
        self.need_reloading = true;
        BufferChangeFlags::dirty()
    }
}


/// The number of dirty buffers in `bufs`.
pub open spec fn count_dirty(bufs: Seq<BufferState>) -> nat
    decreases bufs.len(),
{
    if bufs.len() == 0 {
        0
    } else {
        count_dirty(bufs.drop_last()) + if bufs.last().is_dirty {
            1nat
        } else {
            0nat
        }
    }
}

/// The identifiers of `bufs`, in order.
pub open spec fn buffer_ids(bufs: Seq<BufferState>) -> Seq<BufferId> {
    bufs.map_values(|b: BufferState| b.id)
}

/// The paths of `bufs`, in order.
pub open spec fn buffer_paths(bufs: Seq<BufferState>) -> Seq<Seq<char>> {
    bufs.map_values(|b: BufferState| b.full_path@)
}

/// Identifiers in `bufs` are distinct, none is the invalid identifier 0,
/// and all are below `next_id`, which is not 0.
pub open spec fn buffers_wf(bufs: Seq<BufferState>, next_id: u64) -> bool {
    &&& next_id != 0
    &&& forall|i: int|
        0 <= i < bufs.len() ==> 0 < (#[trigger] bufs[i]).id.0 && bufs[i].id.0 < next_id
    &&& forall|i: int, j: int|
        0 <= i < j < bufs.len() ==> (#[trigger] bufs[i]).id != (#[trigger] bufs[j]).id
}

/// The collection of open buffers, which hands out buffer identifiers.
#[derive(Debug)]
pub struct FileManager {
    buffers: Vec<BufferState>,
    next_id: u64,
}

impl Default for FileManager {
    /// An empty manager, the same as `FileManager::new()`.
    fn default() -> (r: Self)
        ensures
            r.spec_buffers() == Seq::<BufferState>::empty(),
            r.spec_next_id() == 1,
            r.wf(),
    {
        FileManager::new()
    }
}

impl FileManager {
    /// The open buffers, in creation order.
    pub closed spec fn spec_buffers(&self) -> Seq<BufferState> {
        self.buffers@
    }

    /// The identifier the next created buffer receives.
    pub closed spec fn spec_next_id(&self) -> u64 {
        self.next_id
    }

    /// Identifiers are distinct, valid and all below the next identifier.
    pub open spec fn wf(&self) -> bool {
        buffers_wf(self.spec_buffers(), self.spec_next_id())
    }

    /// Index of the first buffer with identifier `id`, or `-1`.
    pub open spec fn buffer_index(&self, id: BufferId) -> int {
        first_index_of(buffer_ids(self.spec_buffers()), id)
    }

    /// Create an empty manager whose first buffer receives identifier 1
    /// (0 is the invalid identifier).
    pub fn new() -> (r: Self)
        ensures
            r.spec_buffers() == Seq::<BufferState>::empty(),
            r.spec_next_id() == 1,
            r.wf(),
    {
        FileManager { buffers: Vec::new(), next_id: 1 }
    }

    /// Create a buffer for `full_path` with the given status and size flag,
    /// append it, and return its identifier, which is the manager's next
    /// identifier; the next identifier then grows by one.
    pub fn create_buffer(
        &mut self,
        full_path: &str,
        initial_status: DocFileStatus,
        is_large_file: bool,
    ) -> (r: BufferId)
        requires
            old(self).spec_next_id() < u64::MAX,
        ensures
            r == BufferId(old(self).spec_next_id()),
            final(self).spec_next_id() == old(self).spec_next_id() + 1,
            final(self).spec_buffers().len() == old(self).spec_buffers().len() + 1,
            final(self).spec_buffers().drop_last() == old(self).spec_buffers(),
            final(self).spec_buffers().last().is_fresh(r, full_path@, initial_status, is_large_file),
            final(self).spec_buffers().last().wf(),
            old(self).wf() ==> final(self).wf() && final(self).buffer_index(r)
                == old(self).spec_buffers().len(),
    {
        let id = BufferId(self.next_id);
        self.next_id += 1;
        self.buffers.push(BufferState::new(id, full_path, initial_status, is_large_file));
        assert(self.buffers@.drop_last() =~= old(self).buffers@);
        proof {
            if old(self).wf() {
                let created = self.buffers@.last();
                assert(self.buffers@ =~= old(self).buffers@.push(created));
                lemma_create_then_find(old(self).buffers@, old(self).next_id, created);
            }
        }
        id
    }

    /// The number of open buffers.
    pub fn buffer_count(&self) -> (r: usize)
        ensures
            r == self.spec_buffers().len(),
    {
        self.buffers.len()
    }

    /// The number of dirty (unsaved) buffers.
    pub fn dirty_buffer_count(&self) -> (r: usize)
        ensures
            r == count_dirty(self.spec_buffers()),
    {
        let n = self.buffers.len();
        let mut count: usize = 0;
        let mut i: usize = 0;
        assert(self.buffers@.take(0) =~= Seq::<BufferState>::empty());
        while i < n
            invariant
                n == self.buffers@.len(),
                0 <= i <= n,
                count <= i,
                count == count_dirty(self.buffers@.take(i as int)),
            decreases n - i,
        {
            assert(self.buffers@.take(i + 1).drop_last() =~= self.buffers@.take(i as int));
            if self.buffers[i].is_dirty {
                count += 1;
            }
            i += 1;
        }
        assert(self.buffers@.take(n as int) =~= self.buffers@);
        count
    }

    /// The first buffer with identifier `id`, or `None`.
    pub fn get_buffer(&self, id: BufferId) -> (r: Option<&BufferState>)
        ensures
            r == (if self.buffer_index(id) == -1 {
                None
            } else {
                Some(&self.spec_buffers()[self.buffer_index(id)])
            }),
            self.wf() && id.0 == 0 ==> r is None,
    {
        proof {
            lemma_first_index_of(buffer_ids(self.buffers@), id);
            if self.wf() {
                lemma_invalid_id_absent(self.buffers@, self.next_id);
            }
        }
        match self.index_of(id) {
            Some(i) => Some(&self.buffers[i]),
            None => None,
        }
    }

    /// The buffer at 0-based position `index` in creation order, or `None`.
    pub fn get_buffer_by_index(&self, index: usize) -> (r: Option<&BufferState>)
        ensures
            r == (if index < self.spec_buffers().len() {
                Some(&self.spec_buffers()[index as int])
            } else {
                None
            }),
    {
        if index < self.buffers.len() {
            Some(&self.buffers[index])
        } else {
            None
        }
    }

    /// The first buffer whose full path is `path`, or `None`.
    pub fn get_buffer_by_path(&self, path: &str) -> (r: Option<&BufferState>)
        ensures
            ({
                let i = first_index_of(buffer_paths(self.spec_buffers()), path@);
                r == (if i == -1 {
                    None
                } else {
                    Some(&self.spec_buffers()[i])
                })
            }),
    {
        let wanted = path.to_owned();
        let n = self.buffers.len();
        let mut i: usize = 0;
        let ghost paths = buffer_paths(self.buffers@);
        proof {
            lemma_first_index_of(paths, path@);
        }
        while i < n
            invariant
                n == self.buffers@.len(),
                paths == buffer_paths(self.buffers@),
                wanted@ == path@,
                0 <= i <= n,
                first_index_of(paths, path@) == first_index_from(paths, path@, i as int),
            decreases n - i,
        {
            assert(paths[i as int] == self.buffers@[i as int].full_path@);
            if self.buffers[i].full_path == wanted {
                return Some(&self.buffers[i]);
            }
            i += 1;
        }
        None
    }

    /// Remove the first buffer with identifier `id`; returns whether one was
    /// found.
    pub fn remove_buffer(&mut self, id: BufferId) -> (r: bool)
        ensures
            r == (old(self).buffer_index(id) != -1),
            r ==> final(self).spec_buffers() == old(self).spec_buffers().remove(
                old(self).buffer_index(id),
            ),
            !r ==> final(self).spec_buffers() == old(self).spec_buffers(),
            final(self).spec_next_id() == old(self).spec_next_id(),
            old(self).wf() ==> final(self).wf() && final(self).buffer_index(id) == -1,
    {
        proof {
            lemma_first_index_of(buffer_ids(self.buffers@), id);
        }
        if let Some(idx) = self.index_of(id) {
            proof {
                if old(self).wf() {
                    lemma_remove_then_absent(old(self).buffers@, old(self).next_id, id);
                }
            }
            self.buffers.remove(idx);
            true
        } else {
            false
        }
    }

    /// The identifier that the next created buffer receives.
    pub fn next_buffer_id(&self) -> (r: BufferId)
        ensures
            r.0 == self.spec_next_id(),
    {
        BufferId(self.next_id)
    }

    /// Index of the first buffer with identifier `id`.
    pub fn index_of(&self, id: BufferId) -> (r: Option<usize>)
        ensures
            r is None <==> self.buffer_index(id) == -1,
            r matches Some(i) ==> i as int == self.buffer_index(id),
    {
        let n = self.buffers.len();
        let mut i: usize = 0;
        let ghost ids = buffer_ids(self.buffers@);
        while i < n
            invariant
                n == self.buffers@.len(),
                ids == buffer_ids(self.buffers@),
                0 <= i <= n,
                self.buffer_index(id) == first_index_from(ids, id, i as int),
            decreases n - i,
        {
            assert(ids[i as int] == self.buffers@[i as int].id);
            if self.buffers[i].id == id {
                return Some(i);
            }
            i += 1;
        }
        None
    }

    /// The first buffer with identifier `id`, or `None`.
    pub fn get_buffer_mut(&mut self, id: BufferId) -> (r: Option<&mut BufferState>)
        ensures
            match r {
                Some(b) => {
                    let i = old(self).buffer_index(id);
                    &&& i != -1
                    &&& *b == old(self).spec_buffers()[i]
                    &&& final(self).spec_buffers() == old(self).spec_buffers().update(i, *final(b))
                    &&& final(self).spec_next_id() == old(self).spec_next_id()
                },
                None => {
                    &&& old(self).buffer_index(id) == -1
                    &&& *final(self) == *old(self)
                },
            },
    {
        proof {
            lemma_first_index_of(buffer_ids(self.buffers@), id);
        }
        match self.index_of(id) {
            Some(i) => Some(&mut self.buffers[i]),
            None => None,
        }
    }
}


/// Registering a view that was not registered and then unregistering it
/// restores the per-view vectors: the view is found at the end, and removing
/// that entry gives back the original sequences.
pub proof fn lemma_add_then_remove_reference(
    ids: Seq<u64>,
    positions: Seq<Position>,
    folds: Seq<Vec<usize>>,
    referee_id: u64,
    pos: Position,
    fold: Vec<usize>,
)
    requires
        !ids.contains(referee_id),
        positions.len() == ids.len(),
        folds.len() == ids.len(),
    ensures
        first_index_of(ids.push(referee_id), referee_id) == ids.len(),
        ids.push(referee_id).remove(ids.len() as int) == ids,
        positions.push(pos).remove(ids.len() as int) == positions,
        folds.push(fold).remove(ids.len() as int) == folds,
{
    let pushed = ids.push(referee_id);
    lemma_first_index_of(pushed, referee_id);
    assert(pushed[ids.len() as int] == referee_id);
    let i = first_index_of(pushed, referee_id);
    if 0 <= i < ids.len() {
        assert(pushed[i] == ids[i]);
        assert(ids.contains(referee_id));
    }
    assert(pushed.remove(ids.len() as int) =~= ids);
    assert(positions.push(pos).remove(ids.len() as int) =~= positions);
    assert(folds.push(fold).remove(ids.len() as int) =~= folds);
}

/// After a view is registered it is found among the registered views, so
/// registering it again changes nothing.
pub proof fn lemma_add_reference_idempotent(ids: Seq<u64>, referee_id: u64)
    ensures
        (if ids.contains(referee_id) {
            ids
        } else {
            ids.push(referee_id)
        }).contains(referee_id),
{
    if !ids.contains(referee_id) {
        assert(ids.push(referee_id)[ids.len() as int] == referee_id);
    }
}

/// Reading the position or fold state of a registered view after saving
/// one gives what was saved, and the other views keep theirs; an
/// unregistered view has no entry to read or write.
pub proof fn lemma_view_state_read_after_write(
    b: BufferState,
    referee_id: u64,
    pos: Position,
    folds: Vec<usize>,
)
    requires
        b.reference_index(referee_id) < b.positions@.len(),
        b.reference_index(referee_id) < b.fold_states@.len(),
    ensures
        !b.referee_ids@.contains(referee_id) ==> b.reference_index(referee_id) == -1,
        b.referee_ids@.contains(referee_id) ==> ({
            let i = b.reference_index(referee_id);
            let ps = b.positions@.update(i, pos);
            let fs = b.fold_states@.update(i, folds);
            &&& 0 <= i
            &&& ps[i] == pos
            &&& fs[i] == folds
            &&& forall|j: int| 0 <= j < ps.len() && j != i ==> ps[j] == b.positions@[j]
            &&& forall|j: int| 0 <= j < fs.len() && j != i ==> fs[j] == b.fold_states@[j]
        }),
{
    lemma_first_index_of(b.referee_ids@, referee_id);
}

/// A newly registered view is found at the end of the per-view vectors,
/// where it has the default position and no folds.
pub proof fn lemma_new_view_starts_default(b: BufferState, referee_id: u64, empty: Vec<usize>)
    requires
        b.wf(),
        !b.referee_ids@.contains(referee_id),
        empty@ == Seq::<usize>::empty(),
    ensures
        ({
            let ids = b.referee_ids@.push(referee_id);
            let i = first_index_of(ids, referee_id);
            &&& i == b.referee_ids@.len()
            &&& b.positions@.push(default_position())[i] == default_position()
            &&& b.fold_states@.push(empty)[i]@ == Seq::<usize>::empty()
        }),
{
    let ids = b.referee_ids@.push(referee_id);
    lemma_first_index_of(ids, referee_id);
    assert(ids[b.referee_ids@.len() as int] == referee_id);
    let i = first_index_of(ids, referee_id);
    if 0 <= i < b.referee_ids@.len() {
        assert(ids[i] == b.referee_ids@[i]);
        assert(b.referee_ids@.contains(referee_id));
    }
}

/// Creating a buffer in a well-formed manager keeps it well formed, and the
/// new identifier then finds the new (last) buffer.
pub proof fn lemma_create_then_find(bufs: Seq<BufferState>, next_id: u64, created: BufferState)
    requires
        buffers_wf(bufs, next_id),
        next_id < u64::MAX,
        created.id == BufferId(next_id),
    ensures
        buffers_wf(bufs.push(created), (next_id + 1) as u64),
        first_index_of(buffer_ids(bufs.push(created)), BufferId(next_id)) == bufs.len(),
{
    let after = bufs.push(created);
    let ids = buffer_ids(after);
    assert forall|i: int| 0 <= i < after.len() implies (#[trigger] after[i]).id.0 < (next_id
        + 1) as u64 by {
        if i < bufs.len() {
            assert(after[i] == bufs[i]);
        }
    }
    assert forall|i: int, j: int| 0 <= i < j < after.len() implies (#[trigger] after[i]).id
        != (#[trigger] after[j]).id by {
        assert(after[i] == bufs[i]);
        if j < bufs.len() {
            assert(after[j] == bufs[j]);
        }
    }
    lemma_first_index_of(ids, BufferId(next_id));
    let k = first_index_of(ids, BufferId(next_id));
    assert(ids[bufs.len() as int] == BufferId(next_id));
    if 0 <= k < bufs.len() {
        assert(ids[k] == after[k].id);
        assert(after[k] == bufs[k]);
    }
}

/// Removing a buffer from a well-formed manager keeps it well formed, and
/// its identifier then finds no buffer.
pub proof fn lemma_remove_then_absent(bufs: Seq<BufferState>, next_id: u64, id: BufferId)
    requires
        buffers_wf(bufs, next_id),
        first_index_of(buffer_ids(bufs), id) != -1,
    ensures
        ({
            let after = bufs.remove(first_index_of(buffer_ids(bufs), id));
            &&& buffers_wf(after, next_id)
            &&& first_index_of(buffer_ids(after), id) == -1
        }),
{
    let ids = buffer_ids(bufs);
    lemma_first_index_of(ids, id);
    let k = first_index_of(ids, id);
    let after = bufs.remove(k);
    assert(bufs[k].id == id);
    assert forall|i: int| 0 <= i < after.len() implies (#[trigger] after[i]).id.0 < next_id by {
        if i < k {
            assert(after[i] == bufs[i]);
        } else {
            assert(after[i] == bufs[i + 1]);
        }
    }
    assert forall|i: int, j: int| 0 <= i < j < after.len() implies (#[trigger] after[i]).id
        != (#[trigger] after[j]).id by {
        let oi = if i < k { i } else { i + 1 };
        let oj = if j < k { j } else { j + 1 };
        assert(after[i] == bufs[oi]);
        assert(after[j] == bufs[oj]);
    }
    lemma_first_index_of(buffer_ids(after), id);
    let m = first_index_of(buffer_ids(after), id);
    if m != -1 {
        let om = if m < k { m } else { m + 1 };
        assert(buffer_ids(after)[m] == after[m].id);
        assert(after[m] == bufs[om]);
        if om < k {
            assert(ids[om] == id);
        } else {
            assert(bufs[k].id == bufs[om].id);
        }
    }
}

/// In a well-formed manager the invalid identifier 0 finds no buffer.
pub proof fn lemma_invalid_id_absent(bufs: Seq<BufferState>, next_id: u64)
    requires
        buffers_wf(bufs, next_id),
    ensures
        first_index_of(buffer_ids(bufs), BufferId(0)) == -1,
{
    let ids = buffer_ids(bufs);
    lemma_first_index_of(ids, BufferId(0));
    let k = first_index_of(ids, BufferId(0));
    if k != -1 {
        assert(ids[k] == bufs[k].id);
    }
}

/// The dirty count is the number of buffers whose dirty flag is set,
/// whatever their other properties.
pub proof fn lemma_count_dirty_counts_dirty_flags(bufs: Seq<BufferState>)
    ensures
        count_dirty(bufs) == bufs.filter(|b: BufferState| b.is_dirty).len(),
    decreases bufs.len(),
{
    reveal(Seq::filter);
    let f = |b: BufferState| b.is_dirty;
    if bufs.len() > 0 {
        lemma_count_dirty_counts_dirty_flags(bufs.drop_last());
        let sub = bufs.drop_last().filter(f);
        assert(bufs.filter(f) == (if f(bufs.last()) {
            sub.push(bufs.last())
        } else {
            sub
        }));
    } else {
        assert(bufs.filter(f) == bufs);
    }
}

/// Look-up by path finds the first buffer whose full path is `path`,
/// whatever its other properties, and finds none exactly when no buffer
/// has that path.
pub proof fn lemma_lookup_by_path(bufs: Seq<BufferState>, path: Seq<char>)
    ensures
        ({
            let i = first_index_of(buffer_paths(bufs), path);
            &&& (i == -1) == !(exists|j: int| 0 <= j < bufs.len() && #[trigger] bufs[j].full_path@
                == path)
            &&& i != -1 ==> {
                &&& 0 <= i < bufs.len()
                &&& bufs[i].full_path@ == path
                &&& forall|j: int| 0 <= j < i ==> #[trigger] bufs[j].full_path@ != path
            }
        }),
{
    let paths = buffer_paths(bufs);
    lemma_first_index_of(paths, path);
    assert forall|j: int| 0 <= j < bufs.len() implies paths[j] == #[trigger] bufs[j].full_path@ by {}
    let i = first_index_of(paths, path);
    if i == -1 {
        assert forall|j: int| 0 <= j < bufs.len() implies #[trigger] bufs[j].full_path@ != path by {
            assert(paths[j] == bufs[j].full_path@);
        }
    } else {
        assert(paths[i] == bufs[i].full_path@);
        assert forall|j: int| 0 <= j < i implies #[trigger] bufs[j].full_path@ != path by {
            assert(paths[j] == bufs[j].full_path@);
        }
    }
}

/// Look-up by identifier finds the first buffer with identifier `id`, and
/// finds none exactly when no buffer has that identifier.
pub proof fn lemma_lookup_by_id(bufs: Seq<BufferState>, id: BufferId)
    ensures
        ({
            let i = first_index_of(buffer_ids(bufs), id);
            &&& (i == -1) == !(exists|j: int| 0 <= j < bufs.len() && #[trigger] bufs[j].id == id)
            &&& i != -1 ==> {
                &&& 0 <= i < bufs.len()
                &&& bufs[i].id == id
                &&& forall|j: int| 0 <= j < i ==> #[trigger] bufs[j].id != id
            }
        }),
{
    let ids = buffer_ids(bufs);
    lemma_first_index_of(ids, id);
    let i = first_index_of(ids, id);
    if i == -1 {
        assert forall|j: int| 0 <= j < bufs.len() implies #[trigger] bufs[j].id != id by {
            assert(ids[j] == bufs[j].id);
        }
    } else {
        assert(ids[i] == bufs[i].id);
        assert forall|j: int| 0 <= j < i implies #[trigger] bufs[j].id != id by {
            assert(ids[j] == bufs[j].id);
        }
    }
}

} // verus!
