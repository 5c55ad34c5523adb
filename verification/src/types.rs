use vstd::prelude::*;

verus! {

/// End-of-line convention used by a document.
///
/// Raw values, as given by `to_raw`: `Windows` 0, `MacOs` 1, `Unix` 2,
/// `Unknown` 3.
#[derive(Clone, Copy, Debug, PartialEq, Eq, Structural, Hash)]
pub enum EolType {
    /// CR + LF
    Windows,
    /// CR only
    MacOs,
    /// LF only
    Unix,
    /// Convention could not be determined from file content
    Unknown,
}

impl Default for EolType {
    fn default() -> (r: Self)
        ensures
            r == EolType::Windows,
    {
        EolType::Windows
    }
}

/// The raw value of an `EolType`.
pub open spec fn spec_eol_raw(e: EolType) -> u8 {
    match e {
        EolType::Windows => 0,
        EolType::MacOs => 1,
        EolType::Unix => 2,
        EolType::Unknown => 3,
    }
}

/// The `EolType` with raw value `v`; `None` for values of 4 and above.
pub open spec fn spec_eol_from_raw(v: u8) -> Option<EolType> {
    match v {
        0 => Some(EolType::Windows),
        1 => Some(EolType::MacOs),
        2 => Some(EolType::Unix),
        3 => Some(EolType::Unknown),
        _ => None,
    }
}

impl EolType {
    /// The raw value of this convention.
    pub fn to_raw(self) -> (r: u8)
        ensures
            r == spec_eol_raw(self),
    {
        match self {
            EolType::Windows => 0,
            EolType::MacOs => 1,
            EolType::Unix => 2,
            EolType::Unknown => 3,
        }
    }

    /// The convention with raw value `v`; `None` for values of 4 and above.
    pub fn from_raw(v: u8) -> (r: Option<EolType>)
        ensures
            r == spec_eol_from_raw(v),
    {
        match v {
            0 => Some(EolType::Windows),
            1 => Some(EolType::MacOs),
            2 => Some(EolType::Unix),
            3 => Some(EolType::Unknown),
            _ => None,
        }
    }

    /// Convert an integer to an `EolType`, falling back to `defvalue` for
    /// unrecognised integers.
    pub fn from_int(value: i32, defvalue: EolType) -> (r: EolType)
        ensures
            r == (match value {
                0 => EolType::Windows,
                1 => EolType::MacOs,
                2 => EolType::Unix,
                3 => EolType::Unknown,
                _ => defvalue,
            }),
    {
        match value {
            0 => EolType::Windows,
            1 => EolType::MacOs,
            2 => EolType::Unix,
            3 => EolType::Unknown,
            _ => defvalue,
        }
    }
}

/// `EolType::from_raw` inverts `EolType::to_raw`, and `from_int` agrees
/// with `from_raw` on every raw value.
pub proof fn lemma_eol_raw_roundtrip(e: EolType, v: u8, defvalue: EolType)
    ensures
        spec_eol_from_raw(spec_eol_raw(e)) == Some(e),
        spec_eol_from_raw(v) matches Some(ev) ==> spec_eol_raw(ev) == v,
        spec_eol_from_raw(v) matches Some(ev) ==> (match v as i32 {
            0 => EolType::Windows,
            1 => EolType::MacOs,
            2 => EolType::Unix,
            3 => EolType::Unknown,
            _ => defvalue,
        }) == ev,
{
}

/// Unicode / encoding mode of a document buffer.
///
/// Raw values, as returned by `to_raw`: `Ansi8Bit` 0, `Utf8` 1, `Utf16BE` 2,
/// `Utf16LE` 3, `Utf8NoBom` 4, `Ascii7Bit` 5, `Utf16BENoBom` 6,
/// `Utf16LENoBom` 7.
#[derive(Clone, Copy, Debug, PartialEq, Eq, Structural, Hash)]
pub enum UniMode {
    /// ANSI / legacy 8-bit encoding (code page determined separately)
    Ansi8Bit,
    /// UTF-8 with BOM
    Utf8,
    /// UTF-16 big-endian with BOM
    Utf16BE,
    /// UTF-16 little-endian with BOM
    Utf16LE,
    /// UTF-8 without BOM
    Utf8NoBom,
    /// Pure 7-bit ASCII
    Ascii7Bit,
    /// UTF-16 big-endian without BOM
    Utf16BENoBom,
    /// UTF-16 little-endian without BOM
    Utf16LENoBom,
}

impl Default for UniMode {
    fn default() -> (r: Self)
        ensures
            r == UniMode::Utf8NoBom,
    {
        UniMode::Utf8NoBom
    }
}

/// The raw value of a `UniMode`.
pub open spec fn spec_uni_mode_raw(m: UniMode) -> u8 {
    match m {
        UniMode::Ansi8Bit => 0,
        UniMode::Utf8 => 1,
        UniMode::Utf16BE => 2,
        UniMode::Utf16LE => 3,
        UniMode::Utf8NoBom => 4,
        UniMode::Ascii7Bit => 5,
        UniMode::Utf16BENoBom => 6,
        UniMode::Utf16LENoBom => 7,
    }
}

/// The `UniMode` with raw value `v`; `None` for values of 8 and above.
pub open spec fn spec_uni_mode_from_raw(v: u8) -> Option<UniMode> {
    match v {
        0 => Some(UniMode::Ansi8Bit),
        1 => Some(UniMode::Utf8),
        2 => Some(UniMode::Utf16BE),
        3 => Some(UniMode::Utf16LE),
        4 => Some(UniMode::Utf8NoBom),
        5 => Some(UniMode::Ascii7Bit),
        6 => Some(UniMode::Utf16BENoBom),
        7 => Some(UniMode::Utf16LENoBom),
        _ => None,
    }
}

impl UniMode {
    /// Construct a `UniMode` from its raw value; `None` for values of 8 and above.
    pub fn from_raw(v: u8) -> (r: Option<UniMode>)
        ensures
            r == spec_uni_mode_from_raw(v),
    {
        match v {
            0 => Some(UniMode::Ansi8Bit),
            1 => Some(UniMode::Utf8),
            2 => Some(UniMode::Utf16BE),
            3 => Some(UniMode::Utf16LE),
            4 => Some(UniMode::Utf8NoBom),
            5 => Some(UniMode::Ascii7Bit),
            6 => Some(UniMode::Utf16BENoBom),
            7 => Some(UniMode::Utf16LENoBom),
            _ => None,
        }
    }

    /// The raw value of this mode (the value that `from_raw` accepts for it).
    pub fn to_raw(self) -> (r: u8)
        ensures
            r == spec_uni_mode_raw(self),
    {
        match self {
            UniMode::Ansi8Bit => 0,
            UniMode::Utf8 => 1,
            UniMode::Utf16BE => 2,
            UniMode::Utf16LE => 3,
            UniMode::Utf8NoBom => 4,
            UniMode::Ascii7Bit => 5,
            UniMode::Utf16BENoBom => 6,
            UniMode::Utf16LENoBom => 7,
        }
    }
}

/// `from_raw` inverts `to_raw`: every mode is recovered from its raw value,
/// and every raw value that `from_raw` accepts is the raw value of the mode
/// it yields.
pub proof fn lemma_uni_mode_raw_roundtrip(m: UniMode, v: u8)
    ensures
        spec_uni_mode_from_raw(spec_uni_mode_raw(m)) == Some(m),
        spec_uni_mode_from_raw(v) matches Some(mv) ==> spec_uni_mode_raw(mv) == v,
{
}

/// Filesystem-level status of a buffer's backing file.
///
/// Raw values, as given by `to_u32` and accepted by `from_u32`: `Regular` 0x01, `Unnamed` 0x02,
/// `Deleted` 0x04, `Modified` 0x08, `NeedReload` 0x10, `Inaccessible` 0x20.
#[derive(Clone, Copy, Debug, PartialEq, Eq, Structural, Hash)]
pub enum DocFileStatus {
    /// File exists on disk and matches the buffer
    Regular,
    /// Buffer has never been saved (new document)
    Unnamed,
    /// File was deleted on disk while the buffer was open
    Deleted,
    /// File on disk is newer than the buffer (external modification)
    Modified,
    /// File is pending a reload
    NeedReload,
    /// File was absent when first loaded; treated as deleted + read-only
    Inaccessible,
}

impl Default for DocFileStatus {
    fn default() -> (r: Self)
        ensures
            r == DocFileStatus::Regular,
    {
        DocFileStatus::Regular
    }
}

/// The raw value of a `DocFileStatus`.
pub open spec fn spec_status_raw(st: DocFileStatus) -> u32 {
    match st {
        DocFileStatus::Regular => 0x01,
        DocFileStatus::Unnamed => 0x02,
        DocFileStatus::Deleted => 0x04,
        DocFileStatus::Modified => 0x08,
        DocFileStatus::NeedReload => 0x10,
        DocFileStatus::Inaccessible => 0x20,
    }
}

/// The `DocFileStatus` with raw value `v`; `None` for unrecognised values.
pub open spec fn spec_status_from_u32(v: u32) -> Option<DocFileStatus> {
    match v {
        0x01 => Some(DocFileStatus::Regular),
        0x02 => Some(DocFileStatus::Unnamed),
        0x04 => Some(DocFileStatus::Deleted),
        0x08 => Some(DocFileStatus::Modified),
        0x10 => Some(DocFileStatus::NeedReload),
        0x20 => Some(DocFileStatus::Inaccessible),
        _ => None,
    }
}

/// `DocFileStatus::from_u32` inverts `DocFileStatus::to_u32`.
pub proof fn lemma_status_raw_roundtrip(st: DocFileStatus, v: u32)
    ensures
        spec_status_from_u32(spec_status_raw(st)) == Some(st),
        spec_status_from_u32(v) matches Some(sv) ==> spec_status_raw(sv) == v,
{
}

impl DocFileStatus {
    /// The raw value of this status.
    pub fn to_u32(self) -> (r: u32)
        ensures
            r == spec_status_raw(self),
    {
        match self {
            DocFileStatus::Regular => 0x01,
            DocFileStatus::Unnamed => 0x02,
            DocFileStatus::Deleted => 0x04,
            DocFileStatus::Modified => 0x08,
            DocFileStatus::NeedReload => 0x10,
            DocFileStatus::Inaccessible => 0x20,
        }
    }

    /// Construct a `DocFileStatus` from its raw value; `None` for
    /// unrecognised values.
    pub fn from_u32(v: u32) -> (r: Option<DocFileStatus>)
        ensures
            r == spec_status_from_u32(v),
    {
        match v {
            0x01 => Some(DocFileStatus::Regular),
            0x02 => Some(DocFileStatus::Unnamed),
            0x04 => Some(DocFileStatus::Deleted),
            0x08 => Some(DocFileStatus::Modified),
            0x10 => Some(DocFileStatus::NeedReload),
            0x20 => Some(DocFileStatus::Inaccessible),
            _ => None,
        }
    }
}

/// Bitmask describing which properties of a buffer a mutation changed.
#[derive(Clone, Copy, Debug, PartialEq, Eq, Structural)]
pub struct BufferChangeFlags(pub u32);

impl Default for BufferChangeFlags {
    fn default() -> (r: Self)
        ensures
            r.0 == 0,
    {
        BufferChangeFlags(0)
    }
}

impl BufferChangeFlags {
    /// No change.
    pub fn none() -> (r: BufferChangeFlags)
        ensures
            r.0 == 0x000,
    {
        BufferChangeFlags(0x000)
    }

    /// The syntax language changed.
    pub fn language() -> (r: BufferChangeFlags)
        ensures
            r.0 == 0x001,
    {
        BufferChangeFlags(0x001)
    }

    /// The dirty flag changed.
    pub fn dirty() -> (r: BufferChangeFlags)
        ensures
            r.0 == 0x002,
    {
        BufferChangeFlags(0x002)
    }

    /// The end-of-line format changed.
    pub fn format() -> (r: BufferChangeFlags)
        ensures
            r.0 == 0x004,
    {
        BufferChangeFlags(0x004)
    }

    /// The encoding or Unicode mode changed.
    pub fn unicode() -> (r: BufferChangeFlags)
        ensures
            r.0 == 0x008,
    {
        BufferChangeFlags(0x008)
    }

    /// A read-only flag changed.
    pub fn readonly() -> (r: BufferChangeFlags)
        ensures
            r.0 == 0x010,
    {
        BufferChangeFlags(0x010)
    }

    /// The file status changed.
    pub fn status() -> (r: BufferChangeFlags)
        ensures
            r.0 == 0x020,
    {
        BufferChangeFlags(0x020)
    }

    /// The file timestamp changed.
    pub fn timestamp() -> (r: BufferChangeFlags)
        ensures
            r.0 == 0x040,
    {
        BufferChangeFlags(0x040)
    }

    /// The file name changed.
    pub fn filename() -> (r: BufferChangeFlags)
        ensures
            r.0 == 0x080,
    {
        BufferChangeFlags(0x080)
    }

    /// The recency tag changed.
    pub fn recent_tag() -> (r: BufferChangeFlags)
        ensures
            r.0 == 0x100,
    {
        BufferChangeFlags(0x100)
    }

    /// The document needs lexing.
    pub fn lexing() -> (r: BufferChangeFlags)
        ensures
            r.0 == 0x200,
    {
        BufferChangeFlags(0x200)
    }

    /// Whether no flag is set.
    pub fn is_empty(self) -> (r: bool)
        ensures
            r == (self.0 == 0),
    {
        self.0 == 0
    }
}

impl core::ops::BitOr for BufferChangeFlags {
    type Output = BufferChangeFlags;

    fn bitor(self, rhs: BufferChangeFlags) -> (r: BufferChangeFlags) {
        BufferChangeFlags(self.0 | rhs.0)
    }
}

impl vstd::std_specs::ops::BitOrSpecImpl for BufferChangeFlags {
    open spec fn obeys_bitor_spec() -> bool {
        true
    }

    open spec fn bitor_req(self, rhs: BufferChangeFlags) -> bool {
        true
    }

    open spec fn bitor_spec(self, rhs: BufferChangeFlags) -> BufferChangeFlags {
        BufferChangeFlags(self.0 | rhs.0)
    }
}

impl core::ops::BitAnd for BufferChangeFlags {
    type Output = BufferChangeFlags;

    fn bitand(self, rhs: BufferChangeFlags) -> (r: BufferChangeFlags) {
        BufferChangeFlags(self.0 & rhs.0)
    }
}

impl vstd::std_specs::ops::BitAndSpecImpl for BufferChangeFlags {
    open spec fn obeys_bitand_spec() -> bool {
        true
    }

    open spec fn bitand_req(self, rhs: BufferChangeFlags) -> bool {
        true
    }

    open spec fn bitand_spec(self, rhs: BufferChangeFlags) -> BufferChangeFlags {
        BufferChangeFlags(self.0 & rhs.0)
    }
}

impl core::ops::BitOrAssign for BufferChangeFlags {
    fn bitor_assign(&mut self, rhs: BufferChangeFlags)
        ensures
            final(self).0 == old(self).0 | rhs.0,
    {
        self.0 = self.0 | rhs.0;
    }
}

/// Result code of saving a buffer.
#[derive(Clone, Copy, Debug, PartialEq, Eq, Structural)]
pub enum SavingStatus {
    /// The buffer was saved.
    Saved,
    /// The file could not be opened for writing.
    OpenFailed,
    /// Writing the file failed.
    WritingFailed,
    /// The disk has not enough room.
    NotEnoughRoom,
    /// Saving is forbidden because the file is fully read-only.
    FullReadOnlySavingForbidden,
}

impl SavingStatus {
    /// The raw value of this result code: `Saved` 0, `OpenFailed` 1,
    /// `WritingFailed` 2, `NotEnoughRoom` 3, `FullReadOnlySavingForbidden` 4.
    pub fn to_raw(self) -> (r: u32)
        ensures
            r == (match self {
                SavingStatus::Saved => 0u32,
                SavingStatus::OpenFailed => 1u32,
                SavingStatus::WritingFailed => 2u32,
                SavingStatus::NotEnoughRoom => 3u32,
                SavingStatus::FullReadOnlySavingForbidden => 4u32,
            }),
    {
        match self {
            SavingStatus::Saved => 0,
            SavingStatus::OpenFailed => 1,
            SavingStatus::WritingFailed => 2,
            SavingStatus::NotEnoughRoom => 3,
            SavingStatus::FullReadOnlySavingForbidden => 4,
        }
    }
}


/// Syntax-highlighting language assigned to a buffer.  Its raw values are
/// given by `LangType::to_raw`.
#[derive(Clone, Copy, Debug, PartialEq, Eq, Structural, Hash)]
pub enum LangType {
    Text,
    Php,
    C,
    Cpp,
    CSharp,
    ObjC,
    Java,
    Rc,
    Html,
    Xml,
    Makefile,
    Pascal,
    Batch,
    Ini,
    /// DOS-box text (forces code page 437)
    Ascii,
    /// User-defined language
    User,
    Asp,
    Sql,
    VisualBasic,
    JsEmbedded,
    Css,
    Perl,
    Python,
    Lua,
    Tex,
    Fortran,
    Bash,
    Flash,
    Nsis,
    Tcl,
    Lisp,
    Scheme,
    Asm,
    Diff,
    Props,
    Ps,
    Ruby,
    Smalltalk,
    Vhdl,
    Kix,
    Au3,
    Caml,
    Ada,
    Verilog,
    Matlab,
    Haskell,
    Inno,
    SearchResult,
    Cmake,
    Yaml,
    Cobol,
    Gui4Cli,
    D,
    PowerShell,
    R,
    Jsp,
    Coffeescript,
    Json,
    JavaScript,
    Fortran77,
    Baanc,
    Srec,
    Ihex,
    Tehex,
    Swift,
    Rust,
    TypeScript,
    Golang,
    Toml,
    /// User-defined external lexers
    External,
}

impl Default for LangType {
    fn default() -> (r: Self)
        ensures
            r == LangType::Text,
    {
        LangType::Text
    }
}


/// The raw value of a `LangType`, the number the editor's C++ side uses.
pub open spec fn spec_lang_raw(l: LangType) -> i32 {
    match l {
        LangType::Text => 0,
        LangType::Php => 1,
        LangType::C => 2,
        LangType::Cpp => 3,
        LangType::CSharp => 4,
        LangType::ObjC => 5,
        LangType::Java => 6,
        LangType::Rc => 7,
        LangType::Html => 8,
        LangType::Xml => 9,
        LangType::Makefile => 10,
        LangType::Pascal => 11,
        LangType::Batch => 12,
        LangType::Ini => 13,
        LangType::Ascii => 14,
        LangType::User => 15,
        LangType::Asp => 16,
        LangType::Sql => 17,
        LangType::VisualBasic => 18,
        LangType::JsEmbedded => 19,
        LangType::Css => 20,
        LangType::Perl => 21,
        LangType::Python => 22,
        LangType::Lua => 23,
        LangType::Tex => 24,
        LangType::Fortran => 25,
        LangType::Bash => 26,
        LangType::Flash => 27,
        LangType::Nsis => 28,
        LangType::Tcl => 29,
        LangType::Lisp => 30,
        LangType::Scheme => 31,
        LangType::Asm => 32,
        LangType::Diff => 33,
        LangType::Props => 34,
        LangType::Ps => 35,
        LangType::Ruby => 36,
        LangType::Smalltalk => 37,
        LangType::Vhdl => 38,
        LangType::Kix => 39,
        LangType::Au3 => 40,
        LangType::Caml => 41,
        LangType::Ada => 42,
        LangType::Verilog => 43,
        LangType::Matlab => 44,
        LangType::Haskell => 45,
        LangType::Inno => 46,
        LangType::SearchResult => 47,
        LangType::Cmake => 48,
        LangType::Yaml => 49,
        LangType::Cobol => 50,
        LangType::Gui4Cli => 51,
        LangType::D => 52,
        LangType::PowerShell => 53,
        LangType::R => 54,
        LangType::Jsp => 55,
        LangType::Coffeescript => 56,
        LangType::Json => 57,
        LangType::JavaScript => 58,
        LangType::Fortran77 => 59,
        LangType::Baanc => 60,
        LangType::Srec => 61,
        LangType::Ihex => 62,
        LangType::Tehex => 63,
        LangType::Swift => 64,
        LangType::Rust => 75,
        LangType::TypeScript => 85,
        LangType::Golang => 90,
        LangType::Toml => 92,
        LangType::External => 100,
    }
}

/// The `LangType` with raw value `v`; values that name no listed language
/// give `LangType::External`.
pub open spec fn spec_lang_from_raw(v: i32) -> LangType {
    match v {
        0 => LangType::Text,
        1 => LangType::Php,
        2 => LangType::C,
        3 => LangType::Cpp,
        4 => LangType::CSharp,
        5 => LangType::ObjC,
        6 => LangType::Java,
        7 => LangType::Rc,
        8 => LangType::Html,
        9 => LangType::Xml,
        10 => LangType::Makefile,
        11 => LangType::Pascal,
        12 => LangType::Batch,
        13 => LangType::Ini,
        14 => LangType::Ascii,
        15 => LangType::User,
        16 => LangType::Asp,
        17 => LangType::Sql,
        18 => LangType::VisualBasic,
        19 => LangType::JsEmbedded,
        20 => LangType::Css,
        21 => LangType::Perl,
        22 => LangType::Python,
        23 => LangType::Lua,
        24 => LangType::Tex,
        25 => LangType::Fortran,
        26 => LangType::Bash,
        27 => LangType::Flash,
        28 => LangType::Nsis,
        29 => LangType::Tcl,
        30 => LangType::Lisp,
        31 => LangType::Scheme,
        32 => LangType::Asm,
        33 => LangType::Diff,
        34 => LangType::Props,
        35 => LangType::Ps,
        36 => LangType::Ruby,
        37 => LangType::Smalltalk,
        38 => LangType::Vhdl,
        39 => LangType::Kix,
        40 => LangType::Au3,
        41 => LangType::Caml,
        42 => LangType::Ada,
        43 => LangType::Verilog,
        44 => LangType::Matlab,
        45 => LangType::Haskell,
        46 => LangType::Inno,
        47 => LangType::SearchResult,
        48 => LangType::Cmake,
        49 => LangType::Yaml,
        50 => LangType::Cobol,
        51 => LangType::Gui4Cli,
        52 => LangType::D,
        53 => LangType::PowerShell,
        54 => LangType::R,
        55 => LangType::Jsp,
        56 => LangType::Coffeescript,
        57 => LangType::Json,
        58 => LangType::JavaScript,
        59 => LangType::Fortran77,
        60 => LangType::Baanc,
        61 => LangType::Srec,
        62 => LangType::Ihex,
        63 => LangType::Tehex,
        64 => LangType::Swift,
        75 => LangType::Rust,
        85 => LangType::TypeScript,
        90 => LangType::Golang,
        92 => LangType::Toml,
        _ => LangType::External,
    }
}

impl LangType {
    /// The raw value of this language.
    pub fn to_raw(self) -> (r: i32)
        ensures
            r == spec_lang_raw(self),
    {
        match self {
            LangType::Text => 0,
            LangType::Php => 1,
            LangType::C => 2,
            LangType::Cpp => 3,
            LangType::CSharp => 4,
            LangType::ObjC => 5,
            LangType::Java => 6,
            LangType::Rc => 7,
            LangType::Html => 8,
            LangType::Xml => 9,
            LangType::Makefile => 10,
            LangType::Pascal => 11,
            LangType::Batch => 12,
            LangType::Ini => 13,
            LangType::Ascii => 14,
            LangType::User => 15,
            LangType::Asp => 16,
            LangType::Sql => 17,
            LangType::VisualBasic => 18,
            LangType::JsEmbedded => 19,
            LangType::Css => 20,
            LangType::Perl => 21,
            LangType::Python => 22,
            LangType::Lua => 23,
            LangType::Tex => 24,
            LangType::Fortran => 25,
            LangType::Bash => 26,
            LangType::Flash => 27,
            LangType::Nsis => 28,
            LangType::Tcl => 29,
            LangType::Lisp => 30,
            LangType::Scheme => 31,
            LangType::Asm => 32,
            LangType::Diff => 33,
            LangType::Props => 34,
            LangType::Ps => 35,
            LangType::Ruby => 36,
            LangType::Smalltalk => 37,
            LangType::Vhdl => 38,
            LangType::Kix => 39,
            LangType::Au3 => 40,
            LangType::Caml => 41,
            LangType::Ada => 42,
            LangType::Verilog => 43,
            LangType::Matlab => 44,
            LangType::Haskell => 45,
            LangType::Inno => 46,
            LangType::SearchResult => 47,
            LangType::Cmake => 48,
            LangType::Yaml => 49,
            LangType::Cobol => 50,
            LangType::Gui4Cli => 51,
            LangType::D => 52,
            LangType::PowerShell => 53,
            LangType::R => 54,
            LangType::Jsp => 55,
            LangType::Coffeescript => 56,
            LangType::Json => 57,
            LangType::JavaScript => 58,
            LangType::Fortran77 => 59,
            LangType::Baanc => 60,
            LangType::Srec => 61,
            LangType::Ihex => 62,
            LangType::Tehex => 63,
            LangType::Swift => 64,
            LangType::Rust => 75,
            LangType::TypeScript => 85,
            LangType::Golang => 90,
            LangType::Toml => 92,
            LangType::External => 100,
        }
    }

    /// The language with raw value `v`; `External` for values that name no
    /// listed language.
    pub fn from_raw(v: i32) -> (r: LangType)
        ensures
            r == spec_lang_from_raw(v),
    {
        match v {
            0 => LangType::Text,
            1 => LangType::Php,
            2 => LangType::C,
            3 => LangType::Cpp,
            4 => LangType::CSharp,
            5 => LangType::ObjC,
            6 => LangType::Java,
            7 => LangType::Rc,
            8 => LangType::Html,
            9 => LangType::Xml,
            10 => LangType::Makefile,
            11 => LangType::Pascal,
            12 => LangType::Batch,
            13 => LangType::Ini,
            14 => LangType::Ascii,
            15 => LangType::User,
            16 => LangType::Asp,
            17 => LangType::Sql,
            18 => LangType::VisualBasic,
            19 => LangType::JsEmbedded,
            20 => LangType::Css,
            21 => LangType::Perl,
            22 => LangType::Python,
            23 => LangType::Lua,
            24 => LangType::Tex,
            25 => LangType::Fortran,
            26 => LangType::Bash,
            27 => LangType::Flash,
            28 => LangType::Nsis,
            29 => LangType::Tcl,
            30 => LangType::Lisp,
            31 => LangType::Scheme,
            32 => LangType::Asm,
            33 => LangType::Diff,
            34 => LangType::Props,
            35 => LangType::Ps,
            36 => LangType::Ruby,
            37 => LangType::Smalltalk,
            38 => LangType::Vhdl,
            39 => LangType::Kix,
            40 => LangType::Au3,
            41 => LangType::Caml,
            42 => LangType::Ada,
            43 => LangType::Verilog,
            44 => LangType::Matlab,
            45 => LangType::Haskell,
            46 => LangType::Inno,
            47 => LangType::SearchResult,
            48 => LangType::Cmake,
            49 => LangType::Yaml,
            50 => LangType::Cobol,
            51 => LangType::Gui4Cli,
            52 => LangType::D,
            53 => LangType::PowerShell,
            54 => LangType::R,
            55 => LangType::Jsp,
            56 => LangType::Coffeescript,
            57 => LangType::Json,
            58 => LangType::JavaScript,
            59 => LangType::Fortran77,
            60 => LangType::Baanc,
            61 => LangType::Srec,
            62 => LangType::Ihex,
            63 => LangType::Tehex,
            64 => LangType::Swift,
            75 => LangType::Rust,
            85 => LangType::TypeScript,
            90 => LangType::Golang,
            92 => LangType::Toml,
            _ => LangType::External,
        }
    }
}

/// `LangType::from_raw` inverts `LangType::to_raw`, and a raw value either
/// names the language it yields or yields `External`.
pub proof fn lemma_lang_raw_roundtrip(l: LangType, v: i32)
    ensures
        spec_lang_from_raw(spec_lang_raw(l)) == l,
        spec_lang_raw(spec_lang_from_raw(v)) == v || spec_lang_from_raw(v) == LangType::External,
{
}

} // verus!
