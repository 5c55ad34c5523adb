use vstd::prelude::*;

verus! {

/// Number of entries in the encoding table.
pub const ENCODING_COUNT: usize = 49;

/// Windows code page of each menu entry, by 0-based menu index; `-1` marks
/// an encoding that has no Windows code page.  The order is the order of the
/// menu entries.
pub const ENCODING_CODE_PAGES: [i32; 49] = [
    1250, 1251, 1252, 1253, 1254, 1255, 1256, 1257, 1258,
    28591, 28592, 28593, 28594, 28595, 28596, 28597, 28598, 28599,
    -1, -1,
    28603, 28604, 28605,
    -1,
    437, 720, 737, 775, 850, 852, 855, 857, 858, 860, 861, 862, 863, 865, 866, 869,
    950, 936, 932, 949, 51949, 874, 10007, 21866, 20866,
];

/// Space-separated IANA / MIME names of each menu entry, by 0-based menu
/// index (same order as `ENCODING_CODE_PAGES`).
pub const ENCODING_ALIASES: [&'static str; 49] = [
    "windows-1250",
    "windows-1251",
    "windows-1252",
    "windows-1253",
    "windows-1254",
    "windows-1255",
    "windows-1256",
    "windows-1257",
    "windows-1258",
    "latin1 ISO_8859-1 ISO-8859-1 CP819 IBM819 csISOLatin1 iso-ir-100 l1",
    "latin2 ISO_8859-2 ISO-8859-2 csISOLatin2 iso-ir-101 l2",
    "latin3 ISO_8859-3 ISO-8859-3 csISOLatin3 iso-ir-109 l3",
    "latin4 ISO_8859-4 ISO-8859-4 csISOLatin4 iso-ir-110 l4",
    "cyrillic ISO_8859-5 ISO-8859-5 csISOLatinCyrillic iso-ir-144",
    "arabic ISO_8859-6 ISO-8859-6 csISOLatinArabic iso-ir-127 ASMO-708 ECMA-114",
    "greek ISO_8859-7 ISO-8859-7 csISOLatinGreek greek8 iso-ir-126 ELOT_928 ECMA-118",
    "hebrew ISO_8859-8 ISO-8859-8 csISOLatinHebrew iso-ir-138",
    "latin5 ISO_8859-9 ISO-8859-9 csISOLatin5 iso-ir-148 l5",
    "",
    "",
    "ISO_8859-13 ISO-8859-13",
    "iso-celtic latin8 ISO_8859-14 ISO-8859-14 18 iso-ir-199",
    "Latin-9 ISO_8859-15 ISO-8859-15",
    "",
    "IBM437 cp437 437 csPC8CodePage437",
    "IBM720 cp720 oem720 720",
    "IBM737 cp737 oem737 737",
    "IBM775 cp775 oem775 775",
    "IBM850 cp850 oem850 850",
    "IBM852 cp852 oem852 852",
    "IBM855 cp855 oem855 855 csIBM855",
    "IBM857 cp857 oem857 857",
    "IBM858 cp858 oem858 858",
    "IBM860 cp860 oem860 860",
    "IBM861 cp861 oem861 861",
    "IBM862 cp862 oem862 862",
    "IBM863 cp863 oem863 863",
    "IBM865 cp865 oem865 865",
    "IBM866 cp866 oem866 866",
    "IBM869 cp869 oem869 869",
    "big5 csBig5",
    "gb2312 gbk csGB2312 gb18030",
    "Shift_JIS MS_Kanji csShiftJIS csWindows31J",
    "windows-949 korean",
    "euc-kr csEUCKR",
    "tis-620",
    "x-mac-cyrillic xmaccyrillic",
    "koi8_u",
    "koi8_r csKOI8R",
];

/// Code page of the entry at menu index `i`.
pub open spec fn table_code_page(i: int) -> i32 {
    ENCODING_CODE_PAGES@[i]
}

/// Alias list of the entry at menu index `i`.
pub open spec fn table_aliases(i: int) -> Seq<char> {
    ENCODING_ALIASES@[i]@
}

/// Every code page other than `-1` occurs at most once in the table.
pub proof fn lemma_code_pages_distinct()
    ensures
        forall|i: int, j: int|
            0 <= i < j < 49 && #[trigger] table_code_page(i) == #[trigger] table_code_page(j)
                ==> table_code_page(i) == -1,
{
}

/// Alias list that names UTF-8, which has no entry in the table.
pub const UTF8_ALIASES: &'static str = "utf-8 utf8";

/// Code page returned for a UTF-8 alias.
pub const UTF8_CODE_PAGE: i32 = 65001;

/// ASCII whitespace, as split on by `str::split_ascii_whitespace`:
/// space, tab, line feed, form feed and carriage return.
pub open spec fn is_ascii_ws(c: char) -> bool {
    c == ' ' || c == '\t' || c == '\n' || c == '\x0C' || c == '\r'
}

/// A character folded to ASCII lower case (other characters unchanged).
pub open spec fn fold_ascii(c: char) -> u32 {
    if 'A' <= c <= 'Z' {
        (c as u32 + 32) as u32
    } else {
        c as u32
    }
}

/// `a` and `b` are equal when ASCII letters are compared case-insensitively.
pub open spec fn eq_ignore_ascii_case(a: Seq<char>, b: Seq<char>) -> bool {
    &&& a.len() == b.len()
    &&& forall|k: int| 0 <= k < a.len() ==> fold_ascii(#[trigger] a[k]) == fold_ascii(b[k])
}

/// `list[s..e]` is one whitespace-separated word of `list`: it is not empty,
/// holds no whitespace, and is bounded by whitespace or the ends of `list`.
pub open spec fn is_word_at(list: Seq<char>, s: int, e: int) -> bool {
    &&& 0 <= s < e <= list.len()
    &&& (s == 0 || is_ascii_ws(list[s - 1]))
    &&& (e == list.len() || is_ascii_ws(list[e]))
    &&& forall|k: int| s <= k < e ==> !is_ascii_ws(#[trigger] list[k])
}

/// `token` equals, ignoring ASCII case, one of the whitespace-separated words
/// of `list`; an empty token or an empty list never matches.
pub open spec fn spec_alias_matches(token: Seq<char>, list: Seq<char>) -> bool {
    &&& token.len() > 0
    &&& list.len() > 0
    &&& exists|s: int, e: int| #[trigger] is_word_at(list, s, e) && eq_ignore_ascii_case(list.subrange(s, e), token)
}

/// Code page of the table entry at `index`, or `-1` when `index` is outside the table.
pub open spec fn spec_encoding_from_index(index: int) -> i32 {
    if 0 <= index < 49 {
        table_code_page(index)
    } else {
        -1i32
    }
}

/// The first menu index `i >= k` whose code page is `encoding`, or `-1`.
pub open spec fn first_index_of_code_page(encoding: i32, k: int) -> int
    decreases 49 - k,
{
    if k >= 49 {
        -1
    } else if 0 <= k && table_code_page(k) == encoding {
        k
    } else {
        first_index_of_code_page(encoding, k + 1)
    }
}

/// The first menu index whose code page is `encoding`; `-1` for `-1` and for
/// code pages that are not in the table.
pub open spec fn spec_index_from_encoding(encoding: i32) -> int {
    if encoding == -1 {
        -1
    } else {
        first_index_of_code_page(encoding, 0)
    }
}

/// The code page of the first entry `i >= k` whose alias list holds `alias`, or `-1`.
pub open spec fn first_alias_code_page(alias: Seq<char>, k: int) -> i32
    decreases 49 - k,
{
    if k >= 49 {
        -1i32
    } else if 0 <= k && spec_alias_matches(alias, table_aliases(k)) {
        table_code_page(k)
    } else {
        first_alias_code_page(alias, k + 1)
    }
}

/// Code page named by a charset alias: `65001` for UTF-8, otherwise the code
/// page of the first table entry that lists the alias, otherwise `-1`.
pub open spec fn spec_encoding_from_string(alias: Seq<char>) -> i32 {
    if spec_alias_matches(alias, UTF8_ALIASES@) {
        UTF8_CODE_PAGE
    } else {
        first_alias_code_page(alias, 0)
    }
}

/// The characters of `s`, in order.
pub(crate) fn chars_of(s: &str) -> (v: Vec<char>)
    ensures
        v@ == s@,
{
    let mut v: Vec<char> = Vec::new();
    for c in it: s.chars()
        invariant
            v@ == it.seq().take(it.index() as int),
    {
        v.push(c);
    }
    v
}

fn is_ascii_whitespace_char(c: char) -> (r: bool)
    ensures
        r == is_ascii_ws(c),
{
    c == ' ' || c == '\t' || c == '\n' || c == '\x0C' || c == '\r'
}

fn fold_ascii_char(c: char) -> (r: u32)
    ensures
        r == fold_ascii(c),
{
    if 'A' <= c && c <= 'Z' {
        c as u32 + 32
    } else {
        c as u32
    }
}

/// Whether `list[start..end]` equals `token`, ignoring ASCII case.
fn word_eq_ignore_ascii_case(list: &Vec<char>, start: usize, end: usize, token: &Vec<char>) -> (r: bool)
    requires
        start <= end <= list@.len(),
    ensures
        r == eq_ignore_ascii_case(list@.subrange(start as int, end as int), token@),
{
    if end - start != token.len() {
        return false;
    }
    let mut k: usize = 0;
    while k < token.len()
        invariant
            start <= end <= list@.len(),
            end - start == token@.len(),
            0 <= k <= token@.len(),
            forall|m: int| 0 <= m < k ==> fold_ascii(#[trigger] list@[start + m]) == fold_ascii(token@[m]),
        decreases token@.len() - k,
    {
        if fold_ascii_char(list[start + k]) != fold_ascii_char(token[k]) {
            assert(list@.subrange(start as int, end as int)[k as int] == list@[start + k]);
            return false;
        }
        k += 1;
    }
    let ghost w = list@.subrange(start as int, end as int);
    assert forall|m: int| 0 <= m < w.len() implies fold_ascii(#[trigger] w[m]) == fold_ascii(token@[m]) by {
        assert(w[m] == list@[start + m]);
    }
    true
}

/// Whether `token` equals, ignoring ASCII case, one of the whitespace-separated
/// words of `list`.  An empty token or list never matches.
pub fn alias_matches(token: &str, list: &str) -> (r: bool)
    ensures
        r == spec_alias_matches(token@, list@),
{
    let t = chars_of(token);
    let l = chars_of(list);
    if t.len() == 0 || l.len() == 0 {
        return false;
    }
    let n = l.len();
    let mut i: usize = 0;
    while i < n
        invariant
            n == l@.len(),
            l@ == list@,
            t@ == token@,
            t@.len() > 0,
            0 <= i <= n,
            i == 0 || i == n || is_ascii_ws(l@[i as int]) || is_ascii_ws(l@[i - 1]),
            forall|s: int, e: int|
                #[trigger] is_word_at(l@, s, e) && s < i ==> !eq_ignore_ascii_case(l@.subrange(s, e), t@),
        decreases n - i,
    {
        if is_ascii_whitespace_char(l[i]) {
            i += 1;
        } else {
            let start = i;
            while i < n && !is_ascii_whitespace_char(l[i])
                invariant
                    n == l@.len(),
                    start <= i <= n,
                    forall|k: int| start <= k < i ==> !is_ascii_ws(#[trigger] l@[k]),
                decreases n - i,
            {
                i += 1;
            }
            assert(is_word_at(l@, start as int, i as int));
            if word_eq_ignore_ascii_case(&l, start, i, &t) {
                return true;
            }
            assert forall|s: int, e: int|
                #[trigger] is_word_at(l@, s, e) && s < i implies !eq_ignore_ascii_case(l@.subrange(s, e), t@) by {
                if s >= start {
                    if s > start {
                        assert(!is_ascii_ws(l@[s - 1]));
                    } else {
                        if e < i {
                            assert(!is_ascii_ws(l@[e]));
                        } else if e > i {
                            assert(!is_ascii_ws(l@[i as int]));
                        }
                    }
                }
            }
        }
    }
    assert forall|s: int, e: int| is_word_at(l@, s, e) implies !eq_ignore_ascii_case(l@.subrange(s, e), t@) by {
        assert(is_word_at(l@, s, e) && s < i);
    }
    false
}


/// Maps between 0-based encoding-menu indices, Windows code pages and
/// charset aliases, using the encoding table of this module.
pub struct EncodingMapper;

impl EncodingMapper {
    /// The Windows code page of the entry at menu index `index`; `-1` when
    /// `index` is outside the table or the entry has no code page.
    pub fn get_encoding_from_index(index: i32) -> (r: i32)
        ensures
            r == spec_encoding_from_index(index as int),
    {
        if index < 0 {
            return -1;
        }
        let i = index as usize;
        if i < ENCODING_COUNT {
            proof {
                vstd::array::lemma_array_index(ENCODING_CODE_PAGES, i as int);
            }
            ENCODING_CODE_PAGES[i]
        } else {
            -1
        }
    }

    /// The first menu index whose code page is `encoding`; `-1` for `-1` and
    /// for code pages not in the table.
    pub fn get_index_from_encoding(encoding: i32) -> (r: i32)
        ensures
            r as int == spec_index_from_encoding(encoding),
    {
        if encoding == -1 {
            return -1;
        }
        let mut i: usize = 0;
        while i < ENCODING_COUNT
            invariant
                0 <= i <= 49,
                encoding != -1,
                first_index_of_code_page(encoding, 0) == first_index_of_code_page(encoding, i as int),
            decreases 49 - i,
        {
            let cp = ENCODING_CODE_PAGES[i];
            proof {
                vstd::array::lemma_array_index(ENCODING_CODE_PAGES, i as int);
            }
            if cp == encoding {
                return i as i32;
            }
            i += 1;
        }
        -1
    }

    /// The code page named by a charset alias, compared case-insensitively:
    /// `65001` for UTF-8, otherwise the code page of the first table entry
    /// whose alias list holds `alias`, otherwise `-1`.
    pub fn get_encoding_from_string(alias: &str) -> (r: i32)
        ensures
            r == spec_encoding_from_string(alias@),
    {
        if alias_matches(alias, UTF8_ALIASES) {
            return UTF8_CODE_PAGE;
        }
        let mut i: usize = 0;
        while i < ENCODING_COUNT
            invariant
                0 <= i <= 49,
                !spec_alias_matches(alias@, UTF8_ALIASES@),
                first_alias_code_page(alias@, 0) == first_alias_code_page(alias@, i as int),
            decreases 49 - i,
        {
            let list = ENCODING_ALIASES[i];
            proof {
                vstd::array::lemma_array_index(ENCODING_ALIASES, i as int);
                vstd::array::lemma_array_index(ENCODING_CODE_PAGES, i as int);
            }
            if alias_matches(alias, list) {
                return ENCODING_CODE_PAGES[i];
            }
            i += 1;
        }
        -1
    }
}

proof fn lemma_first_index_of_distinct(i: int, k: int)
    requires
        0 <= k <= i < 49,
        table_code_page(i) != -1,
    ensures
        first_index_of_code_page(table_code_page(i), k) == i,
    decreases i - k,
{
    lemma_code_pages_distinct();
    if k < i {
        assert(table_code_page(k) != table_code_page(i));
        lemma_first_index_of_distinct(i, k + 1);
    }
}

proof fn lemma_first_index_of_found(e: i32, k: int)
    requires
        0 <= k <= 49,
    ensures
        first_index_of_code_page(e, k) == -1 || (k <= first_index_of_code_page(e, k) < 49
            && table_code_page(first_index_of_code_page(e, k)) == e),
    decreases 49 - k,
{
    if k < 49 && table_code_page(k) != e {
        lemma_first_index_of_found(e, k + 1);
    }
}

/// Going from a menu index to its code page and back yields the same index,
/// for every entry that has a code page.
pub proof fn lemma_index_encoding_roundtrip(index: int)
    requires
        spec_encoding_from_index(index) != -1,
    ensures
        spec_index_from_encoding(spec_encoding_from_index(index)) == index,
{
    lemma_first_index_of_distinct(index, 0);
}

/// Going from a code page to its menu index and back yields the same code
/// page, for every code page that the table holds.
pub proof fn lemma_encoding_index_roundtrip(encoding: i32)
    requires
        spec_index_from_encoding(encoding) != -1,
    ensures
        spec_encoding_from_index(spec_index_from_encoding(encoding)) == encoding,
{
    lemma_first_index_of_found(encoding, 0);
}

proof fn lemma_alias_matches_ignores_ascii_case(a: Seq<char>, b: Seq<char>, list: Seq<char>)
    requires
        eq_ignore_ascii_case(a, b),
    ensures
        spec_alias_matches(a, list) == spec_alias_matches(b, list),
{
    if spec_alias_matches(a, list) {
        let (s, e) = choose|s: int, e: int|
            #[trigger] is_word_at(list, s, e) && eq_ignore_ascii_case(list.subrange(s, e), a);
        assert(eq_ignore_ascii_case(list.subrange(s, e), b));
    }
    if spec_alias_matches(b, list) {
        let (s, e) = choose|s: int, e: int|
            #[trigger] is_word_at(list, s, e) && eq_ignore_ascii_case(list.subrange(s, e), b);
        assert(eq_ignore_ascii_case(list.subrange(s, e), a));
    }
}

proof fn lemma_first_alias_ignores_ascii_case(a: Seq<char>, b: Seq<char>, k: int)
    requires
        eq_ignore_ascii_case(a, b),
        0 <= k,
    ensures
        first_alias_code_page(a, k) == first_alias_code_page(b, k),
    decreases 49 - k,
{
    if k < 49 {
        lemma_alias_matches_ignores_ascii_case(a, b, table_aliases(k));
        lemma_first_alias_ignores_ascii_case(a, b, k + 1);
    }
}

/// Aliases that differ only in the case of ASCII letters name the same code
/// page.
pub proof fn lemma_encoding_from_string_ignores_ascii_case(a: Seq<char>, b: Seq<char>)
    requires
        eq_ignore_ascii_case(a, b),
    ensures
        spec_encoding_from_string(a) == spec_encoding_from_string(b),
{
    lemma_alias_matches_ignores_ascii_case(a, b, UTF8_ALIASES@);
    lemma_first_alias_ignores_ascii_case(a, b, 0);
}

/// Lowering ASCII capital letters of an alias (any of them, to the
/// letter 32 code points higher) changes neither which alias lists it
/// matches nor the code page it names.
pub proof fn lemma_lowering_ascii_letters_keeps_code_page(a: Seq<char>, b: Seq<char>, list: Seq<char>)
    requires
        a.len() == b.len(),
        forall|i: int|
            0 <= i < a.len() ==> #[trigger] b[i] == a[i] || ('A' <= a[i] <= 'Z' && b[i] as u32
                == a[i] as u32 + 32),
    ensures
        spec_alias_matches(a, list) == spec_alias_matches(b, list),
        spec_encoding_from_string(a) == spec_encoding_from_string(b),
{
    assert forall|k: int| 0 <= k < a.len() implies fold_ascii(#[trigger] a[k]) == fold_ascii(
        b[k],
    ) by {
        if b[k] != a[k] {
            assert('A' <= a[k] <= 'Z');
            assert(b[k] as u32 == a[k] as u32 + 32);
            assert(!('A' <= b[k] <= 'Z'));
        }
    }
    assert(eq_ignore_ascii_case(a, b));
    lemma_alias_matches_ignores_ascii_case(a, b, list);
    lemma_encoding_from_string_ignores_ascii_case(a, b);
}

/// A token that stands in an alias list as a whole word (bounded by spaces
/// or by the ends of the list) matches that list.
pub proof fn lemma_listed_word_matches(left: Seq<char>, token: Seq<char>, right: Seq<char>)
    requires
        token.len() > 0,
        forall|i: int|
            0 <= i < token.len() ==> #[trigger] token[i] != ' ' && token[i] != '\t' && token[i]
                != '\n' && token[i] != '\x0C' && token[i] != '\r',
        left.len() == 0 || left.last() == ' ',
        right.len() == 0 || right[0] == ' ',
    ensures
        spec_alias_matches(token, left + token + right),
{
    let list = left + token + right;
    let s = left.len() as int;
    let e = s + token.len();
    assert(list.subrange(s, e) =~= token);
    assert forall|k: int| s <= k < e implies !is_ascii_ws(#[trigger] list[k]) by {
        assert(list[k] == token[k - s]);
    }
    if s > 0 {
        assert(list[s - 1] == left.last());
    }
    if e < list.len() {
        assert(list[e] == right[0]);
    }
    assert(is_word_at(list, s, e));
    assert(eq_ignore_ascii_case(list.subrange(s, e), token));
}

/// A token holding whitespace matches no alias list.
pub proof fn lemma_token_with_whitespace_never_matches(token: Seq<char>, list: Seq<char>, i: int)
    requires
        0 <= i < token.len(),
        token[i] == ' ' || token[i] == '\t' || token[i] == '\n' || token[i] == '\x0C' || token[i]
            == '\r',
    ensures
        !spec_alias_matches(token, list),
{
    if spec_alias_matches(token, list) {
        let (s, e) = choose|s: int, e: int|
            #[trigger] is_word_at(list, s, e) && eq_ignore_ascii_case(list.subrange(s, e), token);
        let w = list.subrange(s, e);
        assert(fold_ascii(w[i]) == fold_ascii(token[i]));
        assert(w[i] == list[s + i]);
        let c = list[s + i];
        assert(!is_ascii_ws(c));
        if !('A' <= c <= 'Z') {
            assert(c as u32 == token[i] as u32);
            vstd::utf8::char_u32_cast(c, c as u32);
            vstd::utf8::char_u32_cast(token[i], token[i] as u32);
            assert(c == token[i]);
        }
    }
}

} // verus!
