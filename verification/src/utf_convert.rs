use vstd::prelude::*;
use vstd::utf8::*;

use crate::types::UniMode;

verus! {

/// Result of scanning a byte buffer for UTF-8 validity.
#[derive(Clone, Copy, Debug, PartialEq, Eq, Structural)]
pub enum Utf8Class {
    /// All bytes are in the range 0x01-0x7F.
    Ascii7Bit,
    /// Bytes above 0x7F are present and the buffer is valid UTF-8.
    ValidUtf8,
    /// A NUL byte is present or the buffer is not valid UTF-8.
    Raw8Bit,
}

/// Classification of a byte buffer: raw when it holds a NUL byte or is not
/// valid UTF-8 (malformed, truncated, overlong, surrogate or beyond
/// U+10FFFF), valid UTF-8 when it holds a byte above 0x7F, 7-bit ASCII
/// otherwise.
pub open spec fn spec_classify_utf8(buf: Seq<u8>) -> Utf8Class {
    if buf.contains(0u8) || !valid_utf8(buf) {
        Utf8Class::Raw8Bit
    } else if exists|i: int| 0 <= i < buf.len() && #[trigger] buf[i] >= 0x80 {
        Utf8Class::ValidUtf8
    } else {
        Utf8Class::Ascii7Bit
    }
}

/// Whether `x` has the continuation-byte pattern 10xxxxxx.
fn is_cont_byte(x: u8) -> (r: bool)
    ensures
        r == is_continuation_byte(x),
{
    proof {
        utf8_byte_ranges_bitwise(x);
    }
    x & 0xC0 == 0x80
}

/// The value that a 2-byte sequence encodes.
fn codepoint_of_2(b0: u8, b1: u8) -> (r: u32)
    ensures
        r == codepoint_width_2(b0, b1),
{
    ((b0 & 0x1F) as u32) << 6 | (b1 & 0x3F) as u32
}

/// The value that a 3-byte sequence encodes.
fn codepoint_of_3(b0: u8, b1: u8, b2: u8) -> (r: u32)
    ensures
        r == codepoint_width_3(b0, b1, b2),
{
    ((b0 & 0x0F) as u32) << 12 | ((b1 & 0x3F) as u32) << 6 | (b2 & 0x3F) as u32
}

/// The value that a 4-byte sequence encodes.
fn codepoint_of_4(b0: u8, b1: u8, b2: u8, b3: u8) -> (r: u32)
    ensures
        r == codepoint_width_4(b0, b1, b2, b3),
{
    ((b0 & 0x07) as u32) << 18 | ((b1 & 0x3F) as u32) << 12 | ((b2 & 0x3F) as u32) << 6
        | (b3 & 0x3F) as u32
}

/// Whether a value decoded from a `len`-byte sequence is a scalar value that
/// needs exactly that many bytes (no overlong form, no surrogate).
fn scalar_fits(cp: u32, len: usize) -> (r: bool)
    ensures
        r == (not_overlong_encoding(cp, len as int) && not_surrogate(cp)),
{
    let fits = if len == 2 {
        0x80 <= cp
    } else if len == 3 {
        0x800 <= cp
    } else if len == 4 {
        0x10000 <= cp && cp <= 0x10FFFF
    } else {
        true
    };
    fits && !(0xD800 <= cp && cp <= 0xDFFF)
}

/// Classify a byte slice as 7-bit ASCII, valid UTF-8, or raw 8-bit data.
/// A NUL byte marks the data as raw.
pub fn classify_utf8(buf: &[u8]) -> (r: Utf8Class)
    ensures
        r == spec_classify_utf8(buf@),
{
    let mut i: usize = 0;
    let mut has_multibyte = false;
    let n = buf.len();
    assert(buf@.subrange(0, n as int) =~= buf@);

    while i < n
        invariant
            n == buf@.len(),
            0 <= i <= n,
            valid_utf8(buf@) == valid_utf8(buf@.subrange(i as int, n as int)),
            forall|k: int| 0 <= k < i ==> #[trigger] buf@[k] != 0,
            has_multibyte == exists|k: int| 0 <= k < i && #[trigger] buf@[k] >= 0x80,
        decreases n - i,
    {
        let ghost s = buf@.subrange(i as int, n as int);
        let b = buf[i];
        assert(s[0] == b);
        proof {
            utf8_byte_ranges_bitwise(b);
        }
        if b == 0x00 {
            assert(buf@.contains(0u8)) by {
                assert(buf@[i as int] == 0);
            }
            return Utf8Class::Raw8Bit;
        }
        if b & 0x80 == 0x00 {
            assert(s.subrange(1, s.len() as int) =~= buf@.subrange(i + 1, n as int));
            i += 1;
        } else if b & 0xC0 == 0x80 {
            assert(!valid_first_scalar(s));
            return Utf8Class::Raw8Bit;
        } else if b & 0xE0 == 0xC0 {
            if n - i <= 1 || !is_cont_byte(buf[i + 1]) {
                assert(n - i > 1 ==> s[1] == buf@[i + 1]);
                assert(!valid_first_scalar(s));
                return Utf8Class::Raw8Bit;
            }
            assert(s[1] == buf@[i + 1]);
            if !scalar_fits(codepoint_of_2(b, buf[i + 1]), 2) {
                assert(!valid_first_scalar(s));
                return Utf8Class::Raw8Bit;
            }
            assert(s.subrange(2, s.len() as int) =~= buf@.subrange(i + 2, n as int));
            has_multibyte = true;
            i += 2;
        } else if b & 0xF0 == 0xE0 {
            if n - i <= 2 || !is_cont_byte(buf[i + 1]) || !is_cont_byte(buf[i + 2]) {
                assert(n - i > 2 ==> s[1] == buf@[i + 1] && s[2] == buf@[i + 2]);
                assert(!valid_first_scalar(s));
                return Utf8Class::Raw8Bit;
            }
            assert(s[1] == buf@[i + 1]);
            assert(s[2] == buf@[i + 2]);
            if !scalar_fits(codepoint_of_3(b, buf[i + 1], buf[i + 2]), 3) {
                assert(!valid_first_scalar(s));
                return Utf8Class::Raw8Bit;
            }
            assert(s.subrange(3, s.len() as int) =~= buf@.subrange(i + 3, n as int));
            has_multibyte = true;
            i += 3;
        } else if b & 0xF8 == 0xF0 {
            if n - i <= 3 || !is_cont_byte(buf[i + 1]) || !is_cont_byte(buf[i + 2])
                || !is_cont_byte(buf[i + 3]) {
                assert(n - i > 3 ==> s[1] == buf@[i + 1] && s[2] == buf@[i + 2] && s[3] == buf@[i
                    + 3]);
                assert(!valid_first_scalar(s));
                return Utf8Class::Raw8Bit;
            }
            assert(s[1] == buf@[i + 1]);
            assert(s[2] == buf@[i + 2]);
            assert(s[3] == buf@[i + 3]);
            if !scalar_fits(codepoint_of_4(b, buf[i + 1], buf[i + 2], buf[i + 3]), 4) {
                assert(!valid_first_scalar(s));
                return Utf8Class::Raw8Bit;
            }
            assert(s.subrange(4, s.len() as int) =~= buf@.subrange(i + 4, n as int));
            has_multibyte = true;
            i += 4;
        } else {
            assert(!valid_first_scalar(s));
            return Utf8Class::Raw8Bit;
        }
    }
    assert(buf@.subrange(n as int, n as int) =~= Seq::<u8>::empty());
    assert(!buf@.contains(0u8));
    if has_multibyte {
        Utf8Class::ValidUtf8
    } else {
        Utf8Class::Ascii7Bit
    }
}

/// Byte-order mark of UTF-8.
pub const UTF8_BOM: [u8; 3] = [0xEF, 0xBB, 0xBF];

/// Byte-order mark of UTF-16 big-endian.
pub const UTF16_BE_BOM: [u8; 2] = [0xFE, 0xFF];

/// Byte-order mark of UTF-16 little-endian.
pub const UTF16_LE_BOM: [u8; 2] = [0xFF, 0xFE];

/// The byte-order mark that a mode writes: the UTF-8 mark for `Utf8`, the
/// UTF-16 marks for `Utf16BE` and `Utf16LE`, nothing for every other mode.
pub open spec fn spec_bom(mode: UniMode) -> Seq<u8> {
    match mode {
        UniMode::Utf8 => seq![0xEFu8, 0xBBu8, 0xBFu8],
        UniMode::Utf16BE => seq![0xFEu8, 0xFFu8],
        UniMode::Utf16LE => seq![0xFFu8, 0xFEu8],
        _ => Seq::<u8>::empty(),
    }
}

/// The mode whose byte-order mark begins `buf`, the UTF-8 mark tested first,
/// then the UTF-16 big-endian and little-endian marks; `None` when no mark
/// begins it.
pub open spec fn spec_detect_encoding_from_bom(buf: Seq<u8>) -> Option<UniMode> {
    if spec_bom(UniMode::Utf8).is_prefix_of(buf) {
        Some(UniMode::Utf8)
    } else if spec_bom(UniMode::Utf16BE).is_prefix_of(buf) {
        Some(UniMode::Utf16BE)
    } else if spec_bom(UniMode::Utf16LE).is_prefix_of(buf) {
        Some(UniMode::Utf16LE)
    } else {
        None
    }
}

/// The byte-order mark bytes of `mode`, empty when the mode has none.
pub fn bom_for(mode: UniMode) -> (r: &'static [u8])
    ensures
        r@ == spec_bom(mode),
{
    match mode {
        UniMode::Utf8 => {
            let bom: &'static [u8; 3] = &UTF8_BOM;
            let r = bom.as_slice();
            assert(r@ =~= spec_bom(mode));
            r
        },
        UniMode::Utf16BE => {
            let bom: &'static [u8; 2] = &UTF16_BE_BOM;
            let r = bom.as_slice();
            assert(r@ =~= spec_bom(mode));
            r
        },
        UniMode::Utf16LE => {
            let bom: &'static [u8; 2] = &UTF16_LE_BOM;
            let r = bom.as_slice();
            assert(r@ =~= spec_bom(mode));
            r
        },
        _ => {
            let none: &'static [u8; 0] = &[];
            let r = none.as_slice();
            assert(r@ =~= spec_bom(mode));
            r
        },
    }
}

/// Determine a buffer's Unicode mode from its byte-order mark; `None` when
/// it begins with none of the marks of `Utf8`, `Utf16BE` and `Utf16LE`.
pub fn detect_encoding_from_bom(buf: &[u8]) -> (r: Option<UniMode>)
    ensures
        r == spec_detect_encoding_from_bom(buf@),
{
    let ghost b = buf@;
    assert(spec_bom(UniMode::Utf8).is_prefix_of(b) <==> (b.len() >= 3 && b[0] == 0xEF && b[1]
        == 0xBB && b[2] == 0xBF)) by {
        if b.len() >= 3 && b[0] == 0xEF && b[1] == 0xBB && b[2] == 0xBF {
            assert(b.subrange(0, 3) =~= spec_bom(UniMode::Utf8));
        }
        if spec_bom(UniMode::Utf8).is_prefix_of(b) {
            assert(b.subrange(0, 3)[0] == b[0]);
            assert(b.subrange(0, 3)[1] == b[1]);
            assert(b.subrange(0, 3)[2] == b[2]);
        }
    }
    assert(spec_bom(UniMode::Utf16BE).is_prefix_of(b) <==> (b.len() >= 2 && b[0] == 0xFE && b[1]
        == 0xFF)) by {
        if b.len() >= 2 && b[0] == 0xFE && b[1] == 0xFF {
            assert(b.subrange(0, 2) =~= spec_bom(UniMode::Utf16BE));
        }
        if spec_bom(UniMode::Utf16BE).is_prefix_of(b) {
            assert(b.subrange(0, 2)[0] == b[0]);
            assert(b.subrange(0, 2)[1] == b[1]);
        }
    }
    assert(spec_bom(UniMode::Utf16LE).is_prefix_of(b) <==> (b.len() >= 2 && b[0] == 0xFF && b[1]
        == 0xFE)) by {
        if b.len() >= 2 && b[0] == 0xFF && b[1] == 0xFE {
            assert(b.subrange(0, 2) =~= spec_bom(UniMode::Utf16LE));
        }
        if spec_bom(UniMode::Utf16LE).is_prefix_of(b) {
            assert(b.subrange(0, 2)[0] == b[0]);
            assert(b.subrange(0, 2)[1] == b[1]);
        }
    }
    if buf.len() >= 3 && buf[0] == 0xEF && buf[1] == 0xBB && buf[2] == 0xBF {
        return Some(UniMode::Utf8);
    }
    if buf.len() >= 2 {
        if buf[0] == 0xFE && buf[1] == 0xFF {
            return Some(UniMode::Utf16BE);
        }
        if buf[0] == 0xFF && buf[1] == 0xFE {
            return Some(UniMode::Utf16LE);
        }
    }
    None
}

/// A buffer that begins with the byte-order mark of a mode is detected as
/// that mode, whatever follows the mark.
pub proof fn lemma_detect_bom_of_mode(mode: UniMode, rest: Seq<u8>)
    requires
        spec_bom(mode).len() > 0,
    ensures
        spec_detect_encoding_from_bom(spec_bom(mode) + rest) == Some(mode),
{
    let b = spec_bom(mode) + rest;
    assert(b.subrange(0, spec_bom(mode).len() as int) =~= spec_bom(mode));
    if mode != UniMode::Utf8 && spec_bom(UniMode::Utf8).is_prefix_of(b) {
        assert(b.subrange(0, 3)[0] == b[0]);
    }
    if mode == UniMode::Utf16LE && spec_bom(UniMode::Utf16BE).is_prefix_of(b) {
        assert(b.subrange(0, 2)[0] == b[0]);
    }
}


/// `u` is a UTF-16 high (leading) surrogate.
pub open spec fn is_high_surrogate(u: u16) -> bool {
    0xD800 <= u <= 0xDBFF
}

/// `u` is a UTF-16 low (trailing) surrogate.
pub open spec fn is_low_surrogate(u: u16) -> bool {
    0xDC00 <= u <= 0xDFFF
}

/// The supplementary code point that a high and a low surrogate encode.
pub open spec fn surrogate_pair_value(high: u16, low: u16) -> u32 {
    (0x10000 + (high - 0xD800) * 0x400 + (low - 0xDC00)) as u32
}

/// The `k`-th 16-bit code unit of `bytes`, read in the given byte order.
pub open spec fn utf16_unit(bytes: Seq<u8>, k: int, big_endian: bool) -> u16 {
    if big_endian {
        (bytes[2 * k] * 256 + bytes[2 * k + 1]) as u16
    } else {
        (bytes[2 * k + 1] * 256 + bytes[2 * k]) as u16
    }
}

/// The 16-bit code units of `bytes` (a trailing odd byte is not a unit).
pub open spec fn utf16_units(bytes: Seq<u8>, big_endian: bool) -> Seq<u16> {
    Seq::new((bytes.len() / 2) as nat, |k: int| utf16_unit(bytes, k, big_endian))
}

/// The characters that a sequence of UTF-16 code units encodes: a high
/// surrogate followed by a low surrogate encodes one supplementary character,
/// any other non-surrogate unit encodes itself; `None` when a surrogate is
/// unpaired.
pub open spec fn decode_utf16(units: Seq<u16>) -> Option<Seq<char>>
    decreases units.len(),
{
    if units.len() == 0 {
        Some(Seq::<char>::empty())
    } else if is_high_surrogate(units[0]) {
        if units.len() >= 2 && is_low_surrogate(units[1]) {
            match decode_utf16(units.subrange(2, units.len() as int)) {
                Some(rest) => Some(seq![surrogate_pair_value(units[0], units[1]) as char] + rest),
                None => None,
            }
        } else {
            None
        }
    } else if is_low_surrogate(units[0]) {
        None
    } else {
        match decode_utf16(units.subrange(1, units.len() as int)) {
            Some(rest) => Some(seq![(units[0] as u32) as char] + rest),
            None => None,
        }
    }
}

/// The UTF-8 form of UTF-16 data in the given byte order: `None` when the
/// byte count is odd or a surrogate is unpaired.
pub open spec fn spec_utf16_to_utf8(input: Seq<u8>, big_endian: bool) -> Option<Seq<u8>> {
    if input.len() % 2 != 0 {
        None
    } else {
        match decode_utf16(utf16_units(input, big_endian)) {
            Some(chars) => Some(encode_utf8(chars)),
            None => None,
        }
    }
}

/// Calls `char::from_u32`, which gives the `char` whose value is `v` when `v`
/// is a Unicode scalar value (at most 0x10FFFF and not a surrogate) and
/// `None` otherwise.
#[verifier::external_body]
fn char_from_u32(v: u32) -> (r: Option<char>)
    ensures
        r is Some <==> is_scalar(v),
        r matches Some(c) ==> c as u32 == v,
{
    char::from_u32(v)
}

/// The character that a high and a low surrogate encode; `None` unless
/// `high` is a high surrogate and `low` a low surrogate.
fn decode_surrogate_pair(high: u16, low: u16) -> (r: Option<char>)
    ensures
        r == (if is_high_surrogate(high) && is_low_surrogate(low) {
            Some(surrogate_pair_value(high, low) as char)
        } else {
            None
        }),
{
    if 0xD800 <= high && high <= 0xDBFF && 0xDC00 <= low && low <= 0xDFFF {
        let h = high as u32 - 0xD800;
        assert(h << 10 == h * 0x400) by (bit_vector)
            requires
                h < 0x400,
        ;
        let code_point = 0x10000u32 + (h << 10) + (low as u32 - 0xDC00);
        let r = char_from_u32(code_point);
        proof {
            let c = r->0;
            char_u32_cast(c, code_point);
        }
        r
    } else {
        None
    }
}

/// Append the UTF-8 encoding of `c` to `out`.
fn encode_utf8_into(c: char, out: &mut Vec<u8>)
    ensures
        final(out)@ == old(out)@ + encode_scalar(c as u32),
{
    let v = c as u32;
    proof {
        char_is_scalar(c);
    }
    if v <= 0x7F {
        out.push((v & 0x7F) as u8);
    } else if v <= 0x7FF {
        out.push(0xC0 | ((v >> 6) & 0x1F) as u8);
        out.push(0x80 | (v & 0x3F) as u8);
    } else if v <= 0xFFFF {
        out.push(0xE0 | ((v >> 12) & 0x0F) as u8);
        out.push(0x80 | ((v >> 6) & 0x3F) as u8);
        out.push(0x80 | (v & 0x3F) as u8);
    } else {
        out.push(0xF0 | ((v >> 18) & 0x7) as u8);
        out.push(0x80 | ((v >> 12) & 0x3F) as u8);
        out.push(0x80 | ((v >> 6) & 0x3F) as u8);
        out.push(0x80 | (v & 0x3F) as u8);
    }
    assert(out@ =~= old(out)@ + encode_scalar(c as u32));
}

/// Encoding one more character appends its encoding.
proof fn lemma_encode_utf8_push(chars: Seq<char>, c: char)
    ensures
        encode_utf8(chars.push(c)) == encode_utf8(chars) + encode_scalar(c as u32),
    decreases chars.len(),
{
    if chars.len() == 0 {
        assert(chars.push(c).drop_first() =~= Seq::<char>::empty());
        assert(encode_utf8(Seq::<char>::empty()) =~= Seq::<u8>::empty());
        assert(encode_utf8(chars.push(c)) =~= encode_utf8(chars) + encode_scalar(c as u32));
    } else {
        assert(chars.push(c).drop_first() =~= chars.drop_first().push(c));
        lemma_encode_utf8_push(chars.drop_first(), c);
        assert(encode_utf8(chars.push(c)) =~= encode_utf8(chars) + encode_scalar(c as u32));
    }
}

/// Read the 16-bit code unit made of bytes `a` then `b` in the given order.
fn read_unit(a: u8, b: u8, big_endian: bool) -> (r: u16)
    ensures
        r == (if big_endian {
            (a * 256 + b) as u16
        } else {
            (b * 256 + a) as u16
        }),
{
    if big_endian {
        (a as u16) * 256 + (b as u16)
    } else {
        (b as u16) * 256 + (a as u16)
    }
}

/// Convert UTF-16 data, given as bytes in the given byte order, to UTF-8.
/// `None` when the byte count is odd or a surrogate is unpaired.
pub fn utf16_to_utf8(input: &[u8], is_big_endian: bool) -> (r: Option<Vec<u8>>)
    ensures
        r matches Some(v) ==> spec_utf16_to_utf8(input@, is_big_endian) == Some(v@),
        r is None ==> spec_utf16_to_utf8(input@, is_big_endian) is None,
{
    let n = input.len();
    if n % 2 != 0 {
        return None;
    }
    let ghost units = utf16_units(input@, is_big_endian);
    let ghost mut done = Seq::<char>::empty();
    let mut out: Vec<u8> = Vec::with_capacity(n);
    let mut i: usize = 0;
    assert(units.subrange(0, units.len() as int) =~= units);
    assert(done + decode_utf16(units).unwrap() =~= decode_utf16(units).unwrap());

    while i + 1 < n
        invariant
            n == input@.len(),
            n % 2 == 0,
            i % 2 == 0,
            i <= n,
            units == utf16_units(input@, is_big_endian),
            out@ == encode_utf8(done),
            decode_utf16(units) == (match decode_utf16(units.subrange(i as int / 2, units.len() as int)) {
                Some(rest) => Some(done + rest),
                None => None,
            }),
        decreases n - i,
    {
        let ghost rest = units.subrange(i as int / 2, units.len() as int);
        let unit = read_unit(input[i], input[i + 1], is_big_endian);
        assert(unit == units[i as int / 2]);
        assert(rest[0] == unit);
        i += 2;

        if 0xD800 <= unit && unit <= 0xDBFF {
            if i + 1 >= n {
                assert(rest.len() == 1);
                return None;
            }
            let low = read_unit(input[i], input[i + 1], is_big_endian);
            assert(low == units[i as int / 2]);
            assert(rest[1] == low);
            let c = match decode_surrogate_pair(unit, low) {
                Some(c) => c,
                None => {
                    return None;
                },
            };
            i += 2;
            proof {
                assert(rest.subrange(2, rest.len() as int) =~= units.subrange(i as int / 2, units.len() as int));
                lemma_encode_utf8_push(done, c);
                let tail = decode_utf16(units.subrange(i as int / 2, units.len() as int));
                if tail is Some {
                    assert(done + (seq![c] + tail.unwrap()) =~= done.push(c) + tail.unwrap());
                }
            }
            encode_utf8_into(c, &mut out);
            proof {
                done = done.push(c);
            }
        } else if 0xDC00 <= unit && unit <= 0xDFFF {
            return None;
        } else {
            let c = match char_from_u32(unit as u32) {
                Some(c) => c,
                None => {
                    return None;
                },
            };
            proof {
                char_u32_cast(c, unit as u32);
                assert(rest.subrange(1, rest.len() as int) =~= units.subrange(i as int / 2, units.len() as int));
                lemma_encode_utf8_push(done, c);
                let tail = decode_utf16(units.subrange(i as int / 2, units.len() as int));
                if tail is Some {
                    assert(done + (seq![c] + tail.unwrap()) =~= done.push(c) + tail.unwrap());
                }
            }
            encode_utf8_into(c, &mut out);
            proof {
                done = done.push(c);
            }
        }
    }
    assert(units.subrange(i as int / 2, units.len() as int) =~= Seq::<u16>::empty());
    assert(done + Seq::<char>::empty() =~= done);
    Some(out)
}


/// The UTF-16 code units of one character: the value itself below 0x10000,
/// a high and a low surrogate above.
pub open spec fn char_utf16(c: char) -> Seq<u16> {
    let v = c as u32;
    if v < 0x10000 {
        seq![v as u16]
    } else {
        let w = v - 0x10000;
        seq![(0xD800 + w / 0x400) as u16, (0xDC00 + w % 0x400) as u16]
    }
}

/// The UTF-16 code units of a character sequence.
pub open spec fn encode_utf16(chars: Seq<char>) -> Seq<u16>
    decreases chars.len(),
{
    if chars.len() == 0 {
        Seq::<u16>::empty()
    } else {
        char_utf16(chars[0]) + encode_utf16(chars.drop_first())
    }
}

/// The two bytes of a code unit in the given byte order.
pub open spec fn unit_bytes(u: u16, big_endian: bool) -> Seq<u8> {
    if big_endian {
        seq![(u / 256) as u8, (u % 256) as u8]
    } else {
        seq![(u % 256) as u8, (u / 256) as u8]
    }
}

/// The bytes of a sequence of code units in the given byte order.
pub open spec fn units_to_bytes(units: Seq<u16>, big_endian: bool) -> Seq<u8>
    decreases units.len(),
{
    if units.len() == 0 {
        Seq::<u8>::empty()
    } else {
        unit_bytes(units[0], big_endian) + units_to_bytes(units.drop_first(), big_endian)
    }
}

/// The UTF-16 form, in the given byte order, of UTF-8 data; `None` when the
/// data is not valid UTF-8.
pub open spec fn spec_utf8_to_utf16(input: Seq<u8>, big_endian: bool) -> Option<Seq<u8>> {
    if valid_utf8(input) {
        Some(units_to_bytes(encode_utf16(decode_utf8(input)), big_endian))
    } else {
        None
    }
}

#[verifier::external_type_specification]
#[verifier::external_body]
pub struct ExUtf8Error(core::str::Utf8Error);

/// The error that `core::str::from_utf8` reports for bytes that are not
/// valid UTF-8 (it records where the valid prefix ends and how the next
/// sequence is malformed, and so depends on the bytes alone).
pub uninterp spec fn from_utf8_error(bytes: Seq<u8>) -> core::str::Utf8Error;

/// Calls `core::str::from_utf8`, which gives the string slice that the bytes
/// encode when they are valid UTF-8 and otherwise the error for those bytes.
#[verifier::external_body]
fn str_from_utf8(v: &[u8]) -> (r: Result<&str, core::str::Utf8Error>)
    ensures
        r is Ok <==> valid_utf8(v@),
        r matches Ok(s) ==> s@ == decode_utf8(v@),
        r matches Err(e) ==> e == from_utf8_error(v@),
{
    core::str::from_utf8(v)
}

proof fn lemma_encode_utf16_push(chars: Seq<char>, c: char)
    ensures
        encode_utf16(chars.push(c)) == encode_utf16(chars) + char_utf16(c),
    decreases chars.len(),
{
    if chars.len() == 0 {
        assert(chars.push(c).drop_first() =~= Seq::<char>::empty());
        assert(encode_utf16(chars.push(c).drop_first()) =~= Seq::<u16>::empty());
        assert(encode_utf16(chars) =~= Seq::<u16>::empty());
        assert(chars.push(c)[0] == c);
        assert(encode_utf16(chars.push(c)) =~= encode_utf16(chars) + char_utf16(c));
    } else {
        assert(chars.push(c).drop_first() =~= chars.drop_first().push(c));
        lemma_encode_utf16_push(chars.drop_first(), c);
        assert(encode_utf16(chars.push(c)) =~= encode_utf16(chars) + char_utf16(c));
    }
}

proof fn lemma_units_to_bytes_push(units: Seq<u16>, u: u16, big_endian: bool)
    ensures
        units_to_bytes(units.push(u), big_endian) == units_to_bytes(units, big_endian) + unit_bytes(
            u,
            big_endian,
        ),
    decreases units.len(),
{
    if units.len() == 0 {
        assert(units.push(u).drop_first() =~= Seq::<u16>::empty());
        assert(units_to_bytes(units.push(u).drop_first(), big_endian) =~= Seq::<u8>::empty());
        assert(units_to_bytes(units, big_endian) =~= Seq::<u8>::empty());
        assert(units.push(u)[0] == u);
        assert(units_to_bytes(units.push(u), big_endian) =~= units_to_bytes(units, big_endian)
            + unit_bytes(u, big_endian));
    } else {
        assert(units.push(u).drop_first() =~= units.drop_first().push(u));
        lemma_units_to_bytes_push(units.drop_first(), u, big_endian);
        assert(units_to_bytes(units.push(u), big_endian) =~= units_to_bytes(units, big_endian)
            + unit_bytes(u, big_endian));
    }
}

/// Append the two bytes of `u` in the given byte order to `out`.
fn push_unit(out: &mut Vec<u8>, u: u16, big_endian: bool)
    ensures
        final(out)@ == old(out)@ + unit_bytes(u, big_endian),
{
    if big_endian {
        out.push((u / 256) as u8);
        out.push((u % 256) as u8);
    } else {
        out.push((u % 256) as u8);
        out.push((u / 256) as u8);
    }
    assert(out@ =~= old(out)@ + unit_bytes(u, big_endian));
}

/// Encode the characters of `s` as UTF-16 bytes in the given byte order.
fn str_to_utf16(s: &str, big_endian: bool) -> (r: Vec<u8>)
    ensures
        r@ == units_to_bytes(encode_utf16(s@), big_endian),
{
    let chars = crate::encoding_mapper::chars_of(s);
    let mut out: Vec<u8> = Vec::new();
    let ghost mut units = Seq::<u16>::empty();
    let mut i: usize = 0;
    assert(encode_utf16(Seq::<char>::empty()) =~= Seq::<u16>::empty());
    assert(chars@.take(0) =~= Seq::<char>::empty());
    while i < chars.len()
        invariant
            chars@ == s@,
            0 <= i <= chars@.len(),
            units == encode_utf16(chars@.take(i as int)),
            out@ == units_to_bytes(units, big_endian),
        decreases chars@.len() - i,
    {
        let c = chars[i];
        let ghost before = chars@.take(i as int);
        assert(chars@.take(i + 1) =~= before.push(c));
        proof {
            lemma_encode_utf16_push(before, c);
        }
        let v = c as u32;
        if v < 0x10000 {
            let u = v as u16;
            proof {
                lemma_units_to_bytes_push(units, u, big_endian);
                assert(char_utf16(c) =~= seq![u]);
                assert(units + char_utf16(c) =~= units.push(u));
                units = units.push(u);
            }
            push_unit(&mut out, u, big_endian);
        } else {
            proof {
                char_is_scalar(c);
            }
            let w = v - 0x10000;
            let high = (0xD800 + w / 0x400) as u16;
            let low = (0xDC00 + w % 0x400) as u16;
            proof {
                lemma_units_to_bytes_push(units, high, big_endian);
                lemma_units_to_bytes_push(units.push(high), low, big_endian);
                assert(char_utf16(c) =~= seq![high, low]);
                assert(units + char_utf16(c) =~= units.push(high).push(low));
                units = units.push(high).push(low);
            }
            push_unit(&mut out, high, big_endian);
            push_unit(&mut out, low, big_endian);
        }
        i += 1;
    }
    assert(chars@.take(i as int) =~= s@);
    out
}

/// Convert UTF-8 data to UTF-16 little-endian bytes; the error that
/// `core::str::from_utf8` reports for `input` when it is not valid UTF-8.
pub fn utf8_to_utf16_le(input: &[u8]) -> (r: Result<Vec<u8>, core::str::Utf8Error>)
    ensures
        r is Ok <==> valid_utf8(input@),
        r matches Ok(v) ==> spec_utf8_to_utf16(input@, false) == Some(v@),
        r matches Err(e) ==> e == from_utf8_error(input@),
{
    match str_from_utf8(input) {
        Ok(s) => Ok(str_to_utf16(s, false)),
        Err(e) => Err(e),
    }
}

/// Convert UTF-8 data to UTF-16 big-endian bytes; the error that
/// `core::str::from_utf8` reports for `input` when it is not valid UTF-8.
pub fn utf8_to_utf16_be(input: &[u8]) -> (r: Result<Vec<u8>, core::str::Utf8Error>)
    ensures
        r is Ok <==> valid_utf8(input@),
        r matches Ok(v) ==> spec_utf8_to_utf16(input@, true) == Some(v@),
        r matches Err(e) ==> e == from_utf8_error(input@),
{
    match str_from_utf8(input) {
        Ok(s) => Ok(str_to_utf16(s, true)),
        Err(e) => Err(e),
    }
}


proof fn lemma_units_to_bytes_index(units: Seq<u16>, big_endian: bool)
    ensures
        units_to_bytes(units, big_endian).len() == 2 * units.len(),
        forall|k: int|
            0 <= k < units.len() ==> {
                &&& #[trigger] units_to_bytes(units, big_endian)[2 * k] == unit_bytes(units[k], big_endian)[0]
                &&& units_to_bytes(units, big_endian)[2 * k + 1] == unit_bytes(units[k], big_endian)[1]
            },
    decreases units.len(),
{
    if units.len() > 0 {
        let rest = units.drop_first();
        lemma_units_to_bytes_index(rest, big_endian);
        let b = units_to_bytes(units, big_endian);
        let rb = units_to_bytes(rest, big_endian);
        assert forall|k: int| 0 <= k < units.len() implies {
            &&& #[trigger] b[2 * k] == unit_bytes(units[k], big_endian)[0]
            &&& b[2 * k + 1] == unit_bytes(units[k], big_endian)[1]
        } by {
            if k > 0 {
                assert(b[2 * k] == rb[2 * (k - 1)]);
                assert(b[2 * k + 1] == rb[2 * (k - 1) + 1]);
                assert(units[k] == rest[k - 1]);
            }
        }
    }
}

proof fn lemma_unit_bytes_read(u: u16, big_endian: bool)
    ensures
        ({
            let b = unit_bytes(u, big_endian);
            if big_endian {
                (b[0] * 256 + b[1]) as u16 == u
            } else {
                (b[1] * 256 + b[0]) as u16 == u
            }
        }),
{
    assert((u / 256) * 256 + u % 256 == u) by (nonlinear_arith);
}

proof fn lemma_read_unit_bytes(a: u8, b: u8, big_endian: bool)
    ensures
        big_endian ==> unit_bytes((a * 256 + b) as u16, true) == seq![a, b],
        !big_endian ==> unit_bytes((b * 256 + a) as u16, false) == seq![a, b],
{
    assert((a * 256 + b) / 256 == a && (a * 256 + b) % 256 == b) by (nonlinear_arith)
        requires
            a < 256 && b < 256,
    ;
    assert((b * 256 + a) / 256 == b && (b * 256 + a) % 256 == a) by (nonlinear_arith)
        requires
            a < 256 && b < 256,
    ;
    if big_endian {
        assert(unit_bytes((a * 256 + b) as u16, true) =~= seq![a, b]);
    } else {
        assert(unit_bytes((b * 256 + a) as u16, false) =~= seq![a, b]);
    }
}

/// Reading back the code units of written bytes gives the same units.
proof fn lemma_units_bytes_roundtrip(units: Seq<u16>, big_endian: bool)
    ensures
        units_to_bytes(units, big_endian).len() % 2 == 0,
        utf16_units(units_to_bytes(units, big_endian), big_endian) == units,
{
    lemma_units_to_bytes_index(units, big_endian);
    let b = units_to_bytes(units, big_endian);
    assert forall|k: int| 0 <= k < units.len() implies utf16_unit(b, k, big_endian) == units[k] by {
        assert(b[2 * k] == unit_bytes(units[k], big_endian)[0]);
        lemma_unit_bytes_read(units[k], big_endian);
    }
    assert(utf16_units(b, big_endian) =~= units);
}

/// Writing back the code units of an even-length byte sequence gives the
/// same bytes.
proof fn lemma_bytes_units_roundtrip(bytes: Seq<u8>, big_endian: bool)
    requires
        bytes.len() % 2 == 0,
    ensures
        units_to_bytes(utf16_units(bytes, big_endian), big_endian) == bytes,
{
    let units = utf16_units(bytes, big_endian);
    lemma_units_to_bytes_index(units, big_endian);
    let b = units_to_bytes(units, big_endian);
    assert forall|i: int| 0 <= i < bytes.len() implies b[i] == bytes[i] by {
        let k = i / 2;
        lemma_read_unit_bytes(bytes[2 * k], bytes[2 * k + 1], big_endian);
        assert(b[2 * k] == unit_bytes(units[k], big_endian)[0]);
        if i % 2 == 0 {
            assert(i == 2 * k);
        } else {
            assert(i == 2 * k + 1);
        }
    }
    assert(b =~= bytes);
}

proof fn lemma_surrogates_of_scalar(v: u32)
    requires
        0x10000 <= v <= 0x10FFFF,
    ensures
        ({
            let w = v - 0x10000;
            let high = (0xD800 + w / 0x400) as u16;
            let low = (0xDC00 + w % 0x400) as u16;
            &&& is_high_surrogate(high)
            &&& is_low_surrogate(low)
            &&& surrogate_pair_value(high, low) == v
        }),
{
    let w = v - 0x10000;
    assert(w / 0x400 < 0x400 && (w / 0x400) * 0x400 + w % 0x400 == w) by (nonlinear_arith)
        requires
            0 <= w < 0x100000,
    ;
}

proof fn lemma_scalar_of_surrogates(high: u16, low: u16)
    requires
        is_high_surrogate(high),
        is_low_surrogate(low),
    ensures
        ({
            let v = surrogate_pair_value(high, low);
            let w = v - 0x10000;
            &&& 0x10000 <= v <= 0x10FFFF
            &&& (0xD800 + w / 0x400) as u16 == high
            &&& (0xDC00 + w % 0x400) as u16 == low
        }),
{
    let h = high - 0xD800;
    let l = low - 0xDC00;
    assert((h * 0x400 + l) / 0x400 == h && (h * 0x400 + l) % 0x400 == l) by (nonlinear_arith)
        requires
            0 <= h < 0x400 && 0 <= l < 0x400,
    ;
}

/// Decoding the UTF-16 encoding of characters gives them back.
proof fn lemma_decode_encode_utf16(chars: Seq<char>)
    ensures
        decode_utf16(encode_utf16(chars)) == Some(chars),
    decreases chars.len(),
{
    if chars.len() == 0 {
        assert(encode_utf16(chars) =~= Seq::<u16>::empty());
    } else {
        let c = chars[0];
        let rest = chars.drop_first();
        let v = c as u32;
        let e = encode_utf16(chars);
        lemma_decode_encode_utf16(rest);
        char_is_scalar(c);
        char_u32_cast(c, v);
        if v < 0x10000 {
            assert(e.subrange(1, e.len() as int) =~= encode_utf16(rest));
            assert(e[0] == v as u16);
            assert(seq![c] + rest =~= chars);
        } else {
            lemma_surrogates_of_scalar(v);
            assert(e.subrange(2, e.len() as int) =~= encode_utf16(rest));
            assert(seq![c] + rest =~= chars);
        }
    }
}

/// Encoding the characters that UTF-16 code units decode to gives the units
/// back.
proof fn lemma_encode_decode_utf16(units: Seq<u16>)
    requires
        decode_utf16(units) is Some,
    ensures
        encode_utf16(decode_utf16(units).unwrap()) == units,
    decreases units.len(),
{
    if units.len() == 0 {
        assert(encode_utf16(Seq::<char>::empty()) =~= Seq::<u16>::empty());
    } else {
        let chars = decode_utf16(units).unwrap();
        if is_high_surrogate(units[0]) {
            let tail = units.subrange(2, units.len() as int);
            lemma_encode_decode_utf16(tail);
            lemma_scalar_of_surrogates(units[0], units[1]);
            let v = surrogate_pair_value(units[0], units[1]);
            assert(chars.drop_first() =~= decode_utf16(tail).unwrap());
            assert((v as char) as u32 == v);
            assert(char_utf16(chars[0]) =~= seq![units[0], units[1]]);
            assert(encode_utf16(chars) =~= units);
        } else {
            let tail = units.subrange(1, units.len() as int);
            lemma_encode_decode_utf16(tail);
            let v = units[0] as u32;
            assert(chars.drop_first() =~= decode_utf16(tail).unwrap());
            assert((v as char) as u32 == v);
            assert(char_utf16(chars[0]) =~= seq![units[0]]);
            assert(encode_utf16(chars) =~= units);
        }
    }
}

/// Converting valid UTF-8 to UTF-16 and back gives the original bytes, in
/// either byte order.
pub proof fn lemma_utf8_utf16_roundtrip(input: Seq<u8>, big_endian: bool)
    requires
        valid_utf8(input),
    ensures
        spec_utf8_to_utf16(input, big_endian) is Some,
        spec_utf16_to_utf8(spec_utf8_to_utf16(input, big_endian).unwrap(), big_endian) == Some(input),
{
    let chars = decode_utf8(input);
    let units = encode_utf16(chars);
    lemma_units_bytes_roundtrip(units, big_endian);
    lemma_decode_encode_utf16(chars);
    decode_utf8_encode_utf8(input);
}

/// Converting UTF-16 that converts to UTF-8 back to UTF-16 gives the
/// original bytes, in either byte order.
pub proof fn lemma_utf16_utf8_roundtrip(input: Seq<u8>, big_endian: bool)
    requires
        spec_utf16_to_utf8(input, big_endian) is Some,
    ensures
        spec_utf8_to_utf16(spec_utf16_to_utf8(input, big_endian).unwrap(), big_endian) == Some(input),
{
    let units = utf16_units(input, big_endian);
    let chars = decode_utf16(units).unwrap();
    encode_utf8_valid_utf8(chars);
    encode_utf8_decode_utf8(chars);
    lemma_encode_decode_utf16(units);
    lemma_bytes_units_roundtrip(input, big_endian);
}


/// A buffer is classified as raw exactly when it holds a NUL byte or its
/// conversion from UTF-8 to UTF-16 is refused (in either byte order).
pub proof fn lemma_raw_iff_nul_or_unconvertible(buf: Seq<u8>, big_endian: bool)
    ensures
        (spec_classify_utf8(buf) == Utf8Class::Raw8Bit) == (buf.contains(0u8)
            || spec_utf8_to_utf16(buf, big_endian) is None),
{
}

/// The big-endian UTF-16 form of UTF-8 data is its little-endian form with
/// the two bytes of every code unit swapped; both exist for the same inputs.
pub proof fn lemma_utf16_byte_orders_swapped(input: Seq<u8>)
    ensures
        spec_utf8_to_utf16(input, true) is Some == spec_utf8_to_utf16(input, false) is Some,
        spec_utf8_to_utf16(input, true) is Some ==> ({
            let be = spec_utf8_to_utf16(input, true).unwrap();
            let le = spec_utf8_to_utf16(input, false).unwrap();
            &&& be.len() == le.len()
            &&& be.len() % 2 == 0
            &&& forall|k: int|
                0 <= k < be.len() / 2 ==> #[trigger] be[2 * k] == le[2 * k + 1] && be[2 * k + 1]
                    == le[2 * k]
        }),
{
    if valid_utf8(input) {
        let units = encode_utf16(decode_utf8(input));
        lemma_units_to_bytes_index(units, true);
        lemma_units_to_bytes_index(units, false);
        let be = units_to_bytes(units, true);
        let le = units_to_bytes(units, false);
        assert forall|k: int| 0 <= k < be.len() / 2 implies #[trigger] be[2 * k] == le[2 * k + 1]
            && be[2 * k + 1] == le[2 * k] by {
            assert(be[2 * k] == unit_bytes(units[k], true)[0]);
            assert(le[2 * k] == unit_bytes(units[k], false)[0]);
        }
    }
}

/// Only `Utf8`, `Utf16BE` and `Utf16LE` have a byte-order mark, and these
/// are EF BB BF, FE FF and FF FE.
pub proof fn lemma_bom_bytes(mode: UniMode)
    ensures
        spec_bom(mode).len() > 0 <==> (mode == UniMode::Utf8 || mode == UniMode::Utf16BE || mode
            == UniMode::Utf16LE),
        mode == UniMode::Utf8 ==> spec_bom(mode) == seq![0xEFu8, 0xBBu8, 0xBFu8],
        mode == UniMode::Utf16BE ==> spec_bom(mode) == seq![0xFEu8, 0xFFu8],
        mode == UniMode::Utf16LE ==> spec_bom(mode) == seq![0xFFu8, 0xFEu8],
{
}

/// A buffer is detected as UTF-8 exactly when it begins with EF BB BF, as
/// UTF-16 big-endian exactly when it begins with FE FF, as UTF-16
/// little-endian exactly when it begins with FF FE, and as nothing otherwise.
pub proof fn lemma_detect_by_leading_bytes(buf: Seq<u8>)
    ensures
        (spec_detect_encoding_from_bom(buf) == Some(UniMode::Utf8)) == (buf.len() >= 3 && buf[0]
            == 0xEF && buf[1] == 0xBB && buf[2] == 0xBF),
        (spec_detect_encoding_from_bom(buf) == Some(UniMode::Utf16BE)) == (buf.len() >= 2 && buf[0]
            == 0xFE && buf[1] == 0xFF),
        (spec_detect_encoding_from_bom(buf) == Some(UniMode::Utf16LE)) == (buf.len() >= 2 && buf[0]
            == 0xFF && buf[1] == 0xFE),
        spec_detect_encoding_from_bom(buf) is Some ==> spec_detect_encoding_from_bom(buf) == Some(
            UniMode::Utf8,
        ) || spec_detect_encoding_from_bom(buf) == Some(UniMode::Utf16BE)
            || spec_detect_encoding_from_bom(buf) == Some(UniMode::Utf16LE),
{
    let b = buf;
    assert(spec_bom(UniMode::Utf8).is_prefix_of(b) <==> (b.len() >= 3 && b[0] == 0xEF && b[1]
        == 0xBB && b[2] == 0xBF)) by {
        if b.len() >= 3 && b[0] == 0xEF && b[1] == 0xBB && b[2] == 0xBF {
            assert(b.subrange(0, 3) =~= spec_bom(UniMode::Utf8));
        }
        if spec_bom(UniMode::Utf8).is_prefix_of(b) {
            assert(b.subrange(0, 3)[0] == b[0]);
            assert(b.subrange(0, 3)[1] == b[1]);
            assert(b.subrange(0, 3)[2] == b[2]);
        }
    }
    assert(spec_bom(UniMode::Utf16BE).is_prefix_of(b) <==> (b.len() >= 2 && b[0] == 0xFE && b[1]
        == 0xFF)) by {
        if b.len() >= 2 && b[0] == 0xFE && b[1] == 0xFF {
            assert(b.subrange(0, 2) =~= spec_bom(UniMode::Utf16BE));
        }
        if spec_bom(UniMode::Utf16BE).is_prefix_of(b) {
            assert(b.subrange(0, 2)[0] == b[0]);
            assert(b.subrange(0, 2)[1] == b[1]);
        }
    }
    assert(spec_bom(UniMode::Utf16LE).is_prefix_of(b) <==> (b.len() >= 2 && b[0] == 0xFF && b[1]
        == 0xFE)) by {
        if b.len() >= 2 && b[0] == 0xFF && b[1] == 0xFE {
            assert(b.subrange(0, 2) =~= spec_bom(UniMode::Utf16LE));
        }
        if spec_bom(UniMode::Utf16LE).is_prefix_of(b) {
            assert(b.subrange(0, 2)[0] == b[0]);
            assert(b.subrange(0, 2)[1] == b[1]);
        }
    }
}

proof fn lemma_utf16_units_of_unit(u: u16, big_endian: bool)
    ensures
        utf16_units(
            if big_endian {
                seq![(u / 256) as u8, (u % 256) as u8]
            } else {
                seq![(u % 256) as u8, (u / 256) as u8]
            },
            big_endian,
        ) == seq![u],
{
    let bytes = if big_endian {
        seq![(u / 256) as u8, (u % 256) as u8]
    } else {
        seq![(u % 256) as u8, (u / 256) as u8]
    };
    assert((u / 256) * 256 + u % 256 == u) by (nonlinear_arith);
    assert(utf16_unit(bytes, 0, big_endian) == u);
    assert(utf16_units(bytes, big_endian) =~= seq![u]);
}

proof fn lemma_utf16_units_concat(x: Seq<u8>, y: Seq<u8>, big_endian: bool)
    requires
        x.len() % 2 == 0,
    ensures
        utf16_units(x + y, big_endian) == utf16_units(x, big_endian) + utf16_units(y, big_endian),
{
    let xy = x + y;
    let a = utf16_units(xy, big_endian);
    let b = utf16_units(x, big_endian) + utf16_units(y, big_endian);
    assert(a.len() == b.len());
    assert forall|k: int| 0 <= k < a.len() implies a[k] == b[k] by {
        if k < x.len() / 2 {
            assert(xy[2 * k] == x[2 * k]);
            assert(xy[2 * k + 1] == x[2 * k + 1]);
        } else {
            let m = k - x.len() / 2;
            assert(xy[2 * k] == y[2 * m]);
            assert(xy[2 * k + 1] == y[2 * m + 1]);
        }
    }
    assert(a =~= b);
}

proof fn lemma_decode_utf16_concat(us: Seq<u16>, vs: Seq<u16>)
    requires
        decode_utf16(us) is Some,
    ensures
        decode_utf16(us + vs) == (match decode_utf16(vs) {
            Some(r) => Some(decode_utf16(us).unwrap() + r),
            None => None,
        }),
    decreases us.len(),
{
    if us.len() == 0 {
        assert(us + vs =~= vs);
        assert(decode_utf16(us).unwrap() =~= Seq::<char>::empty());
        if decode_utf16(vs) is Some {
            assert(Seq::<char>::empty() + decode_utf16(vs).unwrap() =~= decode_utf16(vs).unwrap());
        }
    } else {
        let w = us + vs;
        let n: int = if is_high_surrogate(us[0]) { 2 } else { 1 };
        assert(w[0] == us[0]);
        if n == 2 {
            assert(w[1] == us[1]);
        }
        let tail = us.subrange(n, us.len() as int);
        assert(w.subrange(n, w.len() as int) =~= tail + vs);
        lemma_decode_utf16_concat(tail, vs);
        if decode_utf16(vs) is Some {
            let c = decode_utf16(us).unwrap()[0];
            assert(decode_utf16(us).unwrap() =~= seq![c] + decode_utf16(tail).unwrap());
            assert(seq![c] + (decode_utf16(tail).unwrap() + decode_utf16(vs).unwrap()) =~= (seq![c]
                + decode_utf16(tail).unwrap()) + decode_utf16(vs).unwrap());
        }
    }
}

proof fn lemma_encode_utf8_concat(a: Seq<char>, b: Seq<char>)
    ensures
        encode_utf8(a + b) == encode_utf8(a) + encode_utf8(b),
    decreases a.len(),
{
    if a.len() == 0 {
        assert(a + b =~= b);
        assert(encode_utf8(a) =~= Seq::<u8>::empty());
        assert(encode_utf8(a) + encode_utf8(b) =~= encode_utf8(b));
    } else {
        assert((a + b).drop_first() =~= a.drop_first() + b);
        assert((a + b)[0] == a[0]);
        lemma_encode_utf8_concat(a.drop_first(), b);
        assert(encode_utf8(a + b) =~= encode_utf8(a) + encode_utf8(b));
    }
}

/// Converting one UTF-16 code unit that is not a surrogate gives the UTF-8
/// encoding of the character whose value is that unit; a lone surrogate is
/// refused.
pub proof fn lemma_utf16_single_unit(u: u16, big_endian: bool)
    ensures
        ({
            let bytes = if big_endian {
                seq![(u / 256) as u8, (u % 256) as u8]
            } else {
                seq![(u % 256) as u8, (u / 256) as u8]
            };
            &&& !(0xD800 <= u <= 0xDFFF) ==> spec_utf16_to_utf8(bytes, big_endian) == Some(
                encode_scalar(u as u32),
            )
            &&& 0xD800 <= u <= 0xDFFF ==> spec_utf16_to_utf8(bytes, big_endian) is None
        }),
{
    lemma_utf16_units_of_unit(u, big_endian);
    let units = seq![u];
    assert(units.subrange(1, 1) =~= Seq::<u16>::empty());
    if !(0xD800 <= u <= 0xDFFF) {
        let c = (u as u32) as char;
        assert(c as u32 == u as u32);
        assert(units[0] == u);
        assert(units.subrange(1, units.len() as int) =~= Seq::<u16>::empty());
        assert(decode_utf16(Seq::<u16>::empty()) == Some(Seq::<char>::empty()));
        assert(decode_utf16(units) == Some(seq![c] + Seq::<char>::empty()));
        assert(seq![c] + Seq::<char>::empty() =~= seq![c]);
        assert(seq![c].drop_first() =~= Seq::<char>::empty());
        assert(encode_utf8(Seq::<char>::empty()) =~= Seq::<u8>::empty());
        assert(encode_utf8(seq![c]) =~= encode_scalar(u as u32));
    }
}

/// Converting a high surrogate followed by a low surrogate gives the UTF-8
/// encoding of the supplementary character they encode.
pub proof fn lemma_utf16_surrogate_pair(high: u16, low: u16, big_endian: bool)
    requires
        0xD800 <= high <= 0xDBFF,
        0xDC00 <= low <= 0xDFFF,
    ensures
        ({
            let bytes = if big_endian {
                seq![(high / 256) as u8, (high % 256) as u8, (low / 256) as u8, (low % 256) as u8]
            } else {
                seq![(high % 256) as u8, (high / 256) as u8, (low % 256) as u8, (low / 256) as u8]
            };
            spec_utf16_to_utf8(bytes, big_endian) == Some(
                encode_scalar((0x10000 + (high - 0xD800) * 0x400 + (low - 0xDC00)) as u32),
            )
        }),
{
    let hb = if big_endian {
        seq![(high / 256) as u8, (high % 256) as u8]
    } else {
        seq![(high % 256) as u8, (high / 256) as u8]
    };
    let lb = if big_endian {
        seq![(low / 256) as u8, (low % 256) as u8]
    } else {
        seq![(low % 256) as u8, (low / 256) as u8]
    };
    let bytes = if big_endian {
        seq![(high / 256) as u8, (high % 256) as u8, (low / 256) as u8, (low % 256) as u8]
    } else {
        seq![(high % 256) as u8, (high / 256) as u8, (low % 256) as u8, (low / 256) as u8]
    };
    assert(bytes =~= hb + lb);
    lemma_utf16_units_of_unit(high, big_endian);
    lemma_utf16_units_of_unit(low, big_endian);
    lemma_utf16_units_concat(hb, lb, big_endian);
    let units = seq![high, low];
    assert(utf16_units(bytes, big_endian) =~= units);
    assert(units.subrange(2, 2) =~= Seq::<u16>::empty());
    lemma_scalar_of_surrogates(high, low);
    let v = surrogate_pair_value(high, low);
    let c = v as char;
    assert(c as u32 == v);
    assert(units[0] == high && units[1] == low);
    assert(units.subrange(2, units.len() as int) =~= Seq::<u16>::empty());
    assert(decode_utf16(Seq::<u16>::empty()) == Some(Seq::<char>::empty()));
    assert(decode_utf16(units) == Some(seq![c] + Seq::<char>::empty()));
    assert(seq![c] + Seq::<char>::empty() =~= seq![c]);
    assert(seq![c].drop_first() =~= Seq::<char>::empty());
    assert(encode_utf8(Seq::<char>::empty()) =~= Seq::<u8>::empty());
    assert(encode_utf8(seq![c]) =~= encode_scalar(v));
}

/// Converting UTF-16 data made of two parts, the first of even length and
/// convertible on its own, gives the conversions of the parts joined; it is
/// refused exactly when the second part is refused.
pub proof fn lemma_utf16_to_utf8_concat(x: Seq<u8>, y: Seq<u8>, big_endian: bool)
    requires
        x.len() % 2 == 0,
        spec_utf16_to_utf8(x, big_endian) is Some,
    ensures
        spec_utf16_to_utf8(x + y, big_endian) == (match spec_utf16_to_utf8(y, big_endian) {
            Some(b) => Some(spec_utf16_to_utf8(x, big_endian).unwrap() + b),
            None => None,
        }),
{
    let us = utf16_units(x, big_endian);
    let vs = utf16_units(y, big_endian);
    if y.len() % 2 == 0 {
        lemma_utf16_units_concat(x, y, big_endian);
        lemma_decode_utf16_concat(us, vs);
        if decode_utf16(vs) is Some {
            lemma_encode_utf8_concat(decode_utf16(us).unwrap(), decode_utf16(vs).unwrap());
        }
    } else {
        assert((x + y).len() % 2 != 0);
    }
}

proof fn lemma_encode_utf16_concat(a: Seq<char>, b: Seq<char>)
    ensures
        encode_utf16(a + b) == encode_utf16(a) + encode_utf16(b),
    decreases a.len(),
{
    if a.len() == 0 {
        assert(a + b =~= b);
        assert(encode_utf16(a) =~= Seq::<u16>::empty());
        assert(encode_utf16(a) + encode_utf16(b) =~= encode_utf16(b));
    } else {
        assert((a + b).drop_first() =~= a.drop_first() + b);
        assert((a + b)[0] == a[0]);
        lemma_encode_utf16_concat(a.drop_first(), b);
        assert(encode_utf16(a + b) =~= encode_utf16(a) + encode_utf16(b));
    }
}

proof fn lemma_units_to_bytes_concat(a: Seq<u16>, b: Seq<u16>, big_endian: bool)
    ensures
        units_to_bytes(a + b, big_endian) == units_to_bytes(a, big_endian) + units_to_bytes(
            b,
            big_endian,
        ),
    decreases a.len(),
{
    if a.len() == 0 {
        assert(a + b =~= b);
        assert(units_to_bytes(a, big_endian) =~= Seq::<u8>::empty());
        assert(units_to_bytes(a, big_endian) + units_to_bytes(b, big_endian) =~= units_to_bytes(
            b,
            big_endian,
        ));
    } else {
        assert((a + b).drop_first() =~= a.drop_first() + b);
        assert((a + b)[0] == a[0]);
        lemma_units_to_bytes_concat(a.drop_first(), b, big_endian);
        assert(units_to_bytes(a + b, big_endian) =~= units_to_bytes(a, big_endian)
            + units_to_bytes(b, big_endian));
    }
}

/// Converting the UTF-8 encoding of one character gives the single code
/// unit equal to its value when that value is below 0x10000, and otherwise
/// a high and a low surrogate that encode the value.
pub proof fn lemma_utf8_to_utf16_single_char(c: char, big_endian: bool)
    ensures
        spec_utf8_to_utf16(encode_scalar(c as u32), big_endian) is Some,
        (c as u32) < 0x10000 ==> spec_utf8_to_utf16(encode_scalar(c as u32), big_endian) == Some(
            if big_endian {
                seq![((c as u32) / 256) as u8, ((c as u32) % 256) as u8]
            } else {
                seq![((c as u32) % 256) as u8, ((c as u32) / 256) as u8]
            },
        ),
        (c as u32) >= 0x10000 ==> exists|high: u16, low: u16|
            #![trigger is_high_surrogate(high), is_low_surrogate(low)]
            {
                &&& is_high_surrogate(high)
                &&& is_low_surrogate(low)
                &&& 0xD800 <= high <= 0xDBFF
                &&& 0xDC00 <= low <= 0xDFFF
                &&& 0x10000 + (high - 0xD800) * 0x400 + (low - 0xDC00) == c as u32
                &&& spec_utf8_to_utf16(encode_scalar(c as u32), big_endian) == Some(
                    if big_endian {
                        seq![
                            (high / 256) as u8,
                            (high % 256) as u8,
                            (low / 256) as u8,
                            (low % 256) as u8,
                        ]
                    } else {
                        seq![
                            (high % 256) as u8,
                            (high / 256) as u8,
                            (low % 256) as u8,
                            (low / 256) as u8,
                        ]
                    },
                )
            },
{
    let v = c as u32;
    let cs = seq![c];
    assert(cs.drop_first() =~= Seq::<char>::empty());
    assert(encode_utf8(Seq::<char>::empty()) =~= Seq::<u8>::empty());
    assert(encode_utf8(cs) =~= encode_scalar(v));
    encode_utf8_valid_utf8(cs);
    encode_utf8_decode_utf8(cs);
    assert(encode_utf16(Seq::<char>::empty()) =~= Seq::<u16>::empty());
    assert(encode_utf16(cs) =~= char_utf16(c));
    char_is_scalar(c);
    let units = char_utf16(c);
    if v < 0x10000 {
        let u = v as u16;
        assert(units =~= seq![u]);
        assert(units.drop_first() =~= Seq::<u16>::empty());
        assert(units_to_bytes(Seq::<u16>::empty(), big_endian) =~= Seq::<u8>::empty());
        assert(units_to_bytes(units, big_endian) =~= unit_bytes(u, big_endian));
    } else {
        lemma_surrogates_of_scalar(v);
        let w = v - 0x10000;
        let high = (0xD800 + w / 0x400) as u16;
        let low = (0xDC00 + w % 0x400) as u16;
        assert(units =~= seq![high, low]);
        assert(units.drop_first() =~= seq![low]);
        assert(units.drop_first().drop_first() =~= Seq::<u16>::empty());
        assert(units_to_bytes(Seq::<u16>::empty(), big_endian) =~= Seq::<u8>::empty());
        assert(units_to_bytes(seq![low], big_endian) =~= unit_bytes(low, big_endian));
        assert(units_to_bytes(units, big_endian) =~= unit_bytes(high, big_endian) + unit_bytes(
            low,
            big_endian,
        ));
        assert(0x10000 + (high - 0xD800) * 0x400 + (low - 0xDC00) == v);
        assert(is_high_surrogate(high) && is_low_surrogate(low));
    }
}

/// Converting two valid UTF-8 parts joined gives their conversions joined.
pub proof fn lemma_utf8_to_utf16_concat(x: Seq<u8>, y: Seq<u8>, big_endian: bool)
    requires
        valid_utf8(x),
        valid_utf8(y),
    ensures
        spec_utf8_to_utf16(x + y, big_endian) == Some(
            spec_utf8_to_utf16(x, big_endian).unwrap() + spec_utf8_to_utf16(y, big_endian).unwrap(),
        ),
{
    let cx = decode_utf8(x);
    let cy = decode_utf8(y);
    decode_utf8_encode_utf8(x);
    decode_utf8_encode_utf8(y);
    lemma_encode_utf8_concat(cx, cy);
    valid_utf8_concat(x, y);
    encode_utf8_decode_utf8(cx + cy);
    lemma_encode_utf16_concat(cx, cy);
    lemma_units_to_bytes_concat(encode_utf16(cx), encode_utf16(cy), big_endian);
}

/// A buffer is classified as 7-bit ASCII exactly when every byte lies in
/// 0x01..=0x7F, and as valid UTF-8 exactly when it converts to UTF-16, holds
/// no NUL byte and holds a byte above 0x7F.
pub proof fn lemma_classify_by_bytes(buf: Seq<u8>, big_endian: bool)
    ensures
        (spec_classify_utf8(buf) == Utf8Class::Ascii7Bit) == (forall|i: int|
            0 <= i < buf.len() ==> 0x01 <= #[trigger] buf[i] <= 0x7F),
        (spec_classify_utf8(buf) == Utf8Class::ValidUtf8) == (spec_utf8_to_utf16(buf, big_endian)
            is Some && !buf.contains(0u8) && exists|i: int|
            0 <= i < buf.len() && #[trigger] buf[i] > 0x7F),
{
    if forall|i: int| 0 <= i < buf.len() ==> 0x01 <= #[trigger] buf[i] <= 0x7F {
        lemma_ascii_bytes_valid_utf8(buf);
        assert(!buf.contains(0u8));
    }
}

proof fn lemma_ascii_bytes_valid_utf8(buf: Seq<u8>)
    requires
        forall|i: int| 0 <= i < buf.len() ==> 0x01 <= #[trigger] buf[i] <= 0x7F,
    ensures
        valid_utf8(buf),
    decreases buf.len(),
{
    if buf.len() > 0 {
        let rest = pop_first_scalar(buf);
        assert(rest =~= buf.subrange(1, buf.len() as int));
        assert forall|i: int| 0 <= i < rest.len() implies 0x01 <= #[trigger] rest[i] <= 0x7F by {
            assert(rest[i] == buf[i + 1]);
        }
        lemma_ascii_bytes_valid_utf8(rest);
    }
}

} // verus!
