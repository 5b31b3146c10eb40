//! Encoding detection, decoding and text cleanup for imported files.
use vstd::prelude::*;
use vstd::utf8::{decode_utf8, valid_utf8};
use crate::text::{
    append_chars, char_from_u32, chars_of, lines, lines_of, lowercase, replace_all, replace_chars, string_of,
    str_eq, to_lowercase, trim, trim_chars, views,
};

verus! {

/// Why bytes could not be decoded.
#[derive(Debug)]
pub enum DecodeError {
    /// The bytes are not valid UTF-8.
    InvalidUtf8,
    /// UTF-16 input with an odd number of bytes.
    OddUtf16Length { big_endian: bool },
    /// UTF-16 input that is not well formed (an unpaired surrogate).
    InvalidUtf16 { big_endian: bool },
    /// An encoding name the decoder does not know, for bytes that are not UTF-8 either.
    UnknownEncoding,
}

/// The string that the UTF-8 bytes encode.
///
/// Calls `String::from_utf8`, which std documents as succeeding exactly on valid
/// UTF-8; the decoded characters are then those the bytes encode.
#[verifier::external_body]
pub(crate) fn utf8_string(bytes: &[u8]) -> (res: Option<String>)
    ensures
        res.is_some() == valid_utf8(bytes@),
        res matches Some(s) ==> s@ == decode_utf8(bytes@),
{
    String::from_utf8(bytes.to_vec()).ok()
}

/// Whether the bytes are valid UTF-8.
pub fn is_valid_utf8(bytes: &[u8]) -> (res: bool)
    ensures
        res == valid_utf8(bytes@),
{
    utf8_string(bytes).is_some()
}

/// One step of the GBK scan: the next position and the updated counts of GBK pairs
/// and of characters, for the byte at `i`.
pub open spec fn gbk_step(bytes: Seq<u8>, i: int, gbk: nat, total: nat) -> (int, nat, nat) {
    let b = bytes[i];
    if b <= 0x7F {
        (i + 1, gbk, total + 1)
    } else if 0x81 <= b <= 0xFE && i + 1 < bytes.len() {
        let b2 = bytes[i + 1];
        if (0x40 <= b2 <= 0x7E) || (0x80 <= b2 <= 0xFE) {
            (i + 2, gbk + 1, total + 1)
        } else {
            (i + 1, gbk, total)
        }
    } else {
        (i + 1, gbk, total)
    }
}

/// The number of GBK double-byte characters seen when scanning from `i` until the
/// end or until more than 100 characters have been read.
pub open spec fn gbk_scan(bytes: Seq<u8>, i: int, gbk: nat, total: nat) -> nat
    decreases bytes.len() - i,
{
    if i >= bytes.len() || i < 0 {
        gbk
    } else {
        let st = gbk_step(bytes, i, gbk, total);
        if st.2 > 100 {
            st.1
        } else {
            gbk_scan(bytes, st.0, st.1, st.2)
        }
    }
}

/// The GBK heuristic: more than ten GBK double-byte characters among the first
/// hundred or so characters.
pub open spec fn looks_gbk(bytes: Seq<u8>) -> bool {
    gbk_scan(bytes, 0, 0, 0) > 10
}

/// Heuristic check for GBK encoding: GBK writes Chinese characters as two bytes,
/// the first in `0x81..=0xFE`, the second in `0x40..=0x7E` or `0x80..=0xFE`.
pub fn looks_like_gbk(bytes: &[u8]) -> (res: bool)
    ensures
        res == looks_gbk(bytes@),
{
    let mut i: usize = 0;
    let mut gbk_chars: usize = 0;
    let mut total_chars: usize = 0;
    while i < bytes.len()
        invariant
            i <= bytes@.len(),
            total_chars <= 100,
            gbk_chars <= total_chars,
            gbk_scan(bytes@, 0, 0, 0) == gbk_scan(bytes@, i as int, gbk_chars as nat, total_chars as nat),
        decreases bytes.len() - i,
    {
        let b = bytes[i];
        if b <= 0x7F {
            i = i + 1;
            total_chars = total_chars + 1;
        } else if b >= 0x81 && b <= 0xFE && i + 1 < bytes.len() {
            let b2 = bytes[i + 1];
            if (b2 >= 0x40 && b2 <= 0x7E) || (b2 >= 0x80 && b2 <= 0xFE) {
                gbk_chars = gbk_chars + 1;
                i = i + 2;
                total_chars = total_chars + 1;
            } else {
                i = i + 1;
            }
        } else {
            i = i + 1;
        }
        if total_chars > 100 {
            return gbk_chars > 10;
        }
    }
    gbk_chars > 10
}

/// The encoding name that detection settles on for the first bytes of a file:
/// a byte-order mark first, then UTF-8 validity, then the GBK heuristic, else GB18030.
pub open spec fn detected_encoding(sample: Seq<u8>) -> Seq<char> {
    if sample.len() >= 3 && sample[0] == 0xEF && sample[1] == 0xBB && sample[2] == 0xBF {
        "utf-8"@
    } else if sample.len() >= 2 && sample[0] == 0xFF && sample[1] == 0xFE {
        "utf-16le"@
    } else if sample.len() >= 2 && sample[0] == 0xFE && sample[1] == 0xFF {
        "utf-16be"@
    } else if valid_utf8(sample) {
        "utf-8"@
    } else if looks_gbk(sample) {
        "gbk"@
    } else {
        "gb18030"@
    }
}

/// Detects the encoding of a file from its first bytes.
pub fn detect_encoding_of(sample: &[u8]) -> (res: String)
    ensures
        res@ == detected_encoding(sample@),
{
    if sample.len() >= 3 && sample[0] == 0xEF && sample[1] == 0xBB && sample[2] == 0xBF {
        return String::from_str("utf-8");
    }
    if sample.len() >= 2 && sample[0] == 0xFF && sample[1] == 0xFE {
        return String::from_str("utf-16le");
    }
    if sample.len() >= 2 && sample[0] == 0xFE && sample[1] == 0xFF {
        return String::from_str("utf-16be");
    }
    if is_valid_utf8(sample) {
        return String::from_str("utf-8");
    }
    if looks_like_gbk(sample) {
        return String::from_str("gbk");
    }
    String::from_str("gb18030")
}

/// The length of the byte-order mark that `bytes` begin with for the given
/// (lowercased) encoding name, or 0.
pub open spec fn bom_len(bytes: Seq<u8>, enc: Seq<char>) -> nat {
    if enc == "utf-8"@ && bytes.len() >= 3 && bytes[0] == 0xEF && bytes[1] == 0xBB && bytes[2]
        == 0xBF {
        3
    } else if enc == "utf-16le"@ && bytes.len() >= 2 && bytes[0] == 0xFF && bytes[1] == 0xFE {
        2
    } else if enc == "utf-16be"@ && bytes.len() >= 2 && bytes[0] == 0xFE && bytes[1] == 0xFF {
        2
    } else {
        0
    }
}

fn copy_bytes(bytes: &[u8], from: usize) -> (res: Vec<u8>)
    requires
        from <= bytes@.len(),
    ensures
        res@ == bytes@.subrange(from as int, bytes@.len() as int),
{
    let mut res: Vec<u8> = Vec::new();
    let mut i = from;
    while i < bytes.len()
        invariant
            from <= i <= bytes@.len(),
            res@ == bytes@.subrange(from as int, i as int),
        decreases bytes.len() - i,
    {
        res.push(bytes[i]);
        i = i + 1;
        assert(res@ == bytes@.subrange(from as int, i as int));
    }
    res
}

/// The bytes after the byte-order mark of the named encoding, if they begin with one.
pub fn skip_bom(bytes: &[u8], encoding: &str) -> (res: Vec<u8>)
    ensures
        res@ == bytes@.skip(bom_len(bytes@, lowercase(encoding@)) as int),
{
    let enc = to_lowercase(encoding);
    let k: usize = if str_eq(enc.as_str(), "utf-8") && bytes.len() >= 3 && bytes[0] == 0xEF
        && bytes[1] == 0xBB && bytes[2] == 0xBF {
        3
    } else if str_eq(enc.as_str(), "utf-16le") && bytes.len() >= 2 && bytes[0] == 0xFF && bytes[1]
        == 0xFE {
        2
    } else if str_eq(enc.as_str(), "utf-16be") && bytes.len() >= 2 && bytes[0] == 0xFE && bytes[1]
        == 0xFF {
        2
    } else {
        0
    };
    copy_bytes(bytes, k)
}

// ---------------------------------------------------------------------------
// UTF-16
// ---------------------------------------------------------------------------

pub open spec fn is_high_surrogate(u: u16) -> bool {
    0xD800 <= u <= 0xDBFF
}

pub open spec fn is_low_surrogate(u: u16) -> bool {
    0xDC00 <= u <= 0xDFFF
}

/// The scalar value of a surrogate pair.
pub open spec fn pair_value(hi: u16, lo: u16) -> int {
    0x10000 + (hi - 0xD800) * 0x400 + (lo - 0xDC00)
}

/// Decoding UTF-16 code units (std's `String::from_utf16`): units outside the
/// surrogate range stand for themselves, a high surrogate followed by a low one
/// stands for one character, and any other surrogate makes the input invalid.
pub open spec fn utf16_decode(units: Seq<u16>) -> Option<Seq<char>>
    decreases units.len(),
{
    if units.len() == 0 {
        Some(Seq::<char>::empty())
    } else if !is_high_surrogate(units[0]) && !is_low_surrogate(units[0]) {
        match utf16_decode(units.drop_first()) {
            Some(r) => Some(seq![(units[0] as u32) as char] + r),
            None => None,
        }
    } else if is_high_surrogate(units[0]) && units.len() >= 2 && is_low_surrogate(units[1]) {
        match utf16_decode(units.skip(2)) {
            Some(r) => Some(seq![(pair_value(units[0], units[1]) as u32) as char] + r),
            None => None,
        }
    } else {
        None
    }
}

/// The code units of UTF-16 bytes, two bytes per unit, low byte first or high byte first.
pub open spec fn utf16_units(bytes: Seq<u8>, big_endian: bool) -> Seq<u16> {
    Seq::new(
        bytes.len() / 2,
        |k: int|
            if big_endian {
                (bytes[2 * k] * 256 + bytes[2 * k + 1]) as u16
            } else {
                (bytes[2 * k] + bytes[2 * k + 1] * 256) as u16
            },
    )
}

/// Prefixes the decoded text, if any, with `out`.
pub open spec fn after(out: Seq<char>, rest: Option<Seq<char>>) -> Option<Seq<char>> {
    match rest {
        Some(r) => Some(out + r),
        None => None,
    }
}

/// Decodes UTF-16 code units.
pub fn decode_utf16_units(units: &[u16]) -> (res: Option<Vec<char>>)
    ensures
        match res {
            Some(v) => utf16_decode(units@) == Some(v@),
            None => utf16_decode(units@) is None,
        },
{
    let mut out: Vec<char> = Vec::new();
    let mut i: usize = 0;
    proof {
        assert(units@.skip(0) == units@);
        assert(Seq::<char>::empty() + Seq::<char>::empty() == Seq::<char>::empty());
    }
    while i < units.len()
        invariant
            i <= units@.len(),
            utf16_decode(units@) == after(out@, utf16_decode(units@.skip(i as int))),
        decreases units.len() - i,
    {
        let ghost t = units@.skip(i as int);
        let u = units[i];
        if u < 0xD800 || u > 0xDFFF {
            proof {
                assert(t[0] == u);
                assert(t.drop_first() == units@.skip(i + 1));
            }
            match char_from_u32(u as u32) {
                Some(c) => {
                    proof {
                        match utf16_decode(units@.skip(i + 1)) {
                            Some(r) => {
                                assert(out@ + (seq![c] + r) == out@.push(c) + r);
                            },
                            None => {},
                        }
                    }
                    out.push(c);
                },
                None => {
                    return None;
                },
            }
            i = i + 1;
        } else if u <= 0xDBFF && i + 1 < units.len() && units[i + 1] >= 0xDC00 && units[i + 1]
            <= 0xDFFF {
            let lo = units[i + 1];
            let v: u32 = 0x10000 + (u as u32 - 0xD800) * 0x400 + (lo as u32 - 0xDC00);
            proof {
                assert(t[0] == u);
                assert(t[1] == lo);
                assert(t.skip(2) == units@.skip(i + 2));
                assert(v == pair_value(u, lo));
            }
            match char_from_u32(v) {
                Some(c) => {
                    proof {
                        match utf16_decode(units@.skip(i + 2)) {
                            Some(r) => {
                                assert(out@ + (seq![c] + r) == out@.push(c) + r);
                            },
                            None => {},
                        }
                    }
                    out.push(c);
                },
                None => {
                    return None;
                },
            }
            i = i + 2;
        } else {
            proof {
                assert(t[0] == u);
                if u <= 0xDBFF && i + 1 < units.len() {
                    assert(t[1] == units@[i + 1]);
                }
            }
            return None;
        }
    }
    proof {
        assert(units@.skip(i as int).len() == 0);
        assert(out@ + Seq::<char>::empty() == out@);
    }
    Some(out)
}

/// The code units of UTF-16 bytes (an even number of them).
pub fn utf16_code_units(bytes: &[u8], big_endian: bool) -> (res: Vec<u16>)
    requires
        bytes@.len() % 2 == 0,
    ensures
        res@ == utf16_units(bytes@, big_endian),
{
    let mut res: Vec<u16> = Vec::new();
    let n = bytes.len() / 2;
    let mut k: usize = 0;
    while k < n
        invariant
            n == bytes@.len() / 2,
            2 * n <= bytes@.len(),
            bytes@.len() == bytes.len(),
            k <= n,
            res@ == utf16_units(bytes@, big_endian).take(k as int),
        decreases n - k,
    {
        let b0 = bytes[2 * k] as u16;
        let b1 = bytes[2 * k + 1] as u16;
        let u: u16 = if big_endian {
            b0 * 256 + b1
        } else {
            b0 + b1 * 256
        };
        res.push(u);
        k = k + 1;
        assert(res@ == utf16_units(bytes@, big_endian).take(k as int));
    }
    assert(utf16_units(bytes@, big_endian).take(n as int) == utf16_units(bytes@, big_endian));
    res
}

/// Decoding UTF-16 bytes of the given byte order.
pub open spec fn utf16_bytes_decode(bytes: Seq<u8>, big_endian: bool) -> Result<
    Seq<char>,
    DecodeError,
> {
    if bytes.len() % 2 != 0 {
        Err(DecodeError::OddUtf16Length { big_endian })
    } else {
        match utf16_decode(utf16_units(bytes, big_endian)) {
            Some(s) => Ok(s),
            None => Err(DecodeError::InvalidUtf16 { big_endian }),
        }
    }
}

pub open spec fn result_view(r: Result<String, DecodeError>) -> Result<Seq<char>, DecodeError> {
    match r {
        Ok(s) => Ok(s@),
        Err(e) => Err(e),
    }
}

fn decode_utf16(bytes: &[u8], big_endian: bool) -> (res: Result<String, DecodeError>)
    ensures
        result_view(res) == utf16_bytes_decode(bytes@, big_endian),
{
    if bytes.len() % 2 != 0 {
        return Err(DecodeError::OddUtf16Length { big_endian });
    }
    let units = utf16_code_units(bytes, big_endian);
    match decode_utf16_units(units.as_slice()) {
        Some(v) => Ok(string_of(v.as_slice())),
        None => Err(DecodeError::InvalidUtf16 { big_endian }),
    }
}

/// Decodes UTF-16LE bytes.
pub fn decode_utf16le(bytes: &[u8]) -> (res: Result<String, DecodeError>)
    ensures
        result_view(res) == utf16_bytes_decode(bytes@, false),
{
    decode_utf16(bytes, false)
}

/// Decodes UTF-16BE bytes.
pub fn decode_utf16be(bytes: &[u8]) -> (res: Result<String, DecodeError>)
    ensures
        result_view(res) == utf16_bytes_decode(bytes@, true),
{
    decode_utf16(bytes, true)
}

// ---------------------------------------------------------------------------
// Double-byte fallback
// ---------------------------------------------------------------------------

/// The Unicode character for a GBK byte pair, for the common punctuation that the
/// decoder knows; other pairs of the Level 1 Chinese area decode to U+FFFD.
pub open spec fn gbk_char(high: u8, low: u8) -> Option<char> {
    if high == 0xA1 && low == 0xA1 {
        Some('\u{3000}')
    } else if high == 0xA1 && low == 0xA2 {
        Some('\u{3001}')
    } else if high == 0xA1 && low == 0xA3 {
        Some('\u{3002}')
    } else if high == 0xA1 && low == 0xA4 {
        Some('\u{00B7}')
    } else if high == 0xA1 && low == 0xB6 {
        Some('\u{300A}')
    } else if high == 0xA1 && low == 0xB7 {
        Some('\u{300B}')
    } else if high == 0xA1 && low == 0xB8 {
        Some('\u{2018}')
    } else if high == 0xA1 && low == 0xB9 {
        Some('\u{2019}')
    } else if high == 0xA1 && low == 0xBA {
        Some('\u{201C}')
    } else if high == 0xA1 && low == 0xBB {
        Some('\u{201D}')
    } else if high == 0xA3 && low == 0xA1 {
        Some('！')
    } else if high == 0xA3 && low == 0xAC {
        Some('，')
    } else if high == 0xA3 && low == 0xBA {
        Some('：')
    } else if high == 0xA3 && low == 0xBB {
        Some('；')
    } else if high == 0xA3 && low == 0xBF {
        Some('？')
    } else if 0xB0 <= high <= 0xF7 && 0xA1 <= low <= 0xFE {
        Some('\u{FFFD}')
    } else {
        None
    }
}

/// Maps a GBK byte pair to Unicode (common punctuation only).
pub fn gbk_to_unicode(high: u8, low: u8) -> (res: Option<char>)
    ensures
        res == gbk_char(high, low),
{
    if high == 0xA1 && low == 0xA1 {
        Some('\u{3000}')
    } else if high == 0xA1 && low == 0xA2 {
        Some('\u{3001}')
    } else if high == 0xA1 && low == 0xA3 {
        Some('\u{3002}')
    } else if high == 0xA1 && low == 0xA4 {
        Some('\u{00B7}')
    } else if high == 0xA1 && low == 0xB6 {
        Some('\u{300A}')
    } else if high == 0xA1 && low == 0xB7 {
        Some('\u{300B}')
    } else if high == 0xA1 && low == 0xB8 {
        Some('\u{2018}')
    } else if high == 0xA1 && low == 0xB9 {
        Some('\u{2019}')
    } else if high == 0xA1 && low == 0xBA {
        Some('\u{201C}')
    } else if high == 0xA1 && low == 0xBB {
        Some('\u{201D}')
    } else if high == 0xA3 && low == 0xA1 {
        Some('！')
    } else if high == 0xA3 && low == 0xAC {
        Some('，')
    } else if high == 0xA3 && low == 0xBA {
        Some('：')
    } else if high == 0xA3 && low == 0xBB {
        Some('；')
    } else if high == 0xA3 && low == 0xBF {
        Some('？')
    } else if 0xB0 <= high && high <= 0xF7 && 0xA1 <= low && low <= 0xFE {
        Some('\u{FFFD}')
    } else {
        None
    }
}

/// Lossy double-byte decoding: ASCII bytes stand for themselves, a lead byte in
/// `0x81..=0xFE` with a following byte is mapped by `gbk_char` (U+FFFD when
/// unknown), and any other byte becomes U+FFFD.
pub open spec fn fallback_decode(bytes: Seq<u8>) -> Seq<char>
    decreases bytes.len(),
{
    if bytes.len() == 0 {
        Seq::<char>::empty()
    } else if bytes[0] <= 0x7F {
        seq![bytes[0] as char] + fallback_decode(bytes.drop_first())
    } else if 0x81 <= bytes[0] <= 0xFE && bytes.len() >= 2 {
        let c = match gbk_char(bytes[0], bytes[1]) {
            Some(c) => c,
            None => '\u{FFFD}',
        };
        seq![c] + fallback_decode(bytes.skip(2))
    } else {
        seq!['\u{FFFD}'] + fallback_decode(bytes.drop_first())
    }
}

/// Fallback decoder that maps ASCII and known punctuation and marks the rest with
/// the replacement character.
pub fn decode_with_fallback(bytes: &[u8], encoding_name: &str) -> (res: String)
    ensures
        res@ == fallback_decode(bytes@),
{
    let mut out: Vec<char> = Vec::new();
    let mut i: usize = 0;
    proof {
        assert(bytes@.skip(0) == bytes@);
    }
    while i < bytes.len()
        invariant
            i <= bytes@.len(),
            fallback_decode(bytes@) == out@ + fallback_decode(bytes@.skip(i as int)),
        decreases bytes.len() - i,
    {
        let ghost t = bytes@.skip(i as int);
        let b = bytes[i];
        proof {
            assert(t[0] == b);
        }
        if b <= 0x7F {
            proof {
                assert(t.drop_first() == bytes@.skip(i + 1));
                assert(out@ + (seq![b as char] + fallback_decode(bytes@.skip(i + 1))) == out@.push(
                    b as char,
                ) + fallback_decode(bytes@.skip(i + 1)));
            }
            out.push(b as char);
            i = i + 1;
        } else if b >= 0x81 && b <= 0xFE && i + 1 < bytes.len() {
            let b2 = bytes[i + 1];
            let c = match gbk_to_unicode(b, b2) {
                Some(ch) => ch,
                None => '\u{FFFD}',
            };
            proof {
                assert(t[1] == b2);
                assert(t.skip(2) == bytes@.skip(i + 2));
                assert(out@ + (seq![c] + fallback_decode(bytes@.skip(i + 2))) == out@.push(c)
                    + fallback_decode(bytes@.skip(i + 2)));
            }
            out.push(c);
            i = i + 2;
        } else {
            proof {
                assert(t.drop_first() == bytes@.skip(i + 1));
                assert(out@ + (seq!['\u{FFFD}'] + fallback_decode(bytes@.skip(i + 1)))
                    == out@.push('\u{FFFD}') + fallback_decode(bytes@.skip(i + 1)));
            }
            out.push('\u{FFFD}');
            i = i + 1;
        }
    }
    proof {
        assert(bytes@.skip(i as int).len() == 0);
        assert(out@ + Seq::<char>::empty() == out@);
    }
    string_of(out.as_slice())
}

/// Decodes GBK/GB2312 bytes (simplified: ASCII and common punctuation).
pub fn decode_gbk(bytes: &[u8]) -> (res: String)
    ensures
        res@ == fallback_decode(bytes@),
{
    decode_with_fallback(bytes, "GBK")
}

/// Decodes GB18030 bytes (simplified: ASCII and common punctuation).
pub fn decode_gb18030(bytes: &[u8]) -> (res: String)
    ensures
        res@ == fallback_decode(bytes@),
{
    decode_with_fallback(bytes, "GB18030")
}

/// Decodes Big5 bytes (simplified: ASCII and common punctuation).
pub fn decode_big5(bytes: &[u8]) -> (res: String)
    ensures
        res@ == fallback_decode(bytes@),
{
    decode_with_fallback(bytes, "BIG5")
}

/// Decoding bytes under an encoding name (compared in lowercase).
pub open spec fn decode_spec(bytes: Seq<u8>, encoding: Seq<char>) -> Result<Seq<char>, DecodeError> {
    let enc = lowercase(encoding);
    if enc == "utf-8"@ {
        if valid_utf8(bytes) {
            Ok(decode_utf8(bytes))
        } else {
            Err(DecodeError::InvalidUtf8)
        }
    } else if enc == "utf-16le"@ {
        utf16_bytes_decode(bytes, false)
    } else if enc == "utf-16be"@ {
        utf16_bytes_decode(bytes, true)
    } else if enc == "gbk"@ || enc == "gb2312"@ || enc == "gb18030"@ || enc == "big5"@ {
        Ok(fallback_decode(bytes))
    } else if valid_utf8(bytes) {
        Ok(decode_utf8(bytes))
    } else {
        Err(DecodeError::UnknownEncoding)
    }
}


/// Decodes bytes under the named encoding.
pub fn decode_bytes(bytes: &[u8], encoding: &str) -> (res: Result<String, DecodeError>)
    ensures
        result_view(res) == decode_spec(bytes@, encoding@),
{
    let enc = to_lowercase(encoding);
    let e = enc.as_str();
    if str_eq(e, "utf-8") {
        proof {
            reveal_strlit("utf-8");
        }
        match utf8_string(bytes) {
            Some(s) => Ok(s),
            None => Err(DecodeError::InvalidUtf8),
        }
    } else if str_eq(e, "utf-16le") {
        decode_utf16le(bytes)
    } else if str_eq(e, "utf-16be") {
        decode_utf16be(bytes)
    } else if str_eq(e, "gbk") || str_eq(e, "gb2312") {
        Ok(decode_gbk(bytes))
    } else if str_eq(e, "gb18030") {
        Ok(decode_gb18030(bytes))
    } else if str_eq(e, "big5") {
        Ok(decode_big5(bytes))
    } else {
        match utf8_string(bytes) {
            Some(s) => Ok(s),
            None => Err(DecodeError::UnknownEncoding),
        }
    }
}

/// The text of a file's bytes: the byte-order mark of the named encoding, if
/// present, is skipped, and the rest is decoded.
pub fn decode_file_bytes(bytes: &[u8], encoding: &str) -> (res: Result<String, DecodeError>)
    ensures
        result_view(res) == decode_spec(
            bytes@.skip(bom_len(bytes@, lowercase(encoding@)) as int),
            encoding@,
        ),
{
    let body = skip_bom(bytes, encoding);
    decode_bytes(body.as_slice(), encoding)
}

// ---------------------------------------------------------------------------
// Line endings and cleanup
// ---------------------------------------------------------------------------

/// Line endings normalized to `\n`: every `\r\n`, then every remaining `\r`.
pub open spec fn normalized_line_endings(text: Seq<char>) -> Seq<char> {
    replace_all(replace_all(text, seq!['\r', '\n'], seq!['\n']), seq!['\r'], seq!['\n'])
}

/// Normalizes line endings to LF.
pub fn normalize_line_endings(text: &str) -> (res: String)
    ensures
        res@ == normalized_line_endings(text@),
{
    let chars = chars_of(text);
    let crlf = vec!['\r', '\n'];
    let cr = vec!['\r'];
    let lf = vec!['\n'];
    assert(crlf@ == seq!['\r', '\n']);
    assert(cr@ == seq!['\r']);
    assert(lf@ == seq!['\n']);
    let step1 = replace_chars(chars.as_slice(), crlf.as_slice(), lf.as_slice());
    let step2 = replace_chars(step1.as_slice(), cr.as_slice(), lf.as_slice());
    string_of(step2.as_slice())
}

/// Reading the lines of a text for cleanup: each trimmed line is kept and followed
/// by a newline, and of a run of blank lines only the first adds a newline.
/// Gives the text built so far and the length of the current blank run.
pub open spec fn clean_fold(ls: Seq<Seq<char>>) -> (Seq<char>, nat)
    decreases ls.len(),
{
    if ls.len() == 0 {
        (Seq::<char>::empty(), 0)
    } else {
        let prev = clean_fold(ls.drop_last());
        let t = trim(ls.last());
        if t.len() == 0 {
            let blanks = prev.1 + 1;
            if blanks <= 1 {
                (prev.0.push('\n'), blanks)
            } else {
                (prev.0, blanks)
            }
        } else {
            (prev.0 + t + seq!['\n'], 0)
        }
    }
}

/// Cleaned text: line endings normalized, lines trimmed, each run of blank lines cut
/// to one (so that no more than two line breaks follow each other), and the whole
/// trimmed.
pub open spec fn cleaned(text: Seq<char>) -> Seq<char> {
    trim(clean_fold(lines(normalized_line_endings(text))).0)
}

/// Cleans up text: removes excessive whitespace and blank lines.
pub fn clean_text(text: &str) -> (res: String)
    ensures
        res@ == cleaned(text@),
{
    let normalized = normalize_line_endings(text);
    let chars = chars_of(normalized.as_str());
    let ls = lines_of(chars.as_slice());
    let ghost v = views(ls@);
    let mut out: Vec<char> = Vec::new();
    let mut blank_count: usize = 0;
    let mut i: usize = 0;
    while i < ls.len()
        invariant
            i <= ls@.len(),
            v == views(ls@),
            (out@, blank_count as nat) == clean_fold(v.take(i as int)),
            blank_count <= i,
        decreases ls.len() - i,
    {
        proof {
            assert(v.take(i + 1).drop_last() == v.take(i as int));
            assert(v.take(i + 1).last() == ls@[i as int]@);
        }
        let t = trim_chars(ls[i].as_slice());
        if t.len() == 0 {
            blank_count = blank_count + 1;
            if blank_count <= 1 {
                out.push('\n');
            }
        } else {
            blank_count = 0;
            append_chars(&mut out, t.as_slice());
            out.push('\n');
        }
        i = i + 1;
    }
    proof {
        assert(v.take(v.len() as int) == v);
    }
    let trimmed = trim_chars(out.as_slice());
    string_of(trimmed.as_slice())
}

} // verus!
