//! Text encodings used by the stored password hashes: lowercase hexadecimal,
//! decimal numbers, `:`-separated fields and whitespace trimming.
//!
//! Strings are described by their characters (`s@`) where the text is built,
//! and by their UTF-8 bytes (`s.spec_bytes()`) where it is parsed, because the
//! parsing routines of `std` work on bytes.

use vstd::prelude::*;
use vstd::string::*;
use vstd::utf8::*;

verus! {

broadcast use vstd::utf8::group_utf8_lib;

// ---------------------------------------------------------------------------
// Hexadecimal
// ---------------------------------------------------------------------------

/// The lowercase hexadecimal digit for a value below 16.
pub open spec fn hex_char(n: int) -> char {
    if n == 0 { '0' } else if n == 1 { '1' } else if n == 2 { '2' } else if n == 3 { '3' }
    else if n == 4 { '4' } else if n == 5 { '5' } else if n == 6 { '6' } else if n == 7 { '7' }
    else if n == 8 { '8' } else if n == 9 { '9' } else if n == 10 { 'a' } else if n == 11 { 'b' }
    else if n == 12 { 'c' } else if n == 13 { 'd' } else if n == 14 { 'e' } else { 'f' }
}

/// Each byte as two lowercase hexadecimal digits, high nibble first.
pub open spec fn hex_lower(bytes: Seq<u8>) -> Seq<char>
    decreases bytes.len(),
{
    if bytes.len() == 0 {
        seq![]
    } else {
        seq![hex_char(bytes[0] as int / 16), hex_char(bytes[0] as int % 16)] + hex_lower(bytes.drop_first())
    }
}

/// The value of an ASCII hexadecimal digit (either case), as `u8::from_str_radix`
/// with radix 16 reads it.
pub open spec fn hex_digit_value(b: u8) -> Option<u8> {
    if 0x30 <= b <= 0x39 {
        Some((b - 0x30) as u8)
    } else if 0x61 <= b <= 0x66 {
        Some((b - 0x61 + 10) as u8)
    } else if 0x41 <= b <= 0x46 {
        Some((b - 0x41 + 10) as u8)
    } else {
        None
    }
}

/// What `u8::from_str_radix(text, 16)` gives for a text of exactly two bytes:
/// an optional `+` followed by digits, the digits read most significant first.
pub open spec fn hex_pair_value(b0: u8, b1: u8) -> Option<u8> {
    if b0 == 0x2b {
        hex_digit_value(b1)
    } else {
        match (hex_digit_value(b0), hex_digit_value(b1)) {
            (Some(h), Some(l)) => Some((h * 16 + l) as u8),
            _ => None,
        }
    }
}

/// How decoding a text of hexadecimal byte pairs ends.
pub enum HexDecoding {
    /// Every pair was read; these are the decoded bytes.
    Bytes(Seq<u8>),
    /// A pair is not a hexadecimal number.
    BadDigit,
    /// A pair would end past the text or inside a multi-byte character.
    OutOfBounds,
}

/// Reads `bytes` as consecutive two-byte hexadecimal numbers, from the front,
/// stopping at the first pair that cannot be read.
pub open spec fn hex_decoding(bytes: Seq<u8>) -> HexDecoding
    decreases bytes.len(),
{
    if bytes.len() == 0 {
        HexDecoding::Bytes(seq![])
    } else if bytes.len() < 2 || (bytes.len() > 2 && is_continuation_byte(bytes[2])) {
        HexDecoding::OutOfBounds
    } else {
        match hex_pair_value(bytes[0], bytes[1]) {
            None => HexDecoding::BadDigit,
            Some(v) => match hex_decoding(bytes.subrange(2, bytes.len() as int)) {
                HexDecoding::Bytes(rest) => HexDecoding::Bytes(seq![v] + rest),
                other => other,
            },
        }
    }
}

/// The ASCII bytes of a character sequence whose characters are all ASCII.
pub open spec fn ascii_bytes(chars: Seq<char>) -> Seq<u8> {
    chars.map_values(|c: char| c as u8)
}

/// Calls `hex::encode`: each byte becomes two lowercase hexadecimal digits,
/// high nibble first, as the crate's table `0123456789abcdef` gives them.
#[verifier::external_body]
pub(crate) fn hex_encode(data: &[u8]) -> (r: String)
    ensures
        r@ == hex_lower(data@),
{
    hex::encode(data)
}

#[verifier::external_type_specification]
#[verifier::external_body]
pub struct ExParseIntError(core::num::ParseIntError);

/// Calls `u8::from_str_radix(pair, 16)` on a two-byte text. The standard
/// library documents the accepted form as an optional `+` followed by
/// digits of the radix, in either case; anything else is an error.
#[verifier::external_body]
pub(crate) fn u8_from_hex_pair(pair: &str) -> (r: Result<u8, core::num::ParseIntError>)
    requires
        pair.spec_bytes().len() == 2,
    ensures
        r is Ok <==> hex_pair_value(pair.spec_bytes()[0], pair.spec_bytes()[1]) is Some,
        r matches Ok(v) ==> hex_pair_value(pair.spec_bytes()[0], pair.spec_bytes()[1]) == Some(v),
{
    u8::from_str_radix(pair, 16)
}

/// The outcome of scanning a text of hexadecimal pairs.
pub enum HexScan {
    Decoded(Vec<u8>),
    BadDigit(core::num::ParseIntError),
    OutOfBounds,
}

/// Lemma: in valid UTF-8, the byte after a one-byte character starts a character.
proof fn lemma_boundary_after_ascii(bytes: Seq<u8>)
    requires
        valid_utf8(bytes),
        bytes.len() >= 1,
        bytes[0] < 0x80,
    ensures
        is_char_boundary(bytes, 1),
{
    reveal_with_fuel(is_char_boundary, 2);
}

/// Scans `s` two bytes at a time, decoding each pair as a hexadecimal number,
/// and stops at the first pair that cannot be read.
pub fn scan_hex(s: &str) -> (r: HexScan)
    ensures
        match (r, hex_decoding(s.spec_bytes())) {
            (HexScan::Decoded(v), HexDecoding::Bytes(b)) => v@ == b,
            (HexScan::BadDigit(_), HexDecoding::BadDigit) => true,
            (HexScan::OutOfBounds, HexDecoding::OutOfBounds) => true,
            _ => false,
        },
{
    let mut rest: &str = s;
    let mut out: Vec<u8> = Vec::new();
    let ghost whole = s.spec_bytes();
    loop
        invariant
            whole == s.spec_bytes(),
            valid_utf8(rest.spec_bytes()),
            hex_decoding(whole) == (match hex_decoding(rest.spec_bytes()) {
                HexDecoding::Bytes(b) => HexDecoding::Bytes(out@ + b),
                other => other,
            }),
        decreases rest.spec_bytes().len(),
    {
        let ghost rb = rest.spec_bytes();
        let bytes = rest.as_bytes();
        let n = bytes.len();
        assert(bytes@ == rb);
        if n == 0 {
            assert(out@ + seq![] =~= out@);
            return HexScan::Decoded(out);
        }
        if n < 2 {
            assert(hex_decoding(rb) == HexDecoding::OutOfBounds);
            return HexScan::OutOfBounds;
        }
        if n > 2 && 0x80 <= bytes[2] && bytes[2] <= 0xbf {
            assert(is_continuation_byte(rb[2]));
            assert(hex_decoding(rb) == HexDecoding::OutOfBounds);
            return HexScan::OutOfBounds;
        }
        proof {
            if n == 2 {
                is_char_boundary_start_end_of_seq(rb);
            } else {
                is_char_boundary_iff_not_is_continuation_byte(rb, 2);
            }
        }
        let (pair, tail) = rest.split_at(2);
        proof {
            valid_utf8_split(rb, 2);
        }
        assert(pair.spec_bytes() =~= rb.subrange(0, 2));
        assert(tail.spec_bytes() =~= rb.subrange(2, rb.len() as int));
        match u8_from_hex_pair(pair) {
            Err(e) => {
                assert(hex_pair_value(rb[0], rb[1]) is None);
                assert(hex_decoding(rb) == HexDecoding::BadDigit);
                return HexScan::BadDigit(e);
            },
            Ok(v) => {
                let ghost old_out = out@;
                out.push(v);
                proof {
                    assert(tail.spec_bytes() =~= rb.subrange(2, rb.len() as int));
                    match hex_decoding(tail.spec_bytes()) {
                        HexDecoding::Bytes(b) => {
                            assert(old_out + (seq![v] + b) =~= out@ + b);
                        },
                        _ => {},
                    }
                }
                rest = tail;
            },
        }
    }
}

/// Lemma: each hexadecimal digit written by `hex_lower` reads back as its value.
proof fn lemma_hex_char_value(n: int)
    requires
        0 <= n < 16,
    ensures
        hex_digit_value(hex_char(n) as u8) == Some(n as u8),
        hex_char(n) as u8 != 0x2b,
        hex_char(n) as u8 != 0x3a,
        ('\0' <= hex_char(n) <= '\u{7f}'),
        !is_white_space(hex_char(n)),
        n < 10 ==> hex_char(n) as u8 == 0x30 + n,
{
}

/// Law: decoding the lowercase hexadecimal text of some bytes (as `decode_hex`
/// does) gives back those bytes; the text is ASCII, without whitespace or `:`.
pub proof fn lemma_hex_roundtrip(bytes: Seq<u8>)
    ensures
        hex_lower(bytes).len() == 2 * bytes.len(),
        is_ascii_chars(hex_lower(bytes)),
        forall|i: int| 0 <= i < hex_lower(bytes).len() ==> !is_white_space(#[trigger] hex_lower(bytes)[i]),
        forall|i: int| 0 <= i < hex_lower(bytes).len() ==> #[trigger] ascii_bytes(hex_lower(bytes))[i] != COLON,
        hex_decoding(ascii_bytes(hex_lower(bytes))) == HexDecoding::Bytes(bytes),
    decreases bytes.len(),
{
    if bytes.len() > 0 {
        let b0 = bytes[0];
        let rest = bytes.drop_first();
        lemma_hex_roundtrip(rest);
        lemma_hex_char_value(b0 as int / 16);
        lemma_hex_char_value(b0 as int % 16);
        let h = hex_lower(bytes);
        let t = hex_lower(rest);
        assert(h =~= seq![hex_char(b0 as int / 16), hex_char(b0 as int % 16)] + t);
        let ab = ascii_bytes(h);
        assert(ab.subrange(2, ab.len() as int) =~= ascii_bytes(t));
        assert forall|i: int| 0 <= i < h.len() implies !is_white_space(#[trigger] h[i]) by {
            if i >= 2 {
                assert(h[i] == t[i - 2]);
            }
        }
        assert forall|i: int| 0 <= i < h.len() implies #[trigger] ab[i] != COLON by {
            if i >= 2 {
                assert(ab[i] == ascii_bytes(t)[i - 2]);
            }
        }
        assert(is_ascii_chars(h)) by {
            assert forall|i: int| 0 <= i < h.len() implies '\0' <= #[trigger] h[i] <= '\u{7f}' by {
                if i >= 2 {
                    assert(h[i] == t[i - 2]);
                }
            }
        }
        assert(ab[0] == hex_char(b0 as int / 16) as u8);
        assert(ab[1] == hex_char(b0 as int % 16) as u8);
        if ab.len() > 2 {
            assert(ab[2] == t[0] as u8);
            assert(!is_continuation_byte(ab[2]));
        }
        assert(hex_pair_value(ab[0], ab[1]) == Some(b0));
        assert((b0 as int / 16) * 16 + b0 as int % 16 == b0);
        assert(seq![b0] + rest =~= bytes);
        assert(hex_decoding(ab.subrange(2, ab.len() as int)) == HexDecoding::Bytes(rest));
        assert(hex_decoding(ab) == HexDecoding::Bytes(seq![b0] + rest));
    } else {
        assert(ascii_bytes(hex_lower(bytes)) =~= seq![]);
        assert(bytes =~= seq![]);
    }
}

// ---------------------------------------------------------------------------
// Decimal numbers
// ---------------------------------------------------------------------------

/// The decimal digits of `n`, most significant first, without leading zeros.
pub open spec fn decimal_text(n: nat) -> Seq<char>
    decreases n,
{
    if n < 10 {
        seq![hex_char(n as int)]
    } else {
        decimal_text(n / 10) + seq![hex_char((n % 10) as int)]
    }
}

/// Calls `u32::to_string`. An integer is displayed as its decimal digits,
/// most significant first, without sign or leading zeros.
#[verifier::external_body]
pub(crate) fn u32_to_decimal(n: u32) -> (r: String)
    ensures
        r@ == decimal_text(n as nat),
{
    n.to_string()
}

/// Whether a byte is an ASCII decimal digit.
pub open spec fn is_decimal_digit(b: u8) -> bool {
    0x30 <= b <= 0x39
}

/// The number written by a sequence of ASCII decimal digits.
pub open spec fn decimal_value(digits: Seq<u8>) -> nat
    decreases digits.len(),
{
    if digits.len() == 0 {
        0
    } else {
        decimal_value(digits.drop_last()) * 10 + (digits.last() - 0x30) as nat
    }
}

/// What parsing a text as a `NonZeroU32` gives: an optional `+`, then one or
/// more decimal digits whose value is neither zero nor above `u32::MAX`.
pub open spec fn parse_nonzero_u32(text: Seq<u8>) -> Option<u32> {
    let digits = if text.len() > 0 && text[0] == 0x2b { text.drop_first() } else { text };
    if digits.len() > 0 && (forall|i: int| 0 <= i < digits.len() ==> is_decimal_digit(#[trigger] digits[i]))
        && 0 < decimal_value(digits) <= u32::MAX {
        Some(decimal_value(digits) as u32)
    } else {
        None
    }
}

/// Calls `str::parse::<NonZeroU32>` and keeps the number on success. The
/// standard library parses it as a `u32` in base 10 (an optional `+`, then
/// decimal digits, no overflow) and then refuses zero.
#[verifier::external_body]
pub(crate) fn parse_nonzero_u32_text(text: &str) -> (r: Option<u32>)
    ensures
        r == parse_nonzero_u32(text.spec_bytes()),
{
    text.parse::<core::num::NonZeroU32>().ok().map(core::num::NonZeroU32::get)
}

// ---------------------------------------------------------------------------
// Whitespace trimming
// ---------------------------------------------------------------------------

/// The characters with the Unicode `White_Space` property, which is what
/// `char::is_whitespace` tests.
pub open spec fn is_white_space(c: char) -> bool {
    ||| '\u{9}' <= c <= '\u{d}'
    ||| c == ' '
    ||| c == '\u{85}'
    ||| c == '\u{a0}'
    ||| c == '\u{1680}'
    ||| '\u{2000}' <= c <= '\u{200a}'
    ||| c == '\u{2028}'
    ||| c == '\u{2029}'
    ||| c == '\u{202f}'
    ||| c == '\u{205f}'
    ||| c == '\u{3000}'
}

/// `chars` without its leading whitespace.
pub open spec fn trim_start_chars(chars: Seq<char>) -> Seq<char>
    decreases chars.len(),
{
    if chars.len() > 0 && is_white_space(chars[0]) {
        trim_start_chars(chars.drop_first())
    } else {
        chars
    }
}

/// `chars` without its trailing whitespace.
pub open spec fn trim_end_chars(chars: Seq<char>) -> Seq<char>
    decreases chars.len(),
{
    if chars.len() > 0 && is_white_space(chars.last()) {
        trim_end_chars(chars.drop_last())
    } else {
        chars
    }
}

/// `chars` without leading and trailing whitespace.
pub open spec fn trim_chars(chars: Seq<char>) -> Seq<char> {
    trim_end_chars(trim_start_chars(chars))
}

/// Calls `str::trim`, which returns the text with leading and trailing
/// whitespace (characters for which `char::is_whitespace` holds) removed.
#[verifier::external_body]
pub(crate) fn trim_text(text: &str) -> (r: &str)
    ensures
        r@ == trim_chars(text@),
{
    text.trim()
}

/// Lemma: a text without whitespace is its own trimming.
pub(crate) proof fn lemma_trim_no_white_space(chars: Seq<char>)
    requires
        forall|i: int| 0 <= i < chars.len() ==> !is_white_space(#[trigger] chars[i]),
    ensures
        trim_chars(chars) == chars,
{
    if chars.len() > 0 {
        assert(!is_white_space(chars[chars.len() - 1]));
    }
}

// ---------------------------------------------------------------------------
// Splitting on a separator byte
// ---------------------------------------------------------------------------

/// The pieces of `bytes` between occurrences of `sep`, in order, as
/// `str::split` gives them: one more piece than there are separators.
pub open spec fn split_on(bytes: Seq<u8>, sep: u8) -> Seq<Seq<u8>>
    decreases bytes.len(),
{
    if bytes.len() == 0 {
        seq![seq![]]
    } else {
        let parts = split_on(bytes.drop_last(), sep);
        if bytes.last() == sep {
            parts.push(seq![])
        } else {
            parts.update(parts.len() - 1, parts.last().push(bytes.last()))
        }
    }
}

/// Lemma: splitting always gives at least one piece.
pub(crate) proof fn lemma_split_on_nonempty(bytes: Seq<u8>, sep: u8)
    ensures
        split_on(bytes, sep).len() >= 1,
    decreases bytes.len(),
{
    if bytes.len() > 0 {
        lemma_split_on_nonempty(bytes.drop_last(), sep);
    }
}

/// The byte of `:`.
pub const COLON: u8 = 0x3a;

/// Splits `s` at every `:`, as `s.split(':').collect::<Vec<&str>>()` does.
pub fn split_colon(s: &str) -> (parts: Vec<&str>)
    ensures
        parts@.len() == split_on(s.spec_bytes(), COLON).len(),
        forall|i: int| 0 <= i < parts@.len() ==> #[trigger] parts@[i].spec_bytes() == split_on(s.spec_bytes(), COLON)[i],
{
    let bytes = s.as_bytes();
    let n = bytes.len();
    let ghost b = s.spec_bytes();
    let mut parts: Vec<&str> = Vec::new();
    let mut rest: &str = s;
    let mut start: usize = 0;
    let mut i: usize = 0;
    assert(b.take(0) =~= seq![]);
    assert(b.subrange(0, n as int) =~= b);
    while i < n
        invariant
            b == s.spec_bytes(),
            bytes@ == b,
            n == b.len(),
            start <= i <= n,
            valid_utf8(rest.spec_bytes()),
            rest.spec_bytes() == b.subrange(start as int, n as int),
            split_on(b.take(i as int), COLON).len() == parts@.len() + 1,
            forall|k: int| 0 <= k < parts@.len() ==> #[trigger] parts@[k].spec_bytes() == split_on(b.take(i as int), COLON)[k],
            split_on(b.take(i as int), COLON).last() == b.subrange(start as int, i as int),
        decreases n - i,
    {
        let ghost before = split_on(b.take(i as int), COLON);
        assert(b.take(i + 1).drop_last() =~= b.take(i as int));
        if bytes[i] == COLON {
            let k = i - start;
            let ghost rb = rest.spec_bytes();
            assert(rb[k as int] == b[i as int]);
            proof {
                is_char_boundary_iff_not_is_continuation_byte(rb, k as int);
            }
            let (piece, after) = rest.split_at(k);
            proof {
                valid_utf8_split(rb, k as int);
            }
            assert(after.spec_bytes() =~= b.subrange(i as int, n as int));
            assert(after.spec_bytes()[0] == COLON);
            proof {
                lemma_boundary_after_ascii(after.spec_bytes());
            }
            let (_, next) = after.split_at(1);
            proof {
                valid_utf8_split(after.spec_bytes(), 1);
            }
            assert(next.spec_bytes() =~= b.subrange(i + 1, n as int));
            assert(piece.spec_bytes() =~= b.subrange(start as int, i as int));
            parts.push(piece);
            rest = next;
            start = i + 1;
            assert(b.subrange(start as int, start as int) =~= seq![]);
        } else {
            assert(b.subrange(start as int, i as int).push(b[i as int]) =~= b.subrange(start as int, i + 1));
        }
        i = i + 1;
    }
    assert(b.take(n as int) =~= b);
    assert(rest.spec_bytes() =~= b.subrange(start as int, n as int));
    parts.push(rest);
    parts
}

/// Lemma: the decimal text of `n` is made of ASCII digits whose value is `n`.
pub(crate) proof fn lemma_decimal_digits(n: nat)
    ensures
        decimal_text(n).len() > 0,
        is_ascii_chars(decimal_text(n)),
        forall|i: int| 0 <= i < decimal_text(n).len() ==> is_decimal_digit(#[trigger] ascii_bytes(decimal_text(n))[i]),
        decimal_value(ascii_bytes(decimal_text(n))) == n,
    decreases n,
{
    let t = decimal_text(n);
    let d = ascii_bytes(t);
    if n < 10 {
        lemma_hex_char_value(n as int);
        assert(d.drop_last() =~= seq![]);
        assert(decimal_value(d.drop_last()) == 0);
        assert(d.last() == 0x30 + n);
    } else {
        lemma_decimal_digits(n / 10);
        lemma_hex_char_value((n % 10) as int);
        let h = decimal_text(n / 10);
        assert(t =~= h + seq![hex_char((n % 10) as int)]);
        assert(d.drop_last() =~= ascii_bytes(h));
        assert(d.last() == 0x30 + n % 10);
        assert(decimal_value(d) == (n / 10) * 10 + n % 10);
        assert forall|i: int| 0 <= i < t.len() implies is_decimal_digit(#[trigger] d[i]) by {
            if i < h.len() {
                assert(d[i] == ascii_bytes(h)[i]);
            }
        }
        assert forall|i: int| 0 <= i < t.len() implies '\0' <= #[trigger] t[i] <= '\u{7f}' by {
            if i < h.len() {
                assert(t[i] == h[i]);
            }
        }
    }
}

/// Law: parsing the decimal text of a positive `u32` as a `NonZeroU32` gives
/// it back; the text holds no `:`.
pub proof fn lemma_decimal_parse(n: u32)
    requires
        n > 0,
    ensures
        parse_nonzero_u32(ascii_bytes(decimal_text(n as nat))) == Some(n),
        forall|i: int| 0 <= i < decimal_text(n as nat).len() ==> #[trigger] ascii_bytes(decimal_text(n as nat))[i] != COLON,
{
    lemma_decimal_digits(n as nat);
    let d = ascii_bytes(decimal_text(n as nat));
    assert(is_decimal_digit(d[0]));
}

/// Lemma: a text without the separator is a single piece.
pub(crate) proof fn lemma_split_no_sep(bytes: Seq<u8>, sep: u8)
    requires
        forall|i: int| 0 <= i < bytes.len() ==> #[trigger] bytes[i] != sep,
    ensures
        split_on(bytes, sep) == seq![bytes],
    decreases bytes.len(),
{
    if bytes.len() > 0 {
        lemma_split_no_sep(bytes.drop_last(), sep);
        assert(bytes.drop_last().push(bytes.last()) =~= bytes);
        assert(seq![bytes.drop_last()].update(0, bytes) =~= seq![bytes]);
    } else {
        assert(bytes =~= seq![]);
    }
}

/// Lemma: splitting around one separator splits each side apart.
pub(crate) proof fn lemma_split_concat(x: Seq<u8>, y: Seq<u8>, sep: u8)
    ensures
        split_on(x + seq![sep] + y, sep) == split_on(x, sep) + split_on(y, sep),
    decreases y.len(),
{
    let xy = x + seq![sep] + y;
    if y.len() == 0 {
        assert(xy.drop_last() =~= x);
        assert(split_on(y, sep) =~= seq![seq![]]);
        assert(split_on(x, sep).push(seq![]) =~= split_on(x, sep) + seq![seq![]]);
    } else {
        lemma_split_concat(x, y.drop_last(), sep);
        lemma_split_on_nonempty(y.drop_last(), sep);
        lemma_split_on_nonempty(x, sep);
        assert(xy.drop_last() =~= x + seq![sep] + y.drop_last());
        let a = split_on(x, sep);
        let b = split_on(y.drop_last(), sep);
        if y.last() == sep {
            assert((a + b).push(seq![]) =~= a + b.push(seq![]));
        } else {
            assert((a + b).update((a + b).len() - 1, (a + b).last().push(y.last()))
                =~= a + b.update(b.len() - 1, b.last().push(y.last())));
        }
    }
}

} // verus!
