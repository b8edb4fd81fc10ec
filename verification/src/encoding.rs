//! Text encodings of byte strings: lowercase hexadecimal, unpadded Base32 and
//! decimal numbers.

use vstd::prelude::*;

verus! {

/// Why a hexadecimal text was rejected.
#[derive(Debug, Clone, Copy, PartialEq, Eq, Structural)]
pub enum HexError {
    /// The character `c` at `index` is no hexadecimal digit.
    InvalidHexCharacter { c: char, index: usize },
    /// The text has an odd number of characters.
    OddLength,
    /// The text does not fill the expected number of bytes.
    InvalidStringLength,
}

/// The lowercase hexadecimal digit for `n`, where `0 <= n < 16`.
pub open spec fn hex_digit(n: int) -> char {
    if n < 10 {
        (48 + n) as char
    } else {
        (87 + n) as char
    }
}

/// The lowercase hexadecimal text of `bytes`: two digits for each byte, the
/// high half first.
pub open spec fn hex_lower(bytes: Seq<u8>) -> Seq<char> {
    Seq::new(
        2 * bytes.len(),
        |i: int|
            if i % 2 == 0 {
                hex_digit(bytes[i / 2] as int / 16)
            } else {
                hex_digit(bytes[i / 2] as int % 16)
            },
    )
}

/// The value of a hexadecimal digit of either case, or `None`.
pub open spec fn hex_value(b: u8) -> Option<int> {
    if 48 <= b <= 57 {
        Some(b - 48)
    } else if 97 <= b <= 102 {
        Some(b - 87)
    } else if 65 <= b <= 70 {
        Some(b - 55)
    } else {
        None
    }
}

/// The position of the first byte of `text` that is no hexadecimal digit, or
/// the length of `text`.
pub open spec fn first_non_hex(text: Seq<u8>) -> int
    decreases text.len(),
{
    if text.len() == 0 {
        0
    } else if hex_value(text[0]) is None {
        0
    } else {
        1 + first_non_hex(text.drop_first())
    }
}

/// The bytes that a text of hexadecimal digits stands for.
pub open spec fn hex_bytes(text: Seq<u8>) -> Seq<u8> {
    Seq::new(
        text.len() / 2,
        |i: int| (hex_value(text[2 * i])->Some_0 * 16 + hex_value(text[2 * i + 1])->Some_0) as u8,
    )
}

/// What decoding a hexadecimal text gives: an odd length is refused first,
/// then the first character that is no digit.
pub open spec fn hex_decoded(text: Seq<u8>) -> Result<Seq<u8>, HexError> {
    if text.len() % 2 != 0 {
        Err(HexError::OddLength)
    } else if first_non_hex(text) < text.len() {
        Err(
            HexError::InvalidHexCharacter {
                c: text[first_non_hex(text)] as char,
                index: first_non_hex(text) as usize,
            },
        )
    } else {
        Ok(hex_bytes(text))
    }
}

/// What decoding a hexadecimal text into exactly `width` bytes gives: an odd
/// length is refused first, then a length that does not fill `width` bytes,
/// then the first character that is no digit.
pub open spec fn hex_decoded_exact(text: Seq<u8>, width: nat) -> Result<Seq<u8>, HexError> {
    if text.len() % 2 != 0 {
        Err(HexError::OddLength)
    } else if text.len() / 2 != width {
        Err(HexError::InvalidStringLength)
    } else {
        hex_decoded(text)
    }
}

/// Calls `hex::decode`. The contract repeats what that function documents:
/// digits of either case are accepted, an odd length is reported before
/// anything else, and otherwise the first offending character with its place.
#[verifier::external_body]
pub(crate) fn hex_decode(text: &[u8]) -> (res: Result<Vec<u8>, HexError>)
    ensures
        match res {
            Ok(bytes) => hex_decoded(text@) == Ok::<Seq<u8>, HexError>(bytes@),
            Err(e) => hex_decoded(text@) == Err::<Seq<u8>, HexError>(e),
        },
{
    match hex::decode(text) {
        Ok(bytes) => Ok(bytes),
        Err(hex::FromHexError::InvalidHexCharacter { c, index }) => Err(
            HexError::InvalidHexCharacter { c, index },
        ),
        Err(hex::FromHexError::OddLength) => Err(HexError::OddLength),
        Err(hex::FromHexError::InvalidStringLength) => Err(HexError::InvalidStringLength),
    }
}

/// Calls `hex::encode`, which writes each byte as two lowercase digits.
#[verifier::external_body]
pub(crate) fn hex_encode(bytes: &[u8]) -> (text: String)
    ensures
        text@ == hex_lower(bytes@),
{
    hex::encode(bytes)
}

/// Calls `data_encoding::HEXLOWER.encode`, which writes each byte as two
/// lowercase digits. The outside function stops the program on more bytes
/// than a 512th of the address space, so such an input is not admitted.
#[verifier::external_body]
pub(crate) fn hexlower_encode(bytes: &[u8]) -> (text: String)
    requires
        bytes@.len() <= usize::MAX / 512,
    ensures
        text@ == hex_lower(bytes@),
{
    data_encoding::HEXLOWER.encode(bytes)
}

/// A hexadecimal text is made of plain characters, one byte each: written
/// out it is twice as long as the bytes it stands for.
pub proof fn hex_lower_is_plain(bytes: Seq<u8>)
    ensures
        hex_lower(bytes).len() == 2 * bytes.len(),
        vstd::utf8::is_ascii_chars(hex_lower(bytes)),
        vstd::utf8::encode_utf8(hex_lower(bytes)).len() == 2 * bytes.len(),
{
    let text = hex_lower(bytes);
    assert forall|i: int| 0 <= i < text.len() implies '\0' <= #[trigger] text[i] <= '\u{7f}' by {
        let b = bytes[i / 2] as int;
        assert(0 <= b / 16 < 16 && 0 <= b % 16 < 16);
    }
    vstd::utf8::is_ascii_chars_encode_utf8(text);
}

/// Decodes a hexadecimal text that must fill exactly `width` bytes.
pub fn hex_decode_exact(text: &[u8], width: usize) -> (res: Result<Vec<u8>, HexError>)
    ensures
        match res {
            Ok(bytes) => hex_decoded_exact(text@, width as nat) == Ok::<Seq<u8>, HexError>(bytes@),
            Err(e) => hex_decoded_exact(text@, width as nat) == Err::<Seq<u8>, HexError>(e),
        },
        res is Ok ==> res->Ok_0@.len() == width,
{
    if text.len() % 2 != 0 {
        return Err(HexError::OddLength);
    }
    if text.len() / 2 != width {
        return Err(HexError::InvalidStringLength);
    }
    hex_decode(text)
}

/// The decimal digits of `n`, without leading zeros.
pub open spec fn decimal_digits(n: nat) -> Seq<u8>
    decreases n,
{
    if n < 10 {
        seq![(48 + n) as u8]
    } else {
        decimal_digits(n / 10).push((48 + n % 10) as u8)
    }
}

/// Writes `n` in decimal.
pub fn decimal_bytes(n: u64) -> (out: Vec<u8>)
    ensures
        out@ == decimal_digits(n as nat),
    decreases n,
{
    if n < 10 {
        let mut out: Vec<u8> = Vec::new();
        out.push(48 + n as u8);
        assert(out@ =~= seq![(48 + n) as u8]);
        out
    } else {
        let mut out = decimal_bytes(n / 10);
        out.push(48 + (n % 10) as u8);
        out
    }
}

/// The number that a string of decimal digits stands for.
pub open spec fn decimal_value(digits: Seq<u8>) -> nat
    decreases digits.len(),
{
    if digits.len() == 0 {
        0
    } else {
        decimal_value(digits.drop_last()) * 10 + (digits.last() - 48) as nat
    }
}

/// Every byte is one of `0` to `9`.
pub open spec fn all_decimal(digits: Seq<u8>) -> bool {
    forall|i: int| 0 <= i < digits.len() ==> 48 <= #[trigger] digits[i] <= 57
}

/// Why a text is no number in range.
#[derive(Debug, Clone, Copy, PartialEq, Eq, Structural)]
pub enum NumberError {
    /// There is no digit at all.
    Empty,
    /// A character is no decimal digit.
    InvalidDigit,
    /// The number is larger than the limit.
    TooLarge,
}

/// What reading `text` as a number up to `limit` gives. One `+` may stand
/// before the digits; leading zeros are accepted.
pub open spec fn parsed_number(text: Seq<u8>, limit: nat) -> Result<nat, NumberError> {
    let digits = if text.len() > 0 && text[0] == 43 {
        text.drop_first()
    } else {
        text
    };
    if text.len() == 0 {
        Err(NumberError::Empty)
    } else if digits.len() == 0 || !all_decimal(digits) {
        Err(NumberError::InvalidDigit)
    } else if decimal_value(digits) > limit {
        Err(NumberError::TooLarge)
    } else {
        Ok(decimal_value(digits))
    }
}

/// A longer string of digits stands for no smaller number than its prefix.
pub proof fn decimal_value_grows(digits: Seq<u8>, k: int)
    requires
        0 <= k <= digits.len(),
    ensures
        decimal_value(digits.subrange(0, k)) <= decimal_value(digits),
    decreases digits.len() - k,
{
    if k == digits.len() {
        assert(digits.subrange(0, k) =~= digits);
    } else {
        decimal_value_grows(digits.drop_last(), k);
        assert(digits.drop_last().subrange(0, k) =~= digits.subrange(0, k));
    }
}

/// Reads `text` as a decimal number that must not exceed `limit`.
pub fn parse_number(text: &[u8], limit: u32) -> (res: Result<u32, NumberError>)
    ensures
        match res {
            Ok(n) => parsed_number(text@, limit as nat) == Ok::<nat, NumberError>(n as nat),
            Err(e) => parsed_number(text@, limit as nat) == Err::<nat, NumberError>(e),
        },
{
    if text.len() == 0 {
        return Err(NumberError::Empty);
    }
    let start: usize = if text[0] == 43 {
        1
    } else {
        0
    };
    let ghost digits = if start == 1 {
        text@.drop_first()
    } else {
        text@
    };
    assert(digits =~= text@.subrange(start as int, text@.len() as int));
    if start == text.len() {
        return Err(NumberError::InvalidDigit);
    }
    // A first pass finds any character that is no digit, so that such a text
    // is refused before its size is looked at.
    let mut i: usize = start;
    while i < text.len()
        invariant
            start <= i <= text.len(),
            text@.len() > 0,
            start == (if text@[0] == 43 { 1usize } else { 0usize }),
            digits == text@.subrange(start as int, text@.len() as int),
            forall|j: int| 0 <= j < i - start ==> 48 <= #[trigger] digits[j] <= 57,
        decreases text.len() - i,
    {
        assert(digits[i - start] == text@[i as int]);
        if text[i] < 48 || text[i] > 57 {
            assert(text@.drop_first() =~= text@.subrange(1, text@.len() as int));
            assert(text@ =~= text@.subrange(0, text@.len() as int));
            return Err(NumberError::InvalidDigit);
        }
        i += 1;
    }
    assert(all_decimal(digits));
    let mut acc: u64 = 0;
    let mut k: usize = start;
    assert(digits.subrange(0, 0) =~= Seq::<u8>::empty());
    while k < text.len()
        invariant
            start <= k <= text.len(),
            text@.len() > 0,
            start == (if text@[0] == 43 { 1usize } else { 0usize }),
            start < text.len(),
            digits == text@.subrange(start as int, text@.len() as int),
            all_decimal(digits),
            acc == decimal_value(digits.subrange(0, k - start)),
            acc <= limit,
        decreases text.len() - k,
    {
        assert(digits[k - start] == text@[k as int]);
        let d: u64 = (text[k] - 48) as u64;
        proof {
            let upto = digits.subrange(0, k - start + 1);
            assert(upto.drop_last() =~= digits.subrange(0, k - start));
            assert(upto.last() == text@[k as int]);
        }
        let next: u64 = acc * 10 + d;
        if next > limit as u64 {
            proof {
                decimal_value_grows(digits, k - start + 1);
                assert(text@.drop_first() =~= text@.subrange(1, text@.len() as int));
                assert(text@ =~= text@.subrange(0, text@.len() as int));
            }
            return Err(NumberError::TooLarge);
        }
        acc = next;
        k += 1;
    }
    assert(text@.drop_first() =~= text@.subrange(1, text@.len() as int));
    assert(text@ =~= text@.subrange(0, text@.len() as int));
    assert(digits.subrange(0, k - start) =~= digits);
    Ok(acc as u32)
}

/// The kind of fault found in a Base32 text.
#[derive(Debug, Clone, Copy, PartialEq, Eq, Structural)]
pub enum DecodeKind {
    /// The text has a length that no encoding has.
    Length,
    /// A character is outside the alphabet.
    Symbol,
    /// The bits after the last whole byte are not all zero.
    Trailing,
    /// The padding has a length that no encoding has.
    Padding,
}

/// Why a Base32 text was rejected, and where.
#[derive(Debug, Clone, Copy, PartialEq, Eq, Structural)]
pub struct DecodeError {
    pub position: usize,
    pub kind: DecodeKind,
}

/// The five bits that a character of the alphabet `A`-`Z`, `2`-`7` stands
/// for, or `None`.
pub open spec fn base32_value(b: u8) -> Option<int> {
    if 65 <= b <= 90 {
        Some(b - 65)
    } else if 50 <= b <= 55 {
        Some(b - 24)
    } else {
        None
    }
}

/// The character of the alphabet for five bits `n`, where `0 <= n < 32`.
pub open spec fn base32_symbol(n: int) -> u8 {
    if n < 26 {
        (65 + n) as u8
    } else {
        (24 + n) as u8
    }
}

/// The position of the first byte of `text` outside the alphabet, or the
/// length of `text`.
pub open spec fn first_non_base32(text: Seq<u8>) -> int
    decreases text.len(),
{
    if text.len() == 0 {
        0
    } else if base32_value(text[0]) is None {
        0
    } else {
        1 + first_non_base32(text.drop_first())
    }
}

/// The five bits at place `i` of a text, and zero past its end.
pub open spec fn quintet(text: Seq<u8>, i: int) -> int {
    if 0 <= i < text.len() {
        base32_value(text[i])->Some_0
    } else {
        0
    }
}

/// Byte `j` of the bit string that the characters of `text` spell, five bits
/// each, the high bit first.
#[verifier::opaque]
pub open spec fn base32_byte(text: Seq<u8>, j: int) -> u8 {
    let k = 8 * j / 5;
    let off = 8 * j % 5;
    let window = quintet(text, k) * 1024 + quintet(text, k + 1) * 32 + quintet(text, k + 2);
    let unit: int = if off == 0 {
        128
    } else if off == 1 {
        64
    } else if off == 2 {
        32
    } else if off == 3 {
        16
    } else {
        8
    };
    ((window / unit) % 256) as u8
}

/// The bits of the last character that belong to no whole byte are zero.
pub open spec fn trailing_bits_zero(text: Seq<u8>) -> bool {
    let spare = 5 * text.len() % 8;
    let unit: int = if spare == 1 {
        2
    } else if spare == 2 {
        4
    } else if spare == 3 {
        8
    } else {
        16
    };
    spare == 0 || quintet(text, text.len() - 1) % unit == 0
}

/// What decoding an unpadded Base32 text gives. A length that no encoding has
/// is refused first, with the longest acceptable length as its place; then the
/// first character outside the alphabet; then spare bits that are not zero, at
/// the last character.
pub open spec fn base32_decoded(text: Seq<u8>) -> Result<Seq<u8>, DecodeError> {
    let n = text.len();
    if n % 8 == 1 || n % 8 == 3 || n % 8 == 6 {
        Err(DecodeError { position: (n - 1) as usize, kind: DecodeKind::Length })
    } else if first_non_base32(text) < n {
        Err(DecodeError { position: first_non_base32(text) as usize, kind: DecodeKind::Symbol })
    } else if !trailing_bits_zero(text) {
        Err(DecodeError { position: (n - 1) as usize, kind: DecodeKind::Trailing })
    } else {
        Ok(Seq::new(5 * n / 8, |j: int| base32_byte(text, j)))
    }
}

/// Character `i` of the unpadded Base32 text of `bytes`.
pub open spec fn base32_char(bytes: Seq<u8>, i: int) -> u8 {
    let k = 5 * i / 8;
    let off = 5 * i % 8;
    let hi: int = if 0 <= k < bytes.len() {
        bytes[k] as int
    } else {
        0
    };
    let lo: int = if 0 <= k + 1 < bytes.len() {
        bytes[k + 1] as int
    } else {
        0
    };
    let unit: int = if off == 0 {
        2048
    } else if off == 1 {
        1024
    } else if off == 2 {
        512
    } else if off == 3 {
        256
    } else if off == 4 {
        128
    } else if off == 5 {
        64
    } else if off == 6 {
        32
    } else {
        16
    };
    base32_symbol(((hi * 256 + lo) / unit) % 32)
}

/// The unpadded Base32 text of `bytes`.
pub open spec fn base32_encoded(bytes: Seq<u8>) -> Seq<u8> {
    Seq::new((8 * bytes.len() + 4) / 5, |i: int| base32_char(bytes, i))
}

/// Calls `data_encoding::BASE32_NOPAD.decode`. The contract repeats what that
/// function documents for an encoding without padding that checks the spare
/// bits. The outside function stops the program on a text longer than an
/// eighth of the address space, so such a text is not admitted.
#[verifier::external_body]
pub(crate) fn base32_nopad_decode(text: &[u8]) -> (res: Result<Vec<u8>, DecodeError>)
    requires
        text@.len() <= usize::MAX / 8,
    ensures
        match res {
            Ok(bytes) => base32_decoded(text@) == Ok::<Seq<u8>, DecodeError>(bytes@),
            Err(e) => base32_decoded(text@) == Err::<Seq<u8>, DecodeError>(e),
        },
{
    match data_encoding::BASE32_NOPAD.decode(text) {
        Ok(bytes) => Ok(bytes),
        Err(e) => Err(
            DecodeError {
                position: e.position,
                kind: match e.kind {
                    data_encoding::DecodeKind::Length => DecodeKind::Length,
                    data_encoding::DecodeKind::Symbol => DecodeKind::Symbol,
                    data_encoding::DecodeKind::Trailing => DecodeKind::Trailing,
                    data_encoding::DecodeKind::Padding => DecodeKind::Padding,
                },
            },
        ),
    }
}

/// Every place of the text holds five bits.
pub open spec fn quintets_in_range(text: Seq<u8>) -> bool {
    forall|i: int| 0 <= #[trigger] quintet(text, i) < 32
}

/// `first_non_base32` stays within the text, and has passed only characters
/// of the alphabet.
pub proof fn first_non_base32_is_first(text: Seq<u8>)
    ensures
        0 <= first_non_base32(text) <= text.len(),
        forall|j: int|
            0 <= j < first_non_base32(text) ==> (#[trigger] base32_value(text[j])) is Some,
    decreases text.len(),
{
    if text.len() > 0 && base32_value(text[0]) is Some {
        let rest = text.drop_first();
        first_non_base32_is_first(rest);
        assert forall|j: int| 0 <= j < first_non_base32(text) implies (#[trigger] base32_value(
            text[j],
        )) is Some by {
            if j > 0 {
                assert(rest[j - 1] == text[j]);
            }
        }
    }
}

/// The five bits at place `i`, read back out of the bytes that the text
/// spells: the two bytes that hold them, shifted and cut.
pub open spec fn quintet_of_bytes(text: Seq<u8>, i: int) -> int {
    let k = 5 * i / 8;
    let off = 5 * i % 8;
    let unit: int = if off == 0 {
        2048
    } else if off == 1 {
        1024
    } else if off == 2 {
        512
    } else if off == 3 {
        256
    } else if off == 4 {
        128
    } else if off == 5 {
        64
    } else if off == 6 {
        32
    } else {
        16
    };
    ((base32_byte(text, k) as int * 256 + base32_byte(text, k + 1) as int) / unit) % 32
}

/// Byte 0 and the first three bits of byte 1 of a block hold the five bits of
/// places 0 and 1.
proof fn regroup_first(v0: u32, v1: u32, v2: u32, v3: u32)
    by (bit_vector)
    requires
        v0 < 32,
        v1 < 32,
        v2 < 32,
        v3 < 32,
    ensures
        (((((v0 * 1024 + v1 * 32 + v2) / 128) % 256) * 256 + (((v1 * 1024 + v2 * 32 + v3) / 16)
            % 256)) / 2048) % 32 == v0 as int,
        (((((v0 * 1024 + v1 * 32 + v2) / 128) % 256) * 256 + (((v1 * 1024 + v2 * 32 + v3) / 16)
            % 256)) / 64) % 32 == v1 as int,
{
}

/// Bytes 1 and 2 of a block hold the five bits of places 2 and 3.
proof fn regroup_second(v1: u32, v2: u32, v3: u32, v4: u32, v5: u32)
    by (bit_vector)
    requires
        v1 < 32,
        v2 < 32,
        v3 < 32,
        v4 < 32,
        v5 < 32,
    ensures
        (((((v1 * 1024 + v2 * 32 + v3) / 16) % 256) * 256 + (((v3 * 1024 + v4 * 32 + v5) / 64)
            % 256)) / 512) % 32 == v2 as int,
        (((((v1 * 1024 + v2 * 32 + v3) / 16) % 256) * 256 + (((v3 * 1024 + v4 * 32 + v5) / 64)
            % 256)) / 16) % 32 == v3 as int,
{
}

/// Bytes 2 and 3 of a block hold the five bits of place 4.
proof fn regroup_third(v3: u32, v4: u32, v5: u32, v6: u32)
    by (bit_vector)
    requires
        v3 < 32,
        v4 < 32,
        v5 < 32,
        v6 < 32,
    ensures
        (((((v3 * 1024 + v4 * 32 + v5) / 64) % 256) * 256 + (((v4 * 1024 + v5 * 32 + v6) / 8)
            % 256)) / 128) % 32 == v4 as int,
{
}

/// Bytes 3 and 4 of a block hold the five bits of places 5 and 6, and byte 4
/// ends with those of place 7.
proof fn regroup_fourth(v4: u32, v5: u32, v6: u32, v7: u32, v8: u32)
    by (bit_vector)
    requires
        v4 < 32,
        v5 < 32,
        v6 < 32,
        v7 < 32,
        v8 < 32,
    ensures
        (((((v4 * 1024 + v5 * 32 + v6) / 8) % 256) * 256 + (((v6 * 1024 + v7 * 32 + v8) / 32)
            % 256)) / 1024) % 32 == v5 as int,
        (((((v4 * 1024 + v5 * 32 + v6) / 8) % 256) * 256 + (((v6 * 1024 + v7 * 32 + v8) / 32)
            % 256)) / 32) % 32 == v6 as int,
        (((v6 * 1024 + v7 * 32 + v8) / 32) % 256) % 32 == v7 as int,
{
}

/// The bytes of block `a` of the bit string, in terms of its eight places
/// and the first of the next block.
pub proof fn block_bytes(text: Seq<u8>, a: int)
    requires
        0 <= a,
    ensures
        base32_byte(text, 5 * a) as int == ((quintet(text, 8 * a) * 1024 + quintet(
            text,
            8 * a + 1,
        ) * 32 + quintet(text, 8 * a + 2)) / 128) % 256,
        base32_byte(text, 5 * a + 1) as int == ((quintet(text, 8 * a + 1) * 1024 + quintet(
            text,
            8 * a + 2,
        ) * 32 + quintet(text, 8 * a + 3)) / 16) % 256,
        base32_byte(text, 5 * a + 2) as int == ((quintet(text, 8 * a + 3) * 1024 + quintet(
            text,
            8 * a + 4,
        ) * 32 + quintet(text, 8 * a + 5)) / 64) % 256,
        base32_byte(text, 5 * a + 3) as int == ((quintet(text, 8 * a + 4) * 1024 + quintet(
            text,
            8 * a + 5,
        ) * 32 + quintet(text, 8 * a + 6)) / 8) % 256,
        base32_byte(text, 5 * a + 4) as int == ((quintet(text, 8 * a + 6) * 1024 + quintet(
            text,
            8 * a + 7,
        ) * 32 + quintet(text, 8 * a + 8)) / 32) % 256,
{
    reveal(base32_byte);
    assert(8 * (5 * a) / 5 == 8 * a && 8 * (5 * a) % 5 == 0);
    assert(8 * (5 * a + 1) / 5 == 8 * a + 1 && 8 * (5 * a + 1) % 5 == 3);
    assert(8 * (5 * a + 2) / 5 == 8 * a + 3 && 8 * (5 * a + 2) % 5 == 1);
    assert(8 * (5 * a + 3) / 5 == 8 * a + 4 && 8 * (5 * a + 3) % 5 == 4);
    assert(8 * (5 * a + 4) / 5 == 8 * a + 6 && 8 * (5 * a + 4) % 5 == 2);
}

/// The first two places of a block, read back out of its bytes.
proof fn places_0_1(v0: int, v1: int, v2: int, v3: int, b0: int, b1: int)
    requires
        0 <= v0 < 32,
        0 <= v1 < 32,
        0 <= v2 < 32,
        0 <= v3 < 32,
        b0 == ((v0 * 1024 + v1 * 32 + v2) / 128) % 256,
        b1 == ((v1 * 1024 + v2 * 32 + v3) / 16) % 256,
    ensures
        ((b0 * 256 + b1) / 2048) % 32 == v0,
        ((b0 * 256 + b1) / 64) % 32 == v1,
{
    regroup_first(v0 as u32, v1 as u32, v2 as u32, v3 as u32);
}

/// Places 2 and 3 of a block, read back out of its bytes.
proof fn places_2_3(v1: int, v2: int, v3: int, v4: int, v5: int, b1: int, b2: int)
    requires
        0 <= v1 < 32,
        0 <= v2 < 32,
        0 <= v3 < 32,
        0 <= v4 < 32,
        0 <= v5 < 32,
        b1 == ((v1 * 1024 + v2 * 32 + v3) / 16) % 256,
        b2 == ((v3 * 1024 + v4 * 32 + v5) / 64) % 256,
    ensures
        ((b1 * 256 + b2) / 512) % 32 == v2,
        ((b1 * 256 + b2) / 16) % 32 == v3,
{
    regroup_second(v1 as u32, v2 as u32, v3 as u32, v4 as u32, v5 as u32);
}

/// Place 4 of a block, read back out of its bytes.
proof fn place_4(v3: int, v4: int, v5: int, v6: int, b2: int, b3: int)
    requires
        0 <= v3 < 32,
        0 <= v4 < 32,
        0 <= v5 < 32,
        0 <= v6 < 32,
        b2 == ((v3 * 1024 + v4 * 32 + v5) / 64) % 256,
        b3 == ((v4 * 1024 + v5 * 32 + v6) / 8) % 256,
    ensures
        ((b2 * 256 + b3) / 128) % 32 == v4,
{
    regroup_third(v3 as u32, v4 as u32, v5 as u32, v6 as u32);
}

/// Places 5, 6 and 7 of a block, read back out of its bytes.
proof fn places_5_6_7(v4: int, v5: int, v6: int, v7: int, v8: int, b3: int, b4: int, b5: int)
    requires
        0 <= v4 < 32,
        0 <= v5 < 32,
        0 <= v6 < 32,
        0 <= v7 < 32,
        0 <= v8 < 32,
        0 <= b5 < 256,
        b3 == ((v4 * 1024 + v5 * 32 + v6) / 8) % 256,
        b4 == ((v6 * 1024 + v7 * 32 + v8) / 32) % 256,
    ensures
        ((b3 * 256 + b4) / 1024) % 32 == v5,
        ((b3 * 256 + b4) / 32) % 32 == v6,
        ((b4 * 256 + b5) / 256) % 32 == v7,
{
    regroup_fourth(v4 as u32, v5 as u32, v6 as u32, v7 as u32, v8 as u32);
    assert((b4 * 256 + b5) / 256 == b4);
}

/// Cutting the bit string into bytes and the bytes back into groups of five
/// bits gives the five bits of every place.
pub proof fn quintet_survives(text: Seq<u8>, i: int)
    requires
        quintets_in_range(text),
        0 <= i,
    ensures
        quintet_of_bytes(text, i) == quintet(text, i),
{
    let a = i / 8;
    let r = i % 8;
    assert(i == 8 * a + r);
    block_bytes(text, a);
    if r == 0 || r == 1 {
        assert(5 * i / 8 == 5 * a);
        assert(5 * i % 8 == 5 * r);
        places_0_1(
            quintet(text, 8 * a),
            quintet(text, 8 * a + 1),
            quintet(text, 8 * a + 2),
            quintet(text, 8 * a + 3),
            base32_byte(text, 5 * a) as int,
            base32_byte(text, 5 * a + 1) as int,
        );
    } else if r == 2 || r == 3 {
        assert(5 * i / 8 == 5 * a + 1);
        assert(5 * i % 8 == 5 * r - 8);
        places_2_3(
            quintet(text, 8 * a + 1),
            quintet(text, 8 * a + 2),
            quintet(text, 8 * a + 3),
            quintet(text, 8 * a + 4),
            quintet(text, 8 * a + 5),
            base32_byte(text, 5 * a + 1) as int,
            base32_byte(text, 5 * a + 2) as int,
        );
    } else if r == 4 {
        assert(5 * i / 8 == 5 * a + 2);
        assert(5 * i % 8 == 4);
        place_4(
            quintet(text, 8 * a + 3),
            quintet(text, 8 * a + 4),
            quintet(text, 8 * a + 5),
            quintet(text, 8 * a + 6),
            base32_byte(text, 5 * a + 2) as int,
            base32_byte(text, 5 * a + 3) as int,
        );
    } else {
        assert(5 * i / 8 == (if r == 7 {
            5 * a + 4
        } else {
            5 * a + 3
        }));
        assert(5 * i % 8 == (if r == 5 {
            1int
        } else if r == 6 {
            6int
        } else {
            3int
        }));
        places_5_6_7(
            quintet(text, 8 * a + 4),
            quintet(text, 8 * a + 5),
            quintet(text, 8 * a + 6),
            quintet(text, 8 * a + 7),
            quintet(text, 8 * a + 8),
            base32_byte(text, 5 * a + 3) as int,
            base32_byte(text, 5 * a + 4) as int,
            base32_byte(text, 5 * a + 5) as int,
        );
    }
}

/// In a text that decodes, every place holds five bits, and the byte behind
/// the last whole byte is zero: it holds nothing but the spare bits.
pub proof fn decodable_text_facts(text: Seq<u8>)
    requires
        base32_decoded(text) is Ok,
    ensures
        quintets_in_range(text),
        forall|i: int| 0 <= i < text.len() ==> base32_symbol(quintet(text, i)) == #[trigger] text[i],
        base32_byte(text, (5 * text.len() / 8) as int) == 0,
        (8 * (5 * text.len() / 8) + 4) / 5 == text.len(),
        text.len() > 0 ==> 5 * (text.len() - 1) / 8 + 1 == 5 * text.len() / 8,
{
    reveal(base32_byte);
    let n = text.len() as int;
    first_non_base32_is_first(text);
    assert forall|i: int| 0 <= #[trigger] quintet(text, i) < 32 by {
        if 0 <= i < n {
            assert(base32_value(text[i]) is Some);
        }
    }
    assert forall|i: int| 0 <= i < n implies base32_symbol(quintet(text, i)) == #[trigger] text[i] by {
        assert(base32_value(text[i]) is Some);
    }
    let q = n / 8;
    let r = n % 8;
    assert(n == 8 * q + r);
    let m = 5 * n / 8;
    let last = quintet(text, n - 1);
    assert(trailing_bits_zero(text));
    assert(quintet(text, n) == 0);
    assert(quintet(text, n + 1) == 0);
    assert(quintet(text, n + 2) == 0);
    if r == 0 {
        assert(m == 5 * q);
        assert(8 * m / 5 == n && 8 * m % 5 == 0);
    } else if r == 2 {
        assert(m == 5 * q + 1);
        assert(8 * m / 5 == n - 1 && 8 * m % 5 == 3);
        assert(5 * n % 8 == 2);
        assert(last % 4 == 0);
        assert((last * 1024 / 16) % 256 == 0);
    } else if r == 4 {
        assert(m == 5 * q + 2);
        assert(8 * m / 5 == n - 1 && 8 * m % 5 == 1);
        assert(5 * n % 8 == 4);
        assert(last % 16 == 0);
        assert((last * 1024 / 64) % 256 == 0);
    } else if r == 5 {
        assert(m == 5 * q + 3);
        assert(8 * m / 5 == n - 1 && 8 * m % 5 == 4);
        assert(5 * n % 8 == 1);
        assert(last % 2 == 0);
        assert((last * 1024 / 8) % 256 == 0);
    } else {
        assert(r == 7);
        assert(m == 5 * q + 4);
        assert(8 * m / 5 == n - 1 && 8 * m % 5 == 2);
        assert(5 * n % 8 == 3);
        assert(last % 8 == 0);
        assert((last * 1024 / 32) % 256 == 0);
    }
}

/// Decoding an unpadded Base32 text and encoding the bytes again gives the
/// text back.
pub proof fn base32_round_trip(text: Seq<u8>)
    requires
        base32_decoded(text) is Ok,
    ensures
        base32_encoded(base32_decoded(text)->Ok_0) == text,
{
    let n = text.len() as int;
    let m = 5 * n / 8;
    let bytes = base32_decoded(text)->Ok_0;
    decodable_text_facts(text);
    assert(bytes.len() == m);
    let encoded = base32_encoded(bytes);
    assert(encoded.len() == n);
    assert forall|i: int| 0 <= i < n implies encoded[i] == text[i] by {
        let k = 5 * i / 8;
        assert(0 <= k && k + 1 <= m) by {
            assert(5 * i / 8 <= 5 * (n - 1) / 8);
        }
        assert(bytes[k] == base32_byte(text, k));
        if k + 1 < m {
            assert(bytes[k + 1] == base32_byte(text, k + 1));
        }
        quintet_survives(text, i);
        assert(base32_char(bytes, i) == base32_symbol(quintet_of_bytes(text, i)));
    }
    assert(encoded =~= text);
}

} // verus!
