//! Numbers written as text, and text made from bytes.

use vstd::prelude::*;
use vstd::utf8::{
    decode_utf8, encode_utf8, encode_utf8_decode_utf8, encode_utf8_valid_utf8,
    is_ascii_chars, is_ascii_chars_encode_utf8, valid_utf8,
};
use crate::extensions::string_from_utf8;

verus! {

/// Whether every byte is an ASCII character.
pub open spec fn is_ascii_bytes(bytes: Seq<u8>) -> bool {
    forall|i: int| 0 <= i < bytes.len() ==> bytes[i] < 128
}

/// The characters that ASCII bytes stand for.
pub open spec fn ascii_chars(bytes: Seq<u8>) -> Seq<char> {
    Seq::new(bytes.len(), |i: int| bytes[i] as char)
}

/// ASCII bytes are valid UTF-8, one character to a byte.
pub proof fn lemma_ascii_is_utf8(bytes: Seq<u8>)
    requires
        is_ascii_bytes(bytes),
    ensures
        valid_utf8(bytes),
        decode_utf8(bytes) == ascii_chars(bytes),
        encode_utf8(ascii_chars(bytes)) == bytes,
{
    let chars = ascii_chars(bytes);
    assert(is_ascii_chars(chars)) by {
        assert forall|i: int| 0 <= i < chars.len() implies '\0' <= #[trigger] chars[i]
            <= '\u{7f}' by {
            assert(bytes[i] < 128);
        }
    }
    is_ascii_chars_encode_utf8(chars);
    assert(encode_utf8(chars) =~= bytes) by {
        assert forall|i: int| 0 <= i < bytes.len() implies encode_utf8(chars)[i] == bytes[i] by {
            assert(chars[i] as u8 == encode_utf8(chars)[i]);
        }
    }
    encode_utf8_valid_utf8(chars);
    encode_utf8_decode_utf8(chars);
}

/// The string that valid UTF-8 encodes.
pub fn string_of_utf8(bytes: Vec<u8>) -> (text: String)
    requires
        valid_utf8(bytes@),
    ensures
        text@ == decode_utf8(bytes@),
        encode_utf8(text@) == bytes@,
{
    proof {
        vstd::utf8::decode_utf8_encode_utf8(bytes@);
    }
    string_from_utf8(bytes).unwrap()
}

/// The string that ASCII bytes spell.
pub fn string_of_ascii(bytes: Vec<u8>) -> (text: String)
    requires
        is_ascii_bytes(bytes@),
    ensures
        text@ == ascii_chars(bytes@),
        encode_utf8(text@) == bytes@,
{
    proof {
        lemma_ascii_is_utf8(bytes@);
    }
    string_of_utf8(bytes)
}

/// The digit, as an ASCII character, of a value below 16.
pub open spec fn spec_hex_digit(value: int, upper: bool) -> u8 {
    if value < 10 {
        (0x30 + value) as u8
    } else if upper {
        (0x41 + value - 10) as u8
    } else {
        (0x61 + value - 10) as u8
    }
}

/// 16 to the power of `exponent`, for the exponents that a `u32` has digits
/// for.
pub open spec fn pow16(exponent: int) -> int {
    if exponent <= 0 {
        1
    } else if exponent == 1 {
        0x10
    } else if exponent == 2 {
        0x100
    } else if exponent == 3 {
        0x1000
    } else if exponent == 4 {
        0x1_0000
    } else if exponent == 5 {
        0x10_0000
    } else if exponent == 6 {
        0x100_0000
    } else {
        0x1000_0000
    }
}

/// The eight hexadecimal digits of `value`, most significant first.
pub open spec fn spec_hex8(value: u32, upper: bool) -> Seq<u8> {
    Seq::new(8, |i: int| spec_hex_digit((value as int / pow16(7 - i)) % 16, upper))
}

/// Append the eight hexadecimal digits of `value`.
pub fn push_hex8(out: &mut Vec<u8>, value: u32, upper: bool)
    ensures
        final(out)@ == old(out)@ + spec_hex8(value, upper),
        is_ascii_bytes(spec_hex8(value, upper)),
{
    let ghost before = out@;
    let mut i: usize = 0;
    let mut divisor: u32 = 0x1000_0000;
    while i < 8
        invariant
            i <= 8,
            i < 8 ==> divisor as int == pow16(7 - i),
            out@.len() == before.len() + i,
            forall|j: int| 0 <= j < before.len() ==> out@[j] == before[j],
            forall|j: int| 0 <= j < i ==> out@[before.len() + j] == spec_hex8(value, upper)[j],
        decreases 8 - i,
    {
        let nibble = ((value / divisor) % 16) as u8;
        let digit = if nibble < 10 {
            0x30 + nibble
        } else if upper {
            0x41 + (nibble - 10)
        } else {
            0x61 + (nibble - 10)
        };
        out.push(digit);
        i += 1;
        if i < 8 {
            divisor = divisor / 16;
        }
    }
    assert(out@ =~= before + spec_hex8(value, upper));
}

/// The decimal digits of `value`, most significant first and without
/// leading zeros; the digit 0 for zero.
pub open spec fn spec_decimal(value: nat) -> Seq<u8>
    decreases value,
{
    if value < 10 {
        seq![(0x30 + value) as u8]
    } else {
        spec_decimal(value / 10) + seq![(0x30 + value % 10) as u8]
    }
}

/// `width - len` zero digits, none where `len` is no less than `width`.
pub open spec fn zero_digits(width: int, len: int) -> Seq<u8> {
    Seq::new(
        if len < width {
            (width - len) as nat
        } else {
            0nat
        },
        |i: int| 0x30u8,
    )
}

/// The decimal digits of `value`, with zeros in front up to `width` digits.
pub open spec fn spec_decimal_padded(value: nat, width: int) -> Seq<u8> {
    zero_digits(width, spec_decimal(value).len() as int) + spec_decimal(value)
}

/// Decimal digits are ASCII, and there are twenty of them at most for a
/// `u64`.
pub proof fn lemma_decimal(value: nat)
    ensures
        is_ascii_bytes(spec_decimal(value)),
        spec_decimal(value).len() >= 1,
        forall|i: int|
            0 <= i < spec_decimal(value).len() ==> 0x30 <= #[trigger] spec_decimal(value)[i]
                <= 0x39,
    decreases value,
{
    if value >= 10 {
        lemma_decimal(value / 10);
    }
}

/// Append the decimal digits of `value`, with zeros in front up to `width`
/// digits.
pub fn push_decimal(out: &mut Vec<u8>, value: u64, width: usize)
    ensures
        final(out)@ == old(out)@ + spec_decimal_padded(value as nat, width as int),
        is_ascii_bytes(spec_decimal_padded(value as nat, width as int)),
{
    let ghost before = out@;
    // The digits, least significant first.
    let mut reversed: Vec<u8> = Vec::new();
    let mut rest = value;
    reversed.push(0x30 + (rest % 10) as u8);
    rest = rest / 10;
    proof {
        lemma_decimal(value as nat);
    }
    while rest > 0
        invariant
            reversed@.len() >= 1,
            spec_decimal(value as nat) == if rest > 0 {
                spec_decimal(rest as nat) + reversed@.reverse()
            } else {
                reversed@.reverse()
            },
        decreases rest,
    {
        let ghost previous = reversed@;
        reversed.push(0x30 + (rest % 10) as u8);
        proof {
            let digit = (0x30 + rest % 10) as u8;
            assert(reversed@.reverse() =~= seq![digit] + previous.reverse());
            if rest >= 10 {
                assert(spec_decimal(rest as nat) == spec_decimal((rest / 10) as nat) + seq![digit]);
                assert(spec_decimal((rest / 10) as nat) + seq![digit] + previous.reverse()
                    =~= spec_decimal((rest / 10) as nat) + (seq![digit] + previous.reverse()));
            } else {
                assert(spec_decimal(rest as nat) =~= seq![digit]);
            }
        }
        rest = rest / 10;
    }
    let count = reversed.len();
    let mut padding: usize = 0;
    while padding + count < width
        invariant
            count == reversed@.len(),
            padding + count <= width || padding == 0,
            out@ == before + zero_digits((padding + count) as int, count as int),
        decreases width - padding - count,
    {
        out.push(0x30u8);
        padding += 1;
        assert(out@ =~= before + zero_digits((padding + count) as int, count as int));
    }
    assert(zero_digits((padding + count) as int, count as int) =~= zero_digits(
        width as int,
        count as int,
    ));
    let ghost padded = out@;
    let mut i: usize = count;
    while i > 0
        invariant
            i <= count,
            count == reversed@.len(),
            out@ == padded + reversed@.reverse().subrange(0, count - i),
        decreases i,
    {
        i -= 1;
        out.push(reversed[i]);
        assert(out@ =~= padded + reversed@.reverse().subrange(0, count - i));
    }
    assert(reversed@.reverse().subrange(0, count as int) =~= reversed@.reverse());
    assert(out@ =~= before + spec_decimal_padded(value as nat, width as int));
    assert(is_ascii_bytes(spec_decimal_padded(value as nat, width as int)));
}

/// Whether a character is a letter or a number, as Unicode has it.
pub uninterp spec fn is_alphanumeric_char(c: char) -> bool;

/// `char::is_alphanumeric` of the standard library.
#[verifier::external_body]
pub(crate) fn char_is_alphanumeric(c: char) -> (result: bool)
    ensures
        result == is_alphanumeric_char(c),
{
    c.is_alphanumeric()
}

/// Whether every character is a letter or a number.
pub open spec fn all_alphanumeric(chars: Seq<char>) -> bool {
    forall|i: int| 0 <= i < chars.len() ==> is_alphanumeric_char(#[trigger] chars[i])
}

/// Whether every character of `text` is a letter or a number.
pub fn is_all_alphanumeric(text: &str) -> (result: bool)
    ensures
        result == all_alphanumeric(text@),
{
    let count = text.unicode_len();
    let mut i: usize = 0;
    while i < count
        invariant
            i <= count,
            count == text@.len(),
            forall|j: int| 0 <= j < i ==> is_alphanumeric_char(#[trigger] text@[j]),
        decreases count - i,
    {
        if !char_is_alphanumeric(text.get_char(i)) {
            return false;
        }
        i += 1;
    }
    true
}

} // verus!
