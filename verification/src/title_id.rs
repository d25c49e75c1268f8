//! The 64-bit identifier of a title.

use vstd::prelude::*;
use vstd::utf8::{decode_utf8, encode_utf8, valid_utf8};
use crate::bytes::{push_u64_be, u32_be_bytes, u64_be_bytes};
use crate::extensions::string_from_utf8;
use crate::stream::{Stream, StreamError};
use crate::text::{
    all_alphanumeric, is_all_alphanumeric, is_ascii_bytes, lemma_ascii_is_utf8, push_decimal,
    push_hex8, spec_decimal, spec_decimal_padded, spec_hex8, string_of_ascii, string_of_utf8,
};

verus! {

/// 64 bit value used to uniquely identify titles on Nintendo consoles.
#[derive(Debug, Clone, Copy, PartialEq, Eq, Structural)]
pub struct TitleId(pub u64);

/// Wrapper that displays a title ID with ASCII characters in its lower half;
/// where the lower half is no text of letters and numbers, the plain display is
/// used.
#[derive(Debug, Clone, Copy)]
pub struct TitleIdAsciiDisplay<'a>(pub &'a TitleId);

/// Wrapper that displays a title ID with the names of the well-known titles of
/// the Wii (IOS, BOOT2, and so on).
#[derive(Debug, Clone, Copy)]
pub struct TitleIdWiiPlatformDisplay<'a>(pub &'a TitleId);

/// The byte of the hyphen between the two halves.
pub const HYPHEN: u8 = 0x2D;

impl TitleId {
    /// The lower 32 bits.
    pub open spec fn spec_lower_half(self) -> u32 {
        (self.0 % 0x1_0000_0000) as u32
    }

    /// The higher 32 bits.
    pub open spec fn spec_higher_half(self) -> u32 {
        (self.0 / 0x1_0000_0000) as u32
    }

    /// The identifier with the given halves.
    pub open spec fn spec_with_halfs(higher_half: u32, lower_half: u32) -> TitleId {
        TitleId((higher_half as int * 0x1_0000_0000 + lower_half) as u64)
    }

    /// The eight bytes of the identifier, most significant first.
    pub open spec fn spec_bytes(self) -> Seq<u8> {
        u64_be_bytes(self.0)
    }

    /// The plain display: both halves as eight hexadecimal digits, a hyphen
    /// between them.
    pub open spec fn spec_display(self, alternate: bool) -> Seq<u8> {
        spec_hex8(self.spec_higher_half(), alternate) + seq![HYPHEN] + spec_hex8(
            self.spec_lower_half(),
            alternate,
        )
    }

    /// Create a new [TitleId].
    pub fn new(title_id_value: u64) -> (id: Self)
        ensures
            id == TitleId(title_id_value),
    {
        TitleId(title_id_value)
    }

    /// Create a new [TitleId] given a higher and a lower half.
    pub fn new_with_halfs(higher_half: u32, lower_half: u32) -> (id: Self)
        ensures
            id == Self::spec_with_halfs(higher_half, lower_half),
            id.spec_higher_half() == higher_half,
            id.spec_lower_half() == lower_half,
    {
        TitleId((higher_half as u64) * 0x1_0000_0000 + lower_half as u64)
    }

    /// Get the stored value inside the title ID.
    pub fn inner(&self) -> (value: u64)
        ensures
            value == self.0,
    {
        self.0
    }

    /// Write the identifier, most significant byte first.
    pub fn dump(&self, stream: &mut Stream) -> (result: Result<(), StreamError>)
        requires
            old(stream).wf(),
        ensures
            final(stream).wf(),
            crate::extensions::wrote_all(*old(stream), *final(stream), self.spec_bytes(), result),
    {
        let mut bytes: Vec<u8> = Vec::new();
        push_u64_be(&mut bytes, self.0);
        assert(bytes@ =~= self.spec_bytes());
        stream.write_all(bytes.as_slice())
    }

    /// Get the lower half of the ID.
    pub fn lower_half(&self) -> (half: u32)
        ensures
            half == self.spec_lower_half(),
    {
        (self.0 % 0x1_0000_0000) as u32
    }

    /// Get the higher half of the ID.
    pub fn higher_half(&self) -> (half: u32)
        ensures
            half == self.spec_higher_half(),
    {
        (self.0 / 0x1_0000_0000) as u32
    }

    /// Set a new lower half.
    pub fn set_lower_half(&mut self, lower_half: u32)
        ensures
            *final(self) == Self::spec_with_halfs(old(self).spec_higher_half(), lower_half),
            final(self).spec_lower_half() == lower_half,
            final(self).spec_higher_half() == old(self).spec_higher_half(),
    {
        *self = Self::new_with_halfs(self.higher_half(), lower_half);
    }

    /// Set a new higher half.
    pub fn set_higher_half(&mut self, higher_half: u32)
        ensures
            *final(self) == Self::spec_with_halfs(higher_half, old(self).spec_lower_half()),
            final(self).spec_higher_half() == higher_half,
            final(self).spec_lower_half() == old(self).spec_lower_half(),
    {
        *self = Self::new_with_halfs(higher_half, self.lower_half());
    }

    /// Get a wrapper that displays the title ID with ASCII characters in its
    /// lower half.
    pub fn display_ascii(&self) -> (display: TitleIdAsciiDisplay<'_>)
        ensures
            *display.0 == *self,
    {
        TitleIdAsciiDisplay(self)
    }

    /// Get a wrapper that displays the title ID with the names of the
    /// well-known titles of the Wii.
    pub fn display_wii_platform(&self) -> (display: TitleIdWiiPlatformDisplay<'_>)
        ensures
            *display.0 == *self,
    {
        TitleIdWiiPlatformDisplay(self)
    }

    fn display_bytes(&self, alternate: bool) -> (bytes: Vec<u8>)
        ensures
            bytes@ == self.spec_display(alternate),
            is_ascii_bytes(bytes@),
    {
        let mut bytes: Vec<u8> = Vec::new();
        push_hex8(&mut bytes, self.higher_half(), alternate);
        bytes.push(HYPHEN);
        push_hex8(&mut bytes, self.lower_half(), alternate);
        assert(bytes@ =~= self.spec_display(alternate));
        bytes
    }

    /// The plain display; with `alternate` the hexadecimal digits are upper
    /// case.
    pub fn format(&self, alternate: bool) -> (text: String)
        ensures
            encode_utf8(text@) == self.spec_display(alternate),
    {
        string_of_ascii(self.display_bytes(alternate))
    }

    /// The plain display with lower case digits.
    pub fn to_string(&self) -> (text: String)
        ensures
            encode_utf8(text@) == self.spec_display(false),
    {
        self.format(false)
    }
}

/// Both halves are read back from an identifier made of them.
pub proof fn lemma_title_id_halves(higher_half: u32, lower_half: u32)
    ensures
        TitleId::spec_with_halfs(higher_half, lower_half).spec_higher_half() == higher_half,
        TitleId::spec_with_halfs(higher_half, lower_half).spec_lower_half() == lower_half,
{
}

/// An identifier is made of its two halves.
pub proof fn lemma_title_id_of_halves(id: TitleId)
    ensures
        TitleId::spec_with_halfs(id.spec_higher_half(), id.spec_lower_half()) == id,
{
}

impl<'a> TitleIdAsciiDisplay<'a> {
    /// Whether the lower half is shown as text: its four bytes are UTF-8 and
    /// spell letters and numbers only.
    pub open spec fn spec_is_text(self) -> bool {
        let bytes = u32_be_bytes(self.0.spec_lower_half());
        valid_utf8(bytes) && all_alphanumeric(decode_utf8(bytes))
    }

    /// The display of an identifier of which it is known whether its lower
    /// half is text: the higher half in hexadecimal digits, a hyphen, and
    /// the four bytes of the lower half as they are where they are text, in
    /// hexadecimal digits where they are not.
    pub open spec fn spec_display_as(self, alternate: bool, is_text: bool) -> Seq<u8> {
        if is_text {
            spec_hex8(self.0.spec_higher_half(), alternate) + seq![HYPHEN] + u32_be_bytes(
                self.0.spec_lower_half(),
            )
        } else {
            self.0.spec_display(alternate)
        }
    }

    /// The display: the higher half in hexadecimal digits, a hyphen, and the
    /// four bytes of the lower half as text where they are text.
    pub open spec fn spec_display(self, alternate: bool) -> Seq<u8> {
        self.spec_display_as(alternate, self.spec_is_text())
    }

    /// The bytes of the display of an identifier of which the caller knows
    /// whether its lower half is text; with `alternate` the hexadecimal
    /// digits are upper case.
    pub fn display_bytes(&self, alternate: bool, is_text: bool) -> (bytes: Vec<u8>)
        ensures
            bytes@ == self.spec_display_as(alternate, is_text),
            bytes@.len() == if is_text {
                13int
            } else {
                17int
            },
    {
        if !is_text {
            return self.0.display_bytes(alternate);
        }
        let mut bytes: Vec<u8> = Vec::new();
        push_hex8(&mut bytes, self.0.higher_half(), alternate);
        bytes.push(HYPHEN);
        crate::bytes::push_u32_be(&mut bytes, self.0.lower_half());
        assert(bytes@ =~= self.spec_display_as(alternate, true));
        bytes
    }

    /// The display; with `alternate` the hexadecimal digits are upper case.
    pub fn format(&self, alternate: bool) -> (text: String)
        ensures
            encode_utf8(text@) == self.spec_display(alternate),
    {
        let mut lower: Vec<u8> = Vec::new();
        crate::bytes::push_u32_be(&mut lower, self.0.lower_half());
        assert(lower@ =~= u32_be_bytes(self.0.spec_lower_half()));
        let ghost lower_bytes = lower@;
        let is_text = match string_from_utf8(lower) {
            Some(lower_text) => is_all_alphanumeric(lower_text.as_str()),
            None => false,
        };
        assert(is_text == self.spec_is_text());
        let bytes = self.display_bytes(alternate, is_text);
        proof {
            if is_text {
                let head = spec_hex8(self.0.spec_higher_half(), alternate) + seq![HYPHEN];
                lemma_ascii_is_utf8(head);
                vstd::utf8::valid_utf8_concat(head, lower_bytes);
                assert(bytes@ =~= head + lower_bytes);
            } else {
                lemma_ascii_is_utf8(bytes@);
            }
        }
        string_of_utf8(bytes)
    }

    /// The display with lower case digits.
    pub fn to_string(&self) -> (text: String)
        ensures
            encode_utf8(text@) == self.spec_display(false),
    {
        self.format(false)
    }
}

/// The letters `IOS`.
pub open spec fn ios_prefix() -> Seq<u8> {
    seq![0x49u8, 0x4F, 0x53]
}

/// The letters ` (Wii)`, with the space in front.
pub open spec fn wii_suffix() -> Seq<u8> {
    seq![0x20u8, 0x28, 0x57, 0x69, 0x69, 0x29]
}

impl<'a> TitleIdWiiPlatformDisplay<'a> {
    /// The name of a system title of the Wii, by the lower half of its
    /// identifier.
    pub open spec fn spec_name(lower_half: u32) -> Seq<u8> {
        if lower_half == 0x0000_0001 {
            // BOOT2
            seq![0x42u8, 0x4F, 0x4F, 0x54, 0x32]
        } else if lower_half == 0x0000_0002 {
            // System Menu
            seq![0x53u8, 0x79, 0x73, 0x74, 0x65, 0x6D, 0x20, 0x4D, 0x65, 0x6E, 0x75]
        } else if lower_half == 0x0000_0100 {
            // BC
            seq![0x42u8, 0x43]
        } else if lower_half == 0x0000_0101 {
            // MIOS
            seq![0x4Du8, 0x49, 0x4F, 0x53]
        } else if lower_half == 0x0000_0200 {
            // BC-NAND
            seq![0x42u8, 0x43, 0x2D, 0x4E, 0x41, 0x4E, 0x44]
        } else if lower_half == 0x0000_0201 {
            // BC-WFS
            seq![0x42u8, 0x43, 0x2D, 0x57, 0x46, 0x53]
        } else {
            ios_prefix() + spec_decimal(lower_half as nat) + wii_suffix()
        }
    }

    /// The display: the name of the title where the higher half is 1, the
    /// plain display otherwise.
    pub open spec fn spec_display(self, alternate: bool) -> Seq<u8> {
        if self.0.spec_higher_half() == 1 {
            Self::spec_name(self.0.spec_lower_half())
        } else {
            self.0.spec_display(alternate)
        }
    }

    /// The display; with `alternate` the hexadecimal digits of the plain
    /// display are upper case.
    pub fn format(&self, alternate: bool) -> (text: String)
        ensures
            encode_utf8(text@) == self.spec_display(alternate),
    {
        if self.0.higher_half() != 0x0000_0001 {
            return self.0.format(alternate);
        }
        let lower_half = self.0.lower_half();
        let mut bytes: Vec<u8> = Vec::new();
        if lower_half == 0x0000_0001 {
            bytes = vec![0x42u8, 0x4F, 0x4F, 0x54, 0x32];
        } else if lower_half == 0x0000_0002 {
            bytes = vec![0x53u8, 0x79, 0x73, 0x74, 0x65, 0x6D, 0x20, 0x4D, 0x65, 0x6E, 0x75];
        } else if lower_half == 0x0000_0100 {
            bytes = vec![0x42u8, 0x43];
        } else if lower_half == 0x0000_0101 {
            bytes = vec![0x4Du8, 0x49, 0x4F, 0x53];
        } else if lower_half == 0x0000_0200 {
            bytes = vec![0x42u8, 0x43, 0x2D, 0x4E, 0x41, 0x4E, 0x44];
        } else if lower_half == 0x0000_0201 {
            bytes = vec![0x42u8, 0x43, 0x2D, 0x57, 0x46, 0x53];
        } else {
            bytes = vec![0x49u8, 0x4F, 0x53];
            push_decimal(&mut bytes, lower_half as u64, 0);
            let ghost digits = spec_decimal_padded(lower_half as nat, 0);
            assert(digits =~= spec_decimal(lower_half as nat));
            bytes.push(0x20);
            bytes.push(0x28);
            bytes.push(0x57);
            bytes.push(0x69);
            bytes.push(0x69);
            bytes.push(0x29);
            assert(bytes@ =~= ios_prefix() + spec_decimal(lower_half as nat) + wii_suffix());
        }
        assert(bytes@ =~= Self::spec_name(lower_half));
        string_of_ascii(bytes)
    }

    /// The display, with lower case digits where it is the plain one.
    pub fn to_string(&self) -> (text: String)
        ensures
            encode_utf8(text@) == self.spec_display(false),
    {
        self.format(false)
    }
}

} // verus!
