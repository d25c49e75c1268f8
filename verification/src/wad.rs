//! The files that Nintendo stores titles in where there is no disc.

use vstd::prelude::*;
use crate::bytes::{u16_be_bytes, u32_be_bytes};
use crate::stream::{Stream, StreamError};
use crate::wad::installable::{
    InstallableWad, InstallableWadError, InstallableWadKind, InstallableWadView,
};

pub mod installable;

verus! {

/// Whether the eight bytes at `pos` are the first of an installable WAD: a
/// header of 32 bytes, the letters of one of its kinds (`Is` or `ib`), and
/// the version 0.
pub open spec fn spec_is_installable(bytes: Seq<u8>, pos: int) -> bool {
    &&& bytes[pos] == 0x00
    &&& bytes[pos + 1] == 0x00
    &&& bytes[pos + 2] == 0x00
    &&& bytes[pos + 3] == 0x20
    &&& InstallableWadKind::spec_new(bytes[pos + 4], bytes[pos + 5]) is Some
    &&& bytes[pos + 6] == 0x00
    &&& bytes[pos + 7] == 0x00
}

/// Represent the different kinds of WAD files that are known to have been
/// used on the Nintendo Wii.
#[derive(Debug, Clone, Copy, PartialEq, Eq, Structural)]
pub enum Wad {
    /// WAD that stores the data needed to install a title into the system.
    Installable(InstallableWad),
    /// Kind of WAD that was used to store encrypted data safely into the SD
    /// card, used to store channels and downloadable content (DLCs).
    BackUp,
}

/// Why a WAD could not be read.
#[derive(Debug, Clone, Copy, PartialEq, Eq)]
pub enum WadError {
    /// The stream failed.
    IoError(StreamError),
    /// The header of an installable WAD could not be read.
    InstallableWadParseError(InstallableWadError),
    /// The first bytes are not those of a known WAD.
    UnknownWadFormatError,
    /// The WAD is of a kind that was not asked for.
    UndesiredWadFormat,
}

impl Wad {
    /// The WAD whose header stands at the start of `bytes`, or why there is
    /// none: the eight bytes at `pos` have to be those of an installable
    /// WAD.
    pub open spec fn spec_parse(bytes: Seq<u8>, pos: int) -> Result<Wad, WadError> {
        if pos + 8 > bytes.len() {
            Err(WadError::IoError(StreamError::UnexpectedEof))
        } else if !spec_is_installable(bytes, pos) {
            Err(WadError::UnknownWadFormatError)
        } else {
            match InstallableWadView::spec_parse(bytes, 0) {
                Ok(wad) => Ok(Wad::Installable(wad)),
                Err(error) => Err(WadError::InstallableWadParseError(error)),
            }
        }
    }

    /// Create a new [Wad] by parsing a stream. The kind of WAD is told by
    /// the eight bytes at the position of the stream; the header is then
    /// read from the first byte of the stream, and the stream is left behind
    /// the header.
    pub fn new(stream: &mut Stream) -> (result: Result<Self, WadError>)
        requires
            old(stream).wf(),
        ensures
            final(stream).same_content(old(stream)),
            result == Self::spec_parse(old(stream).bytes(), old(stream).pos() as int),
            result is Ok ==> final(stream).pos() == 32,
    {
        let magic_numbers_buffer = match stream.read_array::<8>() {
            Ok(value) => value,
            Err(error) => return Err(WadError::IoError(error)),
        };
        // The header is parsed from the start.
        stream.rewind();
        let is_known_kind = (magic_numbers_buffer[4] == 0x49 && magic_numbers_buffer[5] == 0x73)
            || (magic_numbers_buffer[4] == 0x69 && magic_numbers_buffer[5] == 0x62);
        let is_installable = magic_numbers_buffer[0] == 0x00 && magic_numbers_buffer[1] == 0x00
            && magic_numbers_buffer[2] == 0x00 && magic_numbers_buffer[3] == 0x20 && is_known_kind
            && magic_numbers_buffer[6] == 0x00 && magic_numbers_buffer[7] == 0x00;
        proof {
            let bytes = old(stream).bytes();
            let pos = old(stream).pos() as int;
            let found = bytes.subrange(pos, pos + 8);
            assert(magic_numbers_buffer@ == found);
            assert forall|i: int| 0 <= i < 8 implies magic_numbers_buffer@[i] == bytes[pos + i] by {
                assert(found[i] == bytes[pos + i]);
            }
            assert(is_installable == spec_is_installable(bytes, pos));
        }
        if is_installable {
            match InstallableWad::new(stream) {
                Ok(wad) => Ok(Wad::Installable(wad)),
                Err(error) => Err(WadError::InstallableWadParseError(error)),
            }
        } else {
            Err(WadError::UnknownWadFormatError)
        }
    }

    /// Like [Self::new] but treats any format of WAD except the Installable
    /// ones as an error.
    pub fn try_new_installable(stream: &mut Stream) -> (result: Result<InstallableWad, WadError>)
        requires
            old(stream).wf(),
        ensures
            final(stream).same_content(old(stream)),
            result == match Self::spec_parse(old(stream).bytes(), old(stream).pos() as int) {
                Ok(Wad::Installable(wad)) => Ok::<InstallableWad, WadError>(wad),
                Ok(Wad::BackUp) => Err::<InstallableWad, WadError>(WadError::UndesiredWadFormat),
                Err(error) => Err::<InstallableWad, WadError>(error),
            },
            result is Ok ==> final(stream).pos() == 32,
    {
        match Self::new(stream) {
            Ok(Wad::Installable(installable_wad)) => Ok(installable_wad),
            Ok(_) => Err(WadError::UndesiredWadFormat),
            Err(error) => Err(error),
        }
    }
}

impl InstallableWad {
    /// A header that was written at the start of a stream is told for that
    /// of an installable WAD, whatever its kind, and read back as it was.
    pub proof fn lemma_wad_round_trip(self, bytes: Seq<u8>)
        requires
            self.wf(),
            64 <= bytes.len(),
            bytes.subrange(0, 64) == self.spec_serialize(),
        ensures
            Wad::spec_parse(bytes, 0) == Ok::<Wad, WadError>(Wad::Installable(self)),
    {
        self.lemma_parse_serialize(bytes, 0);
        let image = self.spec_serialize();
        let magic = self.kind.spec_magic();
        let front = u32_be_bytes(32) + magic + u16_be_bytes(0);
        assert(u32_be_bytes(32) =~= seq![0x00u8, 0x00, 0x00, 0x20]);
        assert(u16_be_bytes(0) =~= seq![0x00u8, 0x00]);
        assert forall|i: int| 0 <= i < 8 implies bytes[i] == front[i] by {
            assert(bytes.subrange(0, 64)[i] == bytes[i]);
            assert(image[i] == front[i]);
        }
        assert(front[4] == magic[0] && front[5] == magic[1]);
    }
}

} // verus!
