//! The installable WAD: a header, a certificate chain, a ticket, a title
//! metadata and the encrypted contents of a title, each on a boundary of 64
//! bytes.

use vstd::prelude::*;
use crate::align::{align_to_boundary, ceil_align, lemma_ceil_align};
use crate::bytes::{
    be_u16_at, be_u32_at, push_u16_be, push_u32_be, push_u8, push_zeros, u16_be_bytes,
    u32_be_bytes, zeros,
};
use crate::certificate_chain::CertificateChainError;
use crate::extensions::wrote_all;
use crate::stream::{Stream, StreamError, StreamState};
use crate::ticket::PreSwitchTicketError;
use crate::title_metadata::{TitleMetadata, TitleMetadataContentEntry, TitleMetadataError};

pub mod certificate_chain;
pub mod consistency;
pub mod content;
pub mod edits;
pub mod remove_add;
pub mod ticket;
pub mod title_metadata;

verus! {

/// The size of the header with the zeros that bring it to the boundary.
pub const HEADER_SIZE: u64 = 64;

/// The boundary that every section and every content begins on.
pub const SECTION_BOUNDARY: u64 = 64;

/// The number of certificates of the chain of an installable WAD.
pub const NUMBER_OF_CERTIFICATES_STORED: usize = 3;

/// A WAD that stores a title that can be installed into the system: the
/// sizes of its sections and its kind. The stream with its bytes is handed
/// to every operation.
#[derive(Debug, Clone, Copy, PartialEq, Eq, Structural)]
pub struct InstallableWad {
    /// The size of the header of the WAD.
    pub header_size: u32,
    /// The kind of installation that the WAD will use.
    pub kind: InstallableWadKind,
    /// The size of the certificate chain stored inside the WAD.
    pub certificate_chain_size: u32,
    /// The size of the ticket stored inside the WAD.
    pub ticket_size: u32,
    /// The size of the title metadata stored inside the WAD.
    pub title_metadata_size: u32,
    /// The size of the content blobs stored inside the WAD.
    pub content_size: u32,
    /// The size of the footer stored inside the WAD.
    pub footer_size: u32,
}

/// What an `InstallableWad` holds: the WAD itself.
pub type InstallableWadView = InstallableWad;

/// A setting of a `ModifyContentBuilder`.
#[derive(Debug, Clone, Copy, PartialEq, Eq, Structural)]
pub enum ModifyContentSetting {
    /// The ID of the content.
    Id,
    /// The index of the content.
    Index,
    /// The kind of the content.
    Kind,
    /// The ticket and the cryptographic method.
    Cryptography,
}

/// Why an operation on an installable WAD failed.
#[derive(Debug, Clone, Copy, PartialEq, Eq)]
pub enum InstallableWadError {
    /// The stream failed.
    IoError(StreamError),
    /// The two letters of the kind are neither `Is` nor `ib`.
    UnknownInstallableWadTypeError([u8; 2]),
    /// The ticket failed.
    TicketError(PreSwitchTicketError),
    /// The title metadata failed.
    TitleMetadataError(TitleMetadataError),
    /// The certificate chain failed.
    CertificateChainError(CertificateChainError),
    /// The given title is not for the Wii platform.
    NotAWiiTitle,
    /// The builder lacks a setting that the operation needs.
    ModifyContentMissingSetting(ModifyContentSetting),
    /// The title metadata has no entry at the physical position.
    TitleMetadataEntryNotFoundError,
    /// The version of the format is not 0.
    UnknownFormatVersion(u16),
}

/// Ways a WAD can install a title.
#[derive(Debug, Clone, Copy, PartialEq, Eq, Structural)]
pub enum InstallableWadKind {
    /// Install it as usual.
    Normal,
    /// The title is a version of the `boot2` bootloader of the Wii.
    Boot2,
}

impl InstallableWadKind {
    /// The kind that two letters name: `Is` the normal one, `ib` boot2.
    pub open spec fn spec_new(first: u8, second: u8) -> Option<Self> {
        if first == 0x49 && second == 0x73 {
            Some(InstallableWadKind::Normal)
        } else if first == 0x69 && second == 0x62 {
            Some(InstallableWadKind::Boot2)
        } else {
            None
        }
    }

    /// The two letters of the kind.
    pub open spec fn spec_magic(self) -> Seq<u8> {
        match self {
            InstallableWadKind::Normal => seq![0x49u8, 0x73],
            InstallableWadKind::Boot2 => seq![0x69u8, 0x62],
        }
    }

    /// Read the two letters of the kind.
    pub fn new(stream: &mut Stream) -> (result: Result<Self, InstallableWadError>)
        ensures
            final(stream).same_content(old(stream)),
            ({
                let bytes = old(stream).bytes();
                let pos = old(stream).pos() as int;
                if pos + 2 > bytes.len() {
                    result == Err::<Self, InstallableWadError>(
                        InstallableWadError::IoError(StreamError::UnexpectedEof),
                    )
                } else {
                    match Self::spec_new(bytes[pos], bytes[pos + 1]) {
                        Some(kind) => {
                            &&& result == Ok::<Self, InstallableWadError>(kind)
                            &&& final(stream).pos() == pos + 2
                        },
                        None => {
                            &&& result is Err
                            &&& result->Err_0 is UnknownInstallableWadTypeError
                            &&& result->Err_0->UnknownInstallableWadTypeError_0@
                                == bytes.subrange(pos, pos + 2)
                        },
                    }
                }
            }),
    {
        let bytes = match stream.read_array::<2>() {
            Ok(value) => value,
            Err(error) => return Err(InstallableWadError::IoError(error)),
        };
        if bytes[0] == 0x49 && bytes[1] == 0x73 {
            Ok(InstallableWadKind::Normal)
        } else if bytes[0] == 0x69 && bytes[1] == 0x62 {
            Ok(InstallableWadKind::Boot2)
        } else {
            Err(InstallableWadError::UnknownInstallableWadTypeError(bytes))
        }
    }
}

/// A size, brought to the boundary of the sections.
pub open spec fn ceil64(size: int) -> int {
    ceil_align(size, SECTION_BOUNDARY as int)
}

/// The sizes of the first `count` contents, each brought to the boundary,
/// added up.
pub open spec fn spec_aligned_sizes(entries: Seq<TitleMetadataContentEntry>, count: int) -> int
    decreases count,
{
    if count <= 0 {
        0
    } else {
        spec_aligned_sizes(entries, count - 1) + ceil64(entries[count - 1].size as int)
    }
}

/// The sizes of the first `count` contents, added up.
pub open spec fn spec_sizes(entries: Seq<TitleMetadataContentEntry>, count: int) -> int
    decreases count,
{
    if count <= 0 {
        0
    } else {
        spec_sizes(entries, count - 1) + entries[count - 1].size
    }
}

/// The aligned sizes of contents add up to a multiple of the boundary, and
/// more contents do not have less.
pub proof fn lemma_aligned_sizes(entries: Seq<TitleMetadataContentEntry>, count: int)
    requires
        0 <= count <= entries.len(),
    ensures
        spec_aligned_sizes(entries, count) % 64 == 0,
        0 <= spec_aligned_sizes(entries, count),
        spec_sizes(entries, count) <= spec_aligned_sizes(entries, count),
        0 <= spec_sizes(entries, count),
        count < entries.len() ==> spec_aligned_sizes(entries, count) <= spec_aligned_sizes(
            entries,
            count + 1,
        ),
    decreases count,
{
    if count > 0 {
        lemma_aligned_sizes(entries, count - 1);
        let before = spec_aligned_sizes(entries, count - 1);
        let last = ceil64(entries[count - 1].size as int);
        lemma_ceil_align(entries[count - 1].size as int, 64);
        assert((before + last) % 64 == 0) by (nonlinear_arith)
            requires
                before % 64 == 0,
                last % 64 == 0,
        ;
    }
    if count < entries.len() {
        lemma_ceil_align(entries[count].size as int, 64);
    }
}

impl InstallableWad {
    /// The WAD states 32 bytes of header: only such a WAD is read back as it
    /// was written.
    pub open spec fn wf(self) -> bool {
        self.header_size == 32
    }

    /// The offset of the certificate chain: behind the header.
    pub open spec fn spec_certificate_chain_offset(self) -> int {
        HEADER_SIZE as int
    }

    /// The offset of the ticket: behind the certificate chain.
    pub open spec fn spec_ticket_offset(self) -> int {
        HEADER_SIZE + ceil64(self.certificate_chain_size as int)
    }

    /// The offset of the title metadata: behind the ticket.
    pub open spec fn spec_title_metadata_offset(self) -> int {
        self.spec_ticket_offset() + ceil64(self.ticket_size as int)
    }

    /// The offset of the first content: behind the title metadata.
    pub open spec fn spec_contents_offset(self) -> int {
        self.spec_title_metadata_offset() + ceil64(self.title_metadata_size as int)
    }

    /// The offset of the content at `position`: behind the contents before
    /// it.
    pub open spec fn spec_content_offset(
        self,
        entries: Seq<TitleMetadataContentEntry>,
        position: int,
    ) -> int {
        self.spec_contents_offset() + spec_aligned_sizes(entries, position)
    }

    /// The 64 bytes of the header: the size 32, the letters of the kind, the
    /// version 0, the sizes of the sections, and zeros up to the boundary.
    pub open spec fn spec_serialize(self) -> Seq<u8> {
        u32_be_bytes(32) + self.kind.spec_magic() + u16_be_bytes(0) + u32_be_bytes(
            self.certificate_chain_size,
        ) + zeros(4) + self.spec_sizes_bytes() + zeros(32)
    }

    /// The sizes of the ticket, the title metadata, the contents and the
    /// footer, as the header holds them.
    pub open spec fn spec_sizes_bytes(self) -> Seq<u8> {
        u32_be_bytes(self.ticket_size) + u32_be_bytes(self.title_metadata_size) + u32_be_bytes(
            self.content_size,
        ) + u32_be_bytes(self.footer_size)
    }

    /// The WAD whose header stands at `pos` in `bytes`, or why there is
    /// none.
    pub open spec fn spec_parse(bytes: Seq<u8>, pos: int) -> Result<
        InstallableWad,
        InstallableWadError,
    > {
        if pos + 6 > bytes.len() {
            Err(InstallableWadError::IoError(StreamError::UnexpectedEof))
        } else {
            match InstallableWadKind::spec_new(bytes[pos + 4], bytes[pos + 5]) {
                None => Err(
                    InstallableWadError::UnknownInstallableWadTypeError(
                        crate::bytes::array_of::<2>(bytes.subrange(pos + 4, pos + 6)),
                    ),
                ),
                Some(kind) => {
                    if pos + 8 > bytes.len() {
                        Err(InstallableWadError::IoError(StreamError::UnexpectedEof))
                    } else if be_u16_at(bytes, pos + 6) != 0 {
                        Err(InstallableWadError::UnknownFormatVersion(be_u16_at(bytes, pos + 6)))
                    } else if pos + 32 > bytes.len() {
                        Err(InstallableWadError::IoError(StreamError::UnexpectedEof))
                    } else {
                        Ok(
                            InstallableWad {
                                header_size: be_u32_at(bytes, pos),
                                kind,
                                certificate_chain_size: be_u32_at(bytes, pos + 8),
                                ticket_size: be_u32_at(bytes, pos + 16),
                                title_metadata_size: be_u32_at(bytes, pos + 20),
                                content_size: be_u32_at(bytes, pos + 24),
                                footer_size: be_u32_at(bytes, pos + 28),
                            },
                        )
                    }
                },
            }
        }
    }

    /// Every section and every content begins on the boundary.
    pub proof fn lemma_offsets(self, entries: Seq<TitleMetadataContentEntry>, position: int)
        requires
            0 <= position <= entries.len(),
        ensures
            self.spec_certificate_chain_offset() % 64 == 0,
            self.spec_ticket_offset() % 64 == 0,
            self.spec_title_metadata_offset() % 64 == 0,
            self.spec_contents_offset() % 64 == 0,
            self.spec_content_offset(entries, position) % 64 == 0,
            64 <= self.spec_ticket_offset() <= self.spec_title_metadata_offset()
                <= self.spec_contents_offset() <= self.spec_content_offset(entries, position),
            self.spec_contents_offset() <= 64 + 3 * 0x1_0000_0000,
    {
        lemma_ceil_align(self.certificate_chain_size as int, 64);
        lemma_ceil_align(self.ticket_size as int, 64);
        lemma_ceil_align(self.title_metadata_size as int, 64);
        lemma_aligned_sizes(entries, position);
        let a = ceil64(self.certificate_chain_size as int);
        let b = ceil64(self.ticket_size as int);
        let c = ceil64(self.title_metadata_size as int);
        let d = spec_aligned_sizes(entries, position);
        assert((64 + a) % 64 == 0 && (64 + a + b) % 64 == 0 && (64 + a + b + c) % 64 == 0 && (64
            + a + b + c + d) % 64 == 0) by (nonlinear_arith)
            requires
                a % 64 == 0,
                b % 64 == 0,
                c % 64 == 0,
                d % 64 == 0,
        ;
    }

    /// Align a size to the boundary of the sections.
    pub fn align_u64(value: u32) -> (aligned: u64)
        ensures
            aligned == ceil64(value as int),
            value <= aligned < value + 64,
            aligned % 64 == 0,
    {
        proof {
            lemma_ceil_align(value as int, 64);
        }
        align_to_boundary(value as u64, SECTION_BOUNDARY)
    }

    /// Create a new installable Wad representation from the header at the
    /// position of the stream, which is taken for that of an installable
    /// WAD.
    pub fn new(stream: &mut Stream) -> (result: Result<Self, InstallableWadError>)
        requires
            old(stream).wf(),
        ensures
            final(stream).same_content(old(stream)),
            match Self::spec_parse(old(stream).bytes(), old(stream).pos() as int) {
                Ok(wad) => {
                    &&& result == Ok::<Self, InstallableWadError>(wad)
                    &&& final(stream).pos() == old(stream).pos() + 32
                },
                Err(error) => result == Err::<Self, InstallableWadError>(error),
            },
    {
        let header_size = match stream.read_u32_be() {
            Ok(value) => value,
            Err(error) => return Err(InstallableWadError::IoError(error)),
        };
        let kind = match InstallableWadKind::new(stream) {
            Ok(value) => value,
            Err(error) => {
                proof {
                    if let InstallableWadError::UnknownInstallableWadTypeError(found) = error {
                        crate::bytes::lemma_array_of_view::<2>(found);
                    }
                }
                return Err(error);
            },
        };
        let format_version = match stream.read_u16_be() {
            Ok(value) => value,
            Err(error) => return Err(InstallableWadError::IoError(error)),
        };
        if format_version != 0 {
            return Err(InstallableWadError::UnknownFormatVersion(format_version));
        }
        let certificate_chain_size = match stream.read_u32_be() {
            Ok(value) => value,
            Err(error) => return Err(InstallableWadError::IoError(error)),
        };
        // Four reserved bytes.
        match stream.skip(4) {
            Ok(()) => {},
            Err(error) => return Err(InstallableWadError::IoError(error)),
        }
        let ticket_size = match stream.read_u32_be() {
            Ok(value) => value,
            Err(error) => return Err(InstallableWadError::IoError(error)),
        };
        let title_metadata_size = match stream.read_u32_be() {
            Ok(value) => value,
            Err(error) => return Err(InstallableWadError::IoError(error)),
        };
        let content_size = match stream.read_u32_be() {
            Ok(value) => value,
            Err(error) => return Err(InstallableWadError::IoError(error)),
        };
        let footer_size = match stream.read_u32_be() {
            Ok(value) => value,
            Err(error) => return Err(InstallableWadError::IoError(error)),
        };
        Ok(
            InstallableWad {
                header_size,
                kind,
                certificate_chain_size,
                ticket_size,
                title_metadata_size,
                content_size,
                footer_size,
            },
        )
    }

    /// Append the 64 bytes of the header.
    pub fn serialize_into(&self, out: &mut Vec<u8>)
        ensures
            final(out)@ == old(out)@ + self.spec_serialize(),
            self.spec_serialize().len() == 64,
    {
        let mut header: Vec<u8> = Vec::new();
        push_u32_be(&mut header, 32);
        match self.kind {
            InstallableWadKind::Normal => {
                push_u8(&mut header, 0x49);
                push_u8(&mut header, 0x73);
            },
            InstallableWadKind::Boot2 => {
                push_u8(&mut header, 0x69);
                push_u8(&mut header, 0x62);
            },
        }
        assert(header@ =~= u32_be_bytes(32) + self.kind.spec_magic());
        push_u16_be(&mut header, 0);
        push_u32_be(&mut header, self.certificate_chain_size);
        push_zeros(&mut header, 4);
        let mut sizes: Vec<u8> = Vec::new();
        push_u32_be(&mut sizes, self.ticket_size);
        push_u32_be(&mut sizes, self.title_metadata_size);
        push_u32_be(&mut sizes, self.content_size);
        push_u32_be(&mut sizes, self.footer_size);
        assert(sizes@ == self.spec_sizes_bytes());
        crate::bytes::push_bytes(&mut header, sizes.as_slice());
        push_zeros(&mut header, 32);
        assert(header@ == self.spec_serialize());
        assert(header@.len() == 64);
        crate::bytes::push_bytes(out, header.as_slice());
    }

    /// Dump the header into a stream, at its position.
    pub fn dump(&self, stream: &mut Stream) -> (result: Result<(), StreamError>)
        requires
            old(stream).wf(),
        ensures
            final(stream).wf(),
            wrote_all(*old(stream), *final(stream), self.spec_serialize(), result),
            match old(stream).state().write_all(self.spec_serialize()) {
                Ok(state) => result is Ok && final(stream).state() == state,
                Err(error) => result == Err::<(), StreamError>(error),
            },
            result is Ok ==> (final(stream).pos() - old(stream).pos()) % 64 == 0,
    {
        let mut bytes: Vec<u8> = Vec::new();
        self.serialize_into(&mut bytes);
        assert(bytes@ =~= self.spec_serialize());
        stream.write_all(bytes.as_slice())
    }
}

/// The bytes of a section: its image, and zeros up to the boundary.
pub open spec fn spec_section_bytes(image: Seq<u8>) -> Seq<u8> {
    image + zeros(ceil64(image.len() as int) - image.len())
}

/// The bytes of a content as far as the stream holds them: `size` bytes from
/// `offset` on, or fewer where the stream ends before.
pub open spec fn spec_stored_content(bytes: Seq<u8>, offset: int, size: int) -> Seq<u8> {
    if offset >= bytes.len() || size <= 0 {
        Seq::empty()
    } else if offset + size <= bytes.len() {
        bytes.subrange(offset, offset + size)
    } else {
        bytes.subrange(offset, bytes.len() as int)
    }
}

/// The contents that were read from a WAD to be written back, and the
/// physical position of the first of them.
#[derive(Debug, Clone, PartialEq, Eq)]
pub struct ContentsStore {
    /// The bytes of the contents, encrypted as they were.
    pub contents: Vec<Vec<u8>>,
    /// The physical position of the first content.
    pub first_content_physical_position: usize,
}

/// What the contents of a store hold, in their order.
pub open spec fn contents_view(contents: Seq<Vec<u8>>) -> Seq<Seq<u8>> {
    Seq::new(contents.len(), |i: int| contents[i]@)
}

/// The state after the contents from `done` on were written one behind the
/// other from the position on, each followed by zeros up to the boundary; or
/// the error where the stream does not take one.
pub open spec fn spec_restore(state: StreamState, contents: Seq<Seq<u8>>, done: int) -> Result<
    StreamState,
    StreamError,
>
    decreases contents.len() - done,
{
    if done < 0 || done >= contents.len() {
        Ok(state)
    } else {
        match state.write_all(spec_section_bytes(contents[done])) {
            Err(error) => Err(error),
            Ok(next) => spec_restore(next, contents, done + 1),
        }
    }
}

impl InstallableWad {
    /// Whether the offsets of all contents fit 64 bits.
    pub open spec fn spec_layout_fits(self, entries: Seq<TitleMetadataContentEntry>) -> bool {
        self.spec_content_offset(entries, entries.len() as int) <= u64::MAX
    }

    /// The contents from the physical position `first` on, as far as the
    /// stream holds them.
    pub open spec fn spec_store(
        self,
        bytes: Seq<u8>,
        entries: Seq<TitleMetadataContentEntry>,
        first: int,
    ) -> Seq<Seq<u8>> {
        Seq::new(
            if first < entries.len() {
                (entries.len() - first) as nat
            } else {
                0nat
            },
            |k: int|
                spec_stored_content(
                    bytes,
                    self.spec_content_offset(entries, first + k),
                    entries[first + k].size as int,
                ),
        )
    }

    /// The state after a section with the given image was written at
    /// `offset`, with zeros up to the boundary.
    pub open spec fn spec_write_section(state: StreamState, offset: int, image: Seq<u8>) -> Result<
        StreamState,
        StreamError,
    > {
        state.at(offset).write_all(spec_section_bytes(image))
    }

    /// The state after the header of the WAD was written at the start.
    pub open spec fn spec_write_header(self, state: StreamState) -> Result<
        StreamState,
        StreamError,
    > {
        state.at(0).write_all(self.spec_serialize())
    }

    /// The state after a section was written at `offset` and then the
    /// header of the WAD, which holds the new size of the section, at the
    /// start. What follows the section is left as it is.
    pub open spec fn spec_write_raw(self, state: StreamState, offset: int, image: Seq<u8>) -> Result<
        StreamState,
        StreamError,
    > {
        match Self::spec_write_section(state, offset, image) {
            Err(error) => Err(error),
            Ok(written) => self.spec_write_header(written),
        }
    }

    /// The state after the contents of a store were written back from the
    /// offset of the first of them on, which is taken from the sizes of the
    /// WAD and the entries as they are now. Without contents nothing is
    /// done.
    pub open spec fn spec_restore_contents(
        self,
        state: StreamState,
        entries: Seq<TitleMetadataContentEntry>,
        first: int,
        contents: Seq<Seq<u8>>,
    ) -> Result<StreamState, StreamError> {
        if contents.len() == 0 {
            Ok(state)
        } else if first > entries.len() || self.spec_content_offset(entries, first) > u64::MAX {
            Err(StreamError::InvalidSeek)
        } else {
            spec_restore(state.at(self.spec_content_offset(entries, first)), contents, 0)
        }
    }

    /// The offset of the content at `position`, where it fits 64 bits.
    pub fn content_offset(&self, title_metadata: &TitleMetadata, position: usize) -> (offset:
        Option<u64>)
        requires
            position <= title_metadata.content_chunk_entries@.len(),
        ensures
            match offset {
                Some(offset) => offset == self.spec_content_offset(
                    title_metadata.content_chunk_entries@,
                    position as int,
                ),
                None => self.spec_content_offset(
                    title_metadata.content_chunk_entries@,
                    position as int,
                ) > u64::MAX,
            },
    {
        let ghost entries = title_metadata.content_chunk_entries@;
        let mut content_offset: u64 = HEADER_SIZE + Self::align_u64(self.certificate_chain_size)
            + Self::align_u64(self.ticket_size) + Self::align_u64(self.title_metadata_size);
        let mut i: usize = 0;
        while i < position
            invariant
                i <= position <= entries.len(),
                entries == title_metadata.content_chunk_entries@,
                content_offset == self.spec_content_offset(entries, i as int),
            decreases position - i,
        {
            let size = title_metadata.content_chunk_entries[i].size;
            proof {
                lemma_ceil_align(size as int, 64);
                lemma_aligned_sizes(entries, i as int);
                lemma_aligned_sizes_grow(entries, i as int + 1, position as int);
            }
            if size > u64::MAX - 63 {
                return None;
            }
            let aligned = align_to_boundary(size, SECTION_BOUNDARY);
            if aligned > u64::MAX - content_offset {
                return None;
            }
            content_offset = content_offset + aligned;
            i += 1;
        }
        Some(content_offset)
    }

    /// Write a section with the given image at `offset`, with zeros up to
    /// the boundary.
    pub fn write_section(stream: &mut Stream, offset: u64, image: &Vec<u8>) -> (result: Result<
        (),
        StreamError,
    >)
        requires
            old(stream).wf(),
        ensures
            final(stream).wf(),
            match Self::spec_write_section(old(stream).state(), offset as int, image@) {
                Ok(state) => result is Ok && final(stream).state() == state,
                Err(error) => result == Err::<(), StreamError>(error),
            },
    {
        let len = image.len() as u64;
        proof {
            lemma_ceil_align(len as int, 64);
        }
        if len > u64::MAX - 63 {
            // No stream takes that many bytes.
            stream.seek_to(offset);
            let mut section: Vec<u8> = Vec::new();
            crate::bytes::push_bytes(&mut section, image.as_slice());
            return Self::refuse(stream, len);
        }
        let padding = align_to_boundary(len, SECTION_BOUNDARY) - len;
        let mut section: Vec<u8> = Vec::new();
        crate::bytes::push_bytes(&mut section, image.as_slice());
        push_zeros(&mut section, padding as usize);
        assert(section@ =~= spec_section_bytes(image@));
        stream.seek_to(offset);
        stream.write_all(section.as_slice())
    }

    /// The error of a stream that does not take `count` bytes, which are
    /// more than a stream can hold.
    fn refuse(stream: &Stream, count: u64) -> (result: Result<(), StreamError>)
        requires
            stream.wf(),
            count > u64::MAX - 63,
        ensures
            result == Err::<(), StreamError>(stream.state().refusal()),
            forall|more: int| more >= count ==> !stream.state().takes(more),
    {
        if stream.is_growable() {
            Err(StreamError::InvalidInput)
        } else {
            let _len = stream.len();
            Err(StreamError::WriteZero)
        }
    }

    /// Read the contents from the physical position `first` on, encrypted
    /// as they are, as far as the stream holds them. Without such contents
    /// there is no store. Offsets that do not fit 64 bits are refused.
    pub fn store_contents(
        &self,
        stream: &mut Stream,
        title_metadata: &TitleMetadata,
        first_content_physical_position: usize,
    ) -> (result: Result<Option<ContentsStore>, InstallableWadError>)
        requires
            old(stream).wf(),
        ensures
            final(stream).same_content(old(stream)),
            ({
                let entries = title_metadata.content_chunk_entries@;
                let first = first_content_physical_position as int;
                if first >= entries.len() {
                    result == Ok::<Option<ContentsStore>, InstallableWadError>(None)
                } else if !self.spec_layout_fits(entries) {
                    result == Err::<Option<ContentsStore>, InstallableWadError>(
                        InstallableWadError::IoError(StreamError::InvalidSeek),
                    )
                } else {
                    &&& result is Ok
                    &&& result->Ok_0 is Some
                    &&& result->Ok_0->Some_0.first_content_physical_position == first
                    &&& contents_view(result->Ok_0->Some_0.contents@) == self.spec_store(
                        old(stream).bytes(),
                        entries,
                        first,
                    )
                }
            }),
    {
        let number_of_entries = title_metadata.content_chunk_entries.len();
        if first_content_physical_position >= number_of_entries {
            return Ok(None);
        }
        let ghost entries = title_metadata.content_chunk_entries@;
        let ghost bytes = stream.bytes();
        match self.content_offset(title_metadata, number_of_entries) {
            Some(_) => {},
            None => return Err(InstallableWadError::IoError(StreamError::InvalidSeek)),
        }
        let mut all_contents_bytes: Vec<Vec<u8>> = Vec::new();
        let mut i: usize = first_content_physical_position;
        while i < number_of_entries
            invariant
                first_content_physical_position <= i <= number_of_entries,
                number_of_entries == entries.len(),
                entries == title_metadata.content_chunk_entries@,
                self.spec_layout_fits(entries),
                stream.same_content(old(stream)),
                bytes == old(stream).bytes(),
                all_contents_bytes@.len() == i - first_content_physical_position,
                forall|k: int|
                    0 <= k < all_contents_bytes@.len() ==> (#[trigger] all_contents_bytes@[k])@
                        == spec_stored_content(
                        bytes,
                        self.spec_content_offset(entries, first_content_physical_position + k),
                        entries[first_content_physical_position + k].size as int,
                    ),
            decreases number_of_entries - i,
        {
            proof {
                lemma_aligned_sizes_grow(entries, i as int, number_of_entries as int);
            }
            let offset = match self.content_offset(title_metadata, i) {
                Some(offset) => offset,
                None => return Err(InstallableWadError::IoError(StreamError::InvalidSeek)),
            };
            let size = title_metadata.content_chunk_entries[i].size;
            let content_bytes = Self::read_content(stream, offset, size);
            all_contents_bytes.push(content_bytes);
            i += 1;
        }
        assert(contents_view(all_contents_bytes@) =~= self.spec_store(
            bytes,
            entries,
            first_content_physical_position as int,
        ));
        Ok(
            Some(
                ContentsStore {
                    contents: all_contents_bytes,
                    first_content_physical_position,
                },
            ),
        )
    }

    /// Read `size` bytes from `offset` on, or fewer where the stream ends
    /// before.
    fn read_content(stream: &mut Stream, offset: u64, size: u64) -> (content: Vec<u8>)
        ensures
            final(stream).same_content(old(stream)),
            content@ == spec_stored_content(old(stream).bytes(), offset as int, size as int),
    {
        let len = stream.len();
        if offset >= len || size == 0 {
            return Vec::new();
        }
        let available = len - offset;
        let count = if size <= available {
            size
        } else {
            available
        };
        stream.seek_to(offset);
        match stream.read_vec(count as usize) {
            Ok(content) => content,
            Err(_) => Vec::new(),
        }
    }

    /// Write the contents of a store back, one behind the other from the
    /// offset of the first of them on, each followed by zeros up to the
    /// boundary. Without a store, or without contents in it, nothing is
    /// done.
    #[verifier::loop_isolation(false)]
    pub fn restore_contents(
        &self,
        stream: &mut Stream,
        title_metadata: &TitleMetadata,
        contents_store: &Option<ContentsStore>,
    ) -> (result: Result<(), InstallableWadError>)
        requires
            old(stream).wf(),
        ensures
            final(stream).wf(),
            match contents_store {
                None => result is Ok && final(stream).state() == old(stream).state(),
                Some(store) => match self.spec_restore_contents(
                    old(stream).state(),
                    title_metadata.content_chunk_entries@,
                    store.first_content_physical_position as int,
                    contents_view(store.contents@),
                ) {
                    Ok(state) => result is Ok && final(stream).state() == state,
                    Err(error) => result == Err::<(), InstallableWadError>(
                        InstallableWadError::IoError(error),
                    ),
                },
            },
    {
        let store = match contents_store {
            Some(store) => store,
            None => return Ok(()),
        };
        if store.contents.len() == 0 {
            return Ok(());
        }
        let first = store.first_content_physical_position;
        if first > title_metadata.content_chunk_entries.len() {
            return Err(InstallableWadError::IoError(StreamError::InvalidSeek));
        }
        let offset = match self.content_offset(title_metadata, first) {
            Some(offset) => offset,
            None => return Err(InstallableWadError::IoError(StreamError::InvalidSeek)),
        };
        stream.seek_to(offset);
        let ghost contents = contents_view(store.contents@);
        let ghost start = stream.state();
        let mut i: usize = 0;
        while i < store.contents.len()
            invariant
                i <= store.contents@.len(),
                contents == contents_view(store.contents@),
                stream.wf(),
                spec_restore(start, contents, 0) == spec_restore(stream.state(), contents, i as int),
            decreases store.contents@.len() - i,
        {
            let ghost here = stream.state();
            assert(contents[i as int] == store.contents@[i as int]@);
            assert(spec_restore(here, contents, i as int) == match here.write_all(
                spec_section_bytes(contents[i as int]),
            ) {
                Err(error) => Err::<StreamState, StreamError>(error),
                Ok(next) => spec_restore(next, contents, i as int + 1),
            });
            let position = stream.stream_position();
            match Self::write_section(stream, position, &store.contents[i]) {
                Ok(()) => {},
                Err(error) => return Err(InstallableWadError::IoError(error)),
            }
            i += 1;
        }
        Ok(())
    }
}

/// The aligned sizes of more contents are no less.
pub proof fn lemma_aligned_sizes_grow(
    entries: Seq<TitleMetadataContentEntry>,
    count: int,
    more: int,
)
    requires
        0 <= count <= more <= entries.len(),
    ensures
        spec_aligned_sizes(entries, count) <= spec_aligned_sizes(entries, more),
    decreases more - count,
{
    if count < more {
        lemma_aligned_sizes_grow(entries, count, more - 1);
        lemma_ceil_align(entries[more - 1].size as int, 64);
    }
}

/// What cutting a stream behind `size` bytes leaves of the state that a
/// write left, and what it returns: a size that does not fit 64 bits is
/// refused, and the stream is then left as the write left it.
pub open spec fn trimmed(
    written: StreamState,
    size: int,
    trimmed: StreamState,
    result: Result<(), InstallableWadError>,
) -> bool {
    &&& trimmed.pos == written.pos
    &&& trimmed.growable == written.growable
    &&& if size > u64::MAX {
        &&& result == Err::<(), InstallableWadError>(
            InstallableWadError::IoError(StreamError::InvalidSeek),
        )
        &&& trimmed.bytes == written.bytes
    } else {
        &&& result is Ok
        &&& trimmed.bytes == if size < written.bytes.len() {
            written.bytes.subrange(0, size)
        } else {
            written.bytes
        }
    }
}

/// The three sections of an installable WAD that hold a manifest.
#[derive(Debug, Clone, Copy, PartialEq, Eq, Structural)]
pub enum WadSection {
    /// The certificate chain.
    CertificateChain,
    /// The ticket.
    Ticket,
    /// The title metadata.
    TitleMetadata,
}

impl InstallableWad {
    /// The offset of a section.
    pub open spec fn spec_section_offset(self, section: WadSection) -> int {
        match section {
            WadSection::CertificateChain => self.spec_certificate_chain_offset(),
            WadSection::Ticket => self.spec_ticket_offset(),
            WadSection::TitleMetadata => self.spec_title_metadata_offset(),
        }
    }

    /// The WAD with another size of a section.
    pub open spec fn spec_with_section_size(self, section: WadSection, size: u32) -> InstallableWad {
        match section {
            WadSection::CertificateChain => InstallableWad { certificate_chain_size: size, ..self },
            WadSection::Ticket => InstallableWad { ticket_size: size, ..self },
            WadSection::TitleMetadata => InstallableWad { title_metadata_size: size, ..self },
        }
    }

    /// What a raw write of a section leaves: the image of the manifest at
    /// the offset of the section, with zeros up to the boundary; the header
    /// with the new size of the section; and everything else as it was. The
    /// sections behind may so be overwritten or left where they no longer
    /// belong.
    pub open spec fn spec_raw(self, state: StreamState, section: WadSection, image: Seq<u8>) -> Result<
        (StreamState, InstallableWad),
        StreamError,
    > {
        let wad = self.spec_with_section_size(section, image.len() as u32);
        match wad.spec_write_raw(state, self.spec_section_offset(section), image) {
            Err(error) => Err(error),
            Ok(written) => Ok((written, wad)),
        }
    }

    /// The offset of a section.
    pub fn section_offset(&self, section: WadSection) -> (offset: u64)
        ensures
            offset == self.spec_section_offset(section),
            offset % 64 == 0,
    {
        proof {
            self.lemma_offsets(Seq::empty(), 0);
        }
        match section {
            WadSection::CertificateChain => HEADER_SIZE,
            WadSection::Ticket => HEADER_SIZE + Self::align_u64(self.certificate_chain_size),
            WadSection::TitleMetadata => HEADER_SIZE + Self::align_u64(self.certificate_chain_size)
                + Self::align_u64(self.ticket_size),
        }
    }

    /// Write the image of a manifest over its section, and the header with
    /// the new size of the section. The WAD takes the new size where both
    /// were written.
    pub fn write_raw(&mut self, stream: &mut Stream, section: WadSection, image: &Vec<u8>) -> (result:
        Result<(), StreamError>)
        requires
            old(stream).wf(),
            image@.len() <= u32::MAX,
        ensures
            final(stream).wf(),
            match old(self).spec_raw(old(stream).state(), section, image@) {
                Ok((state, wad)) => {
                    &&& result is Ok
                    &&& final(stream).state() == state
                    &&& *final(self) == wad
                },
                Err(error) => {
                    &&& result == Err::<(), StreamError>(error)
                    &&& *final(self) == *old(self)
                },
            },
    {
        let offset = self.section_offset(section);
        let size = image.len() as u32;
        let wad = match section {
            WadSection::CertificateChain => InstallableWad { certificate_chain_size: size, ..*self },
            WadSection::Ticket => InstallableWad { ticket_size: size, ..*self },
            WadSection::TitleMetadata => InstallableWad { title_metadata_size: size, ..*self },
        };
        match Self::write_section(stream, offset, image) {
            Ok(()) => {},
            Err(error) => return Err(error),
        }
        stream.rewind();
        match wad.dump(stream) {
            Ok(()) => {},
            Err(error) => return Err(error),
        }
        *self = wad;
        Ok(())
    }

    /// The contents that a safe write keeps: all of them, as far as the
    /// stream holds them, or the error where their offsets do not fit 64
    /// bits.
    pub open spec fn spec_kept(self, bytes: Seq<u8>, entries: Seq<TitleMetadataContentEntry>) -> Result<
        Seq<Seq<u8>>,
        InstallableWadError,
    > {
        if entries.len() == 0 {
            Ok(Seq::empty())
        } else if !self.spec_layout_fits(entries) {
            Err(InstallableWadError::IoError(StreamError::InvalidSeek))
        } else {
            Ok(self.spec_store(bytes, entries, 0))
        }
    }

    /// The state behind a safe write once the sections are written: the
    /// contents that were kept stand at their new offsets.
    pub open spec fn spec_put_back(
        self,
        state: StreamState,
        entries: Seq<TitleMetadataContentEntry>,
        kept: Seq<Seq<u8>>,
    ) -> Result<(StreamState, InstallableWad), InstallableWadError> {
        match self.spec_restore_contents(state, entries, 0, kept) {
            Err(error) => Err(InstallableWadError::IoError(error)),
            Ok(restored) => Ok((restored, self)),
        }
    }

    /// The size that a file with the WAD has: up to the end of the last
    /// content, brought to the boundary.
    pub open spec fn spec_logical_size(self, entries: Seq<TitleMetadataContentEntry>) -> int {
        self.spec_content_offset(entries, entries.len() as int)
    }

    /// Cut the stream behind the last content. Offsets that do not fit 64
    /// bits are refused.
    pub fn trim(&self, stream: &mut Stream, title_metadata: &TitleMetadata) -> (result: Result<
        (),
        InstallableWadError,
    >)
        requires
            old(stream).wf(),
        ensures
            final(stream).wf(),
            final(stream).growable() == old(stream).growable(),
            final(stream).pos() == old(stream).pos(),
            ({
                let size = self.spec_logical_size(title_metadata.content_chunk_entries@);
                if size > u64::MAX {
                    &&& result == Err::<(), InstallableWadError>(
                        InstallableWadError::IoError(StreamError::InvalidSeek),
                    )
                    &&& final(stream).bytes() == old(stream).bytes()
                } else {
                    &&& result is Ok
                    &&& final(stream).bytes() == if size < old(stream).size() {
                        old(stream).bytes().subrange(0, size)
                    } else {
                        old(stream).bytes()
                    }
                }
            }),
    {
        let count = title_metadata.content_chunk_entries.len();
        match self.content_offset(title_metadata, count) {
            Some(size) => {
                stream.truncate(size);
                Ok(())
            },
            None => Err(InstallableWadError::IoError(StreamError::InvalidSeek)),
        }
    }
}

impl InstallableWad {
    /// A well-formed header is read back from its bytes, wherever they
    /// stand and whatever follows them; so writing what was read from the
    /// bytes of a header gives those bytes again.
    pub proof fn lemma_parse_serialize(self, bytes: Seq<u8>, pos: int)
        requires
            self.wf(),
            0 <= pos,
            pos + 64 <= bytes.len(),
            bytes.subrange(pos, pos + 64) == self.spec_serialize(),
        ensures
            Self::spec_parse(bytes, pos) == Ok::<InstallableWad, InstallableWadError>(self),
            self.spec_serialize().len() == 64,
            Self::spec_parse(bytes, pos).unwrap().spec_serialize() == bytes.subrange(pos, pos + 64),
    {
        let image = self.spec_serialize();
        let size = u32_be_bytes(32);
        let magic = self.kind.spec_magic();
        let version = u16_be_bytes(0);
        let chain = u32_be_bytes(self.certificate_chain_size);
        let front = size + magic + version + chain;
        let sizes = self.spec_sizes_bytes();
        crate::bytes::lemma_parts_of_concat4(size, magic, version, chain);
        crate::bytes::lemma_parts_of_concat4(front, zeros(4), sizes, zeros(32));
        assert(image == front + zeros(4) + sizes + zeros(32));
        crate::bytes::lemma_embedded_part(bytes, pos, image, 0, 12);
        crate::bytes::lemma_embedded_part(bytes, pos, image, 16, 16);
        assert(image.subrange(0, 12) == front);
        crate::bytes::lemma_embedded_part(bytes, pos, front, 0, 4);
        crate::bytes::lemma_embedded_part(bytes, pos, front, 4, 2);
        crate::bytes::lemma_embedded_part(bytes, pos, front, 6, 2);
        crate::bytes::lemma_embedded_part(bytes, pos, front, 8, 4);
        crate::bytes::lemma_embedded_byte(bytes, pos + 4, magic, 0);
        crate::bytes::lemma_embedded_byte(bytes, pos + 4, magic, 1);
        crate::bytes::lemma_be_u32_round_trip(bytes, pos, 32);
        crate::bytes::lemma_be_u16_round_trip(bytes, pos + 6, 0);
        crate::bytes::lemma_be_u32_round_trip(bytes, pos + 8, self.certificate_chain_size);
        crate::bytes::lemma_parts_of_concat4(
            u32_be_bytes(self.ticket_size),
            u32_be_bytes(self.title_metadata_size),
            u32_be_bytes(self.content_size),
            u32_be_bytes(self.footer_size),
        );
        crate::bytes::lemma_embedded_part(bytes, pos + 16, sizes, 0, 4);
        crate::bytes::lemma_embedded_part(bytes, pos + 16, sizes, 4, 4);
        crate::bytes::lemma_embedded_part(bytes, pos + 16, sizes, 8, 4);
        crate::bytes::lemma_embedded_part(bytes, pos + 16, sizes, 12, 4);
        crate::bytes::lemma_be_u32_round_trip(bytes, pos + 16, self.ticket_size);
        crate::bytes::lemma_be_u32_round_trip(bytes, pos + 20, self.title_metadata_size);
        crate::bytes::lemma_be_u32_round_trip(bytes, pos + 24, self.content_size);
        crate::bytes::lemma_be_u32_round_trip(bytes, pos + 28, self.footer_size);
    }
}

/// A section ends on the boundary: its bytes are a multiple of 64, and as
/// many as the size of its image, brought to the boundary.
pub proof fn lemma_section_bytes(image: Seq<u8>)
    ensures
        spec_section_bytes(image).len() == ceil64(image.len() as int),
        spec_section_bytes(image).len() % 64 == 0,
        spec_section_bytes(image).subrange(0, image.len() as int) == image,
{
    lemma_ceil_align(image.len() as int, 64);
    crate::bytes::lemma_parts_of_concat(image, zeros(ceil64(image.len() as int) - image.len()));
}

/// A stream that stands on the boundary and takes a section stands on the
/// boundary behind it.
pub proof fn lemma_section_ends_on_boundary(state: StreamState, offset: int, image: Seq<u8>)
    requires
        0 <= offset,
        offset % 64 == 0,
        InstallableWad::spec_write_section(state, offset, image) is Ok,
    ensures
        InstallableWad::spec_write_section(state, offset, image).unwrap().pos % 64 == 0,
        InstallableWad::spec_write_section(state, offset, image).unwrap().pos == offset + ceil64(
            image.len() as int,
        ),
{
    lemma_section_bytes(image);
    let len = spec_section_bytes(image).len() as int;
    assert((offset + len) % 64 == 0) by (nonlinear_arith)
        requires
            offset % 64 == 0,
            len % 64 == 0,
    ;
}

} // verus!
