//! The title metadata (`TMD`) of the consoles before the Nintendo Switch.

use vstd::prelude::*;
use crate::bytes::{
    array_of, array_of_seq, be_u16_at, be_u32_at, be_u64_at, le_u32_at, push_bytes, push_u16_be,
    push_u32_be, push_u32_le, push_u64_be, push_u8, push_zeros, u16_be_bytes, u32_be_bytes,
    u32_le_bytes, u64_be_bytes, zeros,
};
use crate::extensions::{bool_of_byte, byte_of_bool, wrote_all, ReadEx, Utf8Error};
use crate::signed_blob_header::{SignedBlobHeader, SignedBlobHeaderError, SignedBlobHeaderView};
use crate::stream::{Stream, StreamError};
use crate::title_id::TitleId;
use crate::title_metadata::content_selector::{ContentSelector, ContentSelectorMethod};

pub mod content_selector;

verus! {

broadcast use vstd::array::group_array_axioms;

/// The number of content entries groups of a V1 title metadata.
pub const NUMBER_OF_GROUPS: usize = 64;

/// The size of the V1 extension: the hash of the groups and the groups.
pub const V1_SIZE: u32 = 2336;

/// The most content entries that the 16 bits of their count allow.
pub const MAX_CONTENT_ENTRIES: usize = 0xFFFF;

/// Manifest data regard the title itself, its structure and allowed system
/// access (also known as `TMD` data).
///
/// Compatible with both versions zero (V0) and one (V1), present on the
/// Nintendo Wii, Wii U, DSi and 3DS.
#[derive(Debug, Clone, PartialEq, Eq)]
pub struct TitleMetadata {
    /// Header with data to prove the authenticity that this data
    /// has being created by an authorized entity.
    pub signed_blob_header: SignedBlobHeader,
    /// Version of the certificate revocation list used for the Certificate
    /// Authority (CA) certificate.
    pub certificate_authority_certificate_revocation_list_version: u8,
    /// Version of the certificate revocation list used for the signer
    /// certificate.
    pub signer_certificate_revocation_list_version: u8,
    /// Title ID of the title used as "System runtime"; `None` where the title
    /// has none.
    pub system_runtime_title_id: Option<TitleId>,
    /// Title ID of the title.
    pub title_id: TitleId,
    /// Group ID of the title.
    pub group_id: u16,
    /// Bitflags of access right to the hardware, its meaning depends on the
    /// platform.
    pub access_rights: u32,
    /// The version of the title.
    pub title_version: u16,
    /// The index value of the content entry where the boot data is located.
    pub boot_content_index: u16,
    /// Platform dependant data.
    pub platform_data: TitleMetadataPlatformData,
    /// Extra data only present on the v1 version of a title metadata.
    pub version_1_extension: Option<TitleMetadataV1>,
    /// Entries to the different content chunks.
    pub content_chunk_entries: Vec<TitleMetadataContentEntry>,
}

/// What a `TitleMetadata` holds.
pub struct TitleMetadataView {
    /// The signed blob header.
    pub signed_blob_header: SignedBlobHeaderView,
    /// Version of the revocation list of the certificate authority.
    pub certificate_authority_certificate_revocation_list_version: u8,
    /// Version of the revocation list of the signer.
    pub signer_certificate_revocation_list_version: u8,
    /// Title ID of the system runtime.
    pub system_runtime_title_id: Option<TitleId>,
    /// Title ID of the title.
    pub title_id: TitleId,
    /// Group ID of the title.
    pub group_id: u16,
    /// Access rights to the hardware.
    pub access_rights: u32,
    /// The version of the title.
    pub title_version: u16,
    /// The index of the content with the boot data.
    pub boot_content_index: u16,
    /// Platform dependant data.
    pub platform_data: TitleMetadataPlatformData,
    /// The V1 extension.
    pub version_1_extension: Option<TitleMetadataV1>,
    /// The content entries.
    pub content_chunk_entries: Seq<TitleMetadataContentEntry>,
}

/// Why a title metadata could not be read or used.
#[derive(Debug, Clone, Copy, PartialEq, Eq, Structural)]
pub enum TitleMetadataError {
    /// The stream failed.
    IoError(StreamError),
    /// The signed blob header could not be read.
    SignedBlobHeaderError(SignedBlobHeaderError),
    /// Text is not UTF-8.
    FromUtf8Error(Utf8Error),
    /// The flag for titles of the vWii is neither 0 nor 1.
    InvalidIsVWiiValue(u8),
    /// The platform is none of the four known ones.
    UnknownPlatform(u32),
    /// The region of a Wii title is none of the five known ones.
    UnknownWiiRegion(u16),
    /// The kind of a content entry is none of the six known ones.
    UnknownContentEntryKind(u16),
    /// The action is invalid for the platform of the title.
    ActionInvalid(),
    /// The version is neither 0 nor 1.
    IncompatibleVersion(u8),
    /// No content entry is selected.
    ContentNotFound(),
}

/// Data relevant for the platform of the title.
#[derive(Debug, Clone, Copy, PartialEq, Eq)]
pub enum TitleMetadataPlatformData {
    /// The title is for the Nintendo DSi (DSiWare title).
    DSi,
    /// The title is for the Nintendo Wii.
    Wii {
        /// If the title is made to only run on Wii U vWii.
        is_wii_u_vwii_only_title: bool,
        /// The region of the title
        region: TitleMetadataPlatformDataWiiRegion,
        /// The "ratings" of the title.
        ratings: [u8; 16],
        /// The IPC mask of the title.
        ipc_mask: [u8; 12],
    },
    /// The title is for the Nintendo 3DS
    Console3ds {
        /// The size of the public save data section.
        public_save_data_size: u32,
        /// The size of the private save data section.
        private_save_data_size: u32,
        /// The SRL flags of the title.
        srl_flag: u8,
    },
    /// The title is for the Nintendo Wii U
    WiiU,
}

/// The different regions a title can be on a Wii console.
#[derive(Debug, Clone, Copy, PartialEq, Eq, Structural)]
#[allow(missing_docs)]
pub enum TitleMetadataPlatformDataWiiRegion {
    Japan,
    USA,
    Europe,
    RegionFree,
    Korea,
}

/// An entry of a content of a title.
#[derive(Debug, Clone, Copy, PartialEq, Eq)]
pub struct TitleMetadataContentEntry {
    /// The ID of the content. Unique per title.
    pub id: u32,
    /// The index of the content. Unique per title "bundle" (WAD file, disc image, etc).
    pub index: u16,
    /// The kind of the content.
    pub kind: TitleMetadataContentEntryKind,
    /// The size of the content.
    pub size: u64,
    /// The hash of the content.
    pub hash: TitleMetadataContentEntryHashKind,
}

/// The hash of the content.
#[derive(Debug, Clone, Copy, PartialEq, Eq)]
pub enum TitleMetadataContentEntryHashKind {
    /// A SHA-1 hash.
    Version0([u8; 20]),
    /// A SHA-256 hash. On Wii U titles this is a SHA-1 hash padded with zeroes.
    Version1([u8; 32]),
}

/// The kind (behaviour of the content inside the system) of the content.
#[derive(Debug, Clone, Copy, PartialEq, Eq, Structural)]
pub enum TitleMetadataContentEntryKind {
    /// A normal content.
    Normal,
    /// A normal content, present on the Wii U.
    NormalWiiUKind1,
    /// A normal content, present on the Wii U (Stored with a different value in the metadata)
    NormalWiiUKind2,
    /// A normal content, present on the Wii U (Stored with a different value in the metadata)
    NormalWiiUKind3,
    /// A downloadable content for a title.
    Dlc,
    /// A content that can be shared between different title.
    Shared,
}

/// The extra data added by the V1 extension of the title metadata.
#[derive(Debug, Clone, Copy, PartialEq, Eq)]
pub struct TitleMetadataV1 {
    /// The hash of all the contents entries groups stored at [Self::content_entries_groups].
    pub content_entries_groups_hash_sha256: [u8; 32],
    /// A set with all the content entries, with all their data default to zero.
    pub content_entries_groups: [TitleMetadataV1ContentEntriesGroup; 64],
}

/// A group of content entries.
#[derive(Debug, Clone, Copy, PartialEq, Eq)]
pub struct TitleMetadataV1ContentEntriesGroup {
    /// The index of the first content that is inside the group.
    pub first_content_index: u16,
    /// The number of entries that the group has.
    pub content_entries_in_the_group: u16,
    /// The SHA-256 hash of the content entries stored inside the group.
    pub content_entries_group_hash_sha256: [u8; 32],
}

impl TitleMetadataPlatformDataWiiRegion {
    /// The region that an identifier names; none above 4.
    pub open spec fn spec_from_identifier(identifier: u16) -> Option<Self> {
        if identifier == 0 {
            Some(TitleMetadataPlatformDataWiiRegion::Japan)
        } else if identifier == 1 {
            Some(TitleMetadataPlatformDataWiiRegion::USA)
        } else if identifier == 2 {
            Some(TitleMetadataPlatformDataWiiRegion::Europe)
        } else if identifier == 3 {
            Some(TitleMetadataPlatformDataWiiRegion::RegionFree)
        } else if identifier == 4 {
            Some(TitleMetadataPlatformDataWiiRegion::Korea)
        } else {
            None
        }
    }

    /// The identifier of the region.
    pub open spec fn spec_identifier(self) -> u16 {
        match self {
            TitleMetadataPlatformDataWiiRegion::Japan => 0,
            TitleMetadataPlatformDataWiiRegion::USA => 1,
            TitleMetadataPlatformDataWiiRegion::Europe => 2,
            TitleMetadataPlatformDataWiiRegion::RegionFree => 3,
            TitleMetadataPlatformDataWiiRegion::Korea => 4,
        }
    }

    /// The region that an identifier names.
    pub fn from_identifier(identifier: u16) -> (result: Result<Self, TitleMetadataError>)
        ensures
            result == match Self::spec_from_identifier(identifier) {
                Some(region) => Ok::<Self, TitleMetadataError>(region),
                None => Err::<Self, TitleMetadataError>(
                    TitleMetadataError::UnknownWiiRegion(identifier),
                ),
            },
    {
        if identifier == 0 {
            Ok(TitleMetadataPlatformDataWiiRegion::Japan)
        } else if identifier == 1 {
            Ok(TitleMetadataPlatformDataWiiRegion::USA)
        } else if identifier == 2 {
            Ok(TitleMetadataPlatformDataWiiRegion::Europe)
        } else if identifier == 3 {
            Ok(TitleMetadataPlatformDataWiiRegion::RegionFree)
        } else if identifier == 4 {
            Ok(TitleMetadataPlatformDataWiiRegion::Korea)
        } else {
            Err(TitleMetadataError::UnknownWiiRegion(identifier))
        }
    }

    /// Append the identifier of the region.
    pub fn dump_identifier(&self, out: &mut Vec<u8>)
        ensures
            final(out)@ == old(out)@ + u16_be_bytes(self.spec_identifier()),
    {
        push_u16_be(
            out,
            match self {
                TitleMetadataPlatformDataWiiRegion::Japan => 0,
                TitleMetadataPlatformDataWiiRegion::USA => 1,
                TitleMetadataPlatformDataWiiRegion::Europe => 2,
                TitleMetadataPlatformDataWiiRegion::RegionFree => 3,
                TitleMetadataPlatformDataWiiRegion::Korea => 4,
            },
        );
    }
}

impl TitleMetadataPlatformData {
    /// The identifier of the platform.
    pub open spec fn spec_identifier(self) -> u32 {
        match self {
            TitleMetadataPlatformData::DSi => 0,
            TitleMetadataPlatformData::Wii { .. } => 1,
            TitleMetadataPlatformData::Console3ds { .. } => 64,
            TitleMetadataPlatformData::WiiU => 256,
        }
    }

    /// Whether the title is for the Wii.
    pub open spec fn spec_is_wii(self) -> bool {
        self is Wii
    }

    /// The platform that an identifier names, with empty data; none for an
    /// unknown identifier.
    pub open spec fn spec_dummy_from_identifier(identifier: u32) -> Option<Self> {
        if identifier == 0 {
            Some(TitleMetadataPlatformData::DSi)
        } else if identifier == 1 {
            Some(
                TitleMetadataPlatformData::Wii {
                    is_wii_u_vwii_only_title: false,
                    region: TitleMetadataPlatformDataWiiRegion::RegionFree,
                    ratings: array_of::<16>(zeros(16)),
                    ipc_mask: array_of::<12>(zeros(12)),
                },
            )
        } else if identifier == 64 {
            Some(
                TitleMetadataPlatformData::Console3ds {
                    public_save_data_size: 0,
                    private_save_data_size: 0,
                    srl_flag: 0,
                },
            )
        } else if identifier == 256 {
            Some(TitleMetadataPlatformData::WiiU)
        } else {
            None
        }
    }

    /// The byte that stands in front of the title IDs, which holds a flag on
    /// the Wii and nothing elsewhere.
    pub open spec fn spec_flag_byte(self) -> u8 {
        match self {
            TitleMetadataPlatformData::Wii { is_wii_u_vwii_only_title, .. } => byte_of_bool(
                is_wii_u_vwii_only_title,
            ),
            _ => 0,
        }
    }

    /// The 62 bytes that hold the data of the platform.
    pub open spec fn spec_area(self) -> Seq<u8> {
        match self {
            TitleMetadataPlatformData::DSi => zeros(62),
            TitleMetadataPlatformData::WiiU => zeros(62),
            TitleMetadataPlatformData::Console3ds {
                public_save_data_size,
                private_save_data_size,
                srl_flag,
            } => u32_le_bytes(public_save_data_size) + u32_le_bytes(private_save_data_size)
                + zeros(4) + seq![srl_flag] + zeros(49),
            TitleMetadataPlatformData::Wii { region, ratings, ipc_mask, .. } => zeros(2)
                + u16_be_bytes(region.spec_identifier()) + ratings@ + zeros(12) + ipc_mask@
                + zeros(18),
        }
    }

    /// The platform with the given identifier, read from the flag byte and
    /// from the 62 bytes at `at`, or why there is none. The bytes of the
    /// title metadata are looked at up to `len`.
    pub open spec fn spec_parse_area(identifier: u32, flag: bool, bytes: Seq<u8>, at: int) -> Result<
        Self,
        TitleMetadataError,
    > {
        if identifier == 0 {
            Ok(TitleMetadataPlatformData::DSi)
        } else if identifier == 256 {
            Ok(TitleMetadataPlatformData::WiiU)
        } else if identifier == 64 {
            if at + 13 > bytes.len() {
                Err(TitleMetadataError::IoError(StreamError::UnexpectedEof))
            } else {
                Ok(
                    TitleMetadataPlatformData::Console3ds {
                        public_save_data_size: le_u32_at(bytes, at),
                        private_save_data_size: le_u32_at(bytes, at + 4),
                        srl_flag: bytes[at + 12],
                    },
                )
            }
        } else {
            if at + 4 > bytes.len() {
                Err(TitleMetadataError::IoError(StreamError::UnexpectedEof))
            } else {
                match TitleMetadataPlatformDataWiiRegion::spec_from_identifier(
                    be_u16_at(bytes, at + 2),
                ) {
                    None => Err(TitleMetadataError::UnknownWiiRegion(be_u16_at(bytes, at + 2))),
                    Some(region) => {
                        if at + 44 > bytes.len() {
                            Err(TitleMetadataError::IoError(StreamError::UnexpectedEof))
                        } else {
                            Ok(
                                TitleMetadataPlatformData::Wii {
                                    is_wii_u_vwii_only_title: flag,
                                    region,
                                    ratings: array_of::<16>(bytes.subrange(at + 4, at + 20)),
                                    ipc_mask: array_of::<12>(bytes.subrange(at + 32, at + 44)),
                                },
                            )
                        }
                    },
                }
            }
        }
    }

    /// The platform that an identifier names, with empty data.
    pub fn new_dummy_from_identifier(identifier: u32) -> (result: Result<Self, TitleMetadataError>)
        ensures
            result == match Self::spec_dummy_from_identifier(identifier) {
                Some(platform) => Ok::<Self, TitleMetadataError>(platform),
                None => Err::<Self, TitleMetadataError>(
                    TitleMetadataError::UnknownPlatform(identifier),
                ),
            },
    {
        if identifier == 0 {
            Ok(TitleMetadataPlatformData::DSi)
        } else if identifier == 1 {
            let ratings = [0u8; 16];
            let ipc_mask = [0u8; 12];
            proof {
                assert(ratings@ =~= zeros(16));
                assert(ipc_mask@ =~= zeros(12));
                crate::bytes::lemma_array_of_view::<16>(ratings);
                crate::bytes::lemma_array_of_view::<12>(ipc_mask);
            }
            Ok(
                TitleMetadataPlatformData::Wii {
                    is_wii_u_vwii_only_title: false,
                    region: TitleMetadataPlatformDataWiiRegion::RegionFree,
                    ratings,
                    ipc_mask,
                },
            )
        } else if identifier == 64 {
            Ok(
                TitleMetadataPlatformData::Console3ds {
                    public_save_data_size: 0,
                    private_save_data_size: 0,
                    srl_flag: 0,
                },
            )
        } else if identifier == 256 {
            Ok(TitleMetadataPlatformData::WiiU)
        } else {
            Err(TitleMetadataError::UnknownPlatform(identifier))
        }
    }

    /// Append the identifier of the platform.
    pub fn dump_identifier(&self, out: &mut Vec<u8>)
        ensures
            final(out)@ == old(out)@ + u32_be_bytes(self.spec_identifier()),
    {
        push_u32_be(
            out,
            match self {
                TitleMetadataPlatformData::DSi => 0,
                TitleMetadataPlatformData::Wii { .. } => 1,
                TitleMetadataPlatformData::Console3ds { .. } => 64,
                TitleMetadataPlatformData::WiiU => 256,
            },
        );
    }

    /// Append the 62 bytes that hold the data of the platform.
    fn dump_area(&self, out: &mut Vec<u8>)
        ensures
            final(out)@ == old(out)@ + self.spec_area(),
            self.spec_area().len() == 62,
    {
        let ghost before = out@;
        match self {
            TitleMetadataPlatformData::DSi | TitleMetadataPlatformData::WiiU => {
                push_zeros(out, 62);
            },
            TitleMetadataPlatformData::Console3ds {
                public_save_data_size,
                private_save_data_size,
                srl_flag,
            } => {
                push_u32_le(out, *public_save_data_size);
                push_u32_le(out, *private_save_data_size);
                push_zeros(out, 4);
                push_u8(out, *srl_flag);
                push_zeros(out, 49);
            },
            TitleMetadataPlatformData::Wii { region, ratings, ipc_mask, .. } => {
                push_zeros(out, 2);
                region.dump_identifier(out);
                push_bytes(out, ratings.as_slice());
                push_zeros(out, 12);
                push_bytes(out, ipc_mask.as_slice());
                push_zeros(out, 18);
            },
        }
        assert(out@ =~= before + self.spec_area());
    }
}

impl TitleMetadataContentEntryKind {
    /// The kind that an identifier names; none for an unknown identifier.
    pub open spec fn spec_from_identifier(identifier: u16) -> Option<Self> {
        if identifier == 0x0001 {
            Some(TitleMetadataContentEntryKind::Normal)
        } else if identifier == 0x2001 {
            Some(TitleMetadataContentEntryKind::NormalWiiUKind1)
        } else if identifier == 0x2003 {
            Some(TitleMetadataContentEntryKind::NormalWiiUKind2)
        } else if identifier == 0x6003 {
            Some(TitleMetadataContentEntryKind::NormalWiiUKind3)
        } else if identifier == 0x4001 {
            Some(TitleMetadataContentEntryKind::Dlc)
        } else if identifier == 0x8001 {
            Some(TitleMetadataContentEntryKind::Shared)
        } else {
            None
        }
    }

    /// The identifier of the kind.
    pub open spec fn spec_identifier(self) -> u16 {
        match self {
            TitleMetadataContentEntryKind::Normal => 0x0001,
            TitleMetadataContentEntryKind::NormalWiiUKind1 => 0x2001,
            TitleMetadataContentEntryKind::NormalWiiUKind2 => 0x2003,
            TitleMetadataContentEntryKind::NormalWiiUKind3 => 0x6003,
            TitleMetadataContentEntryKind::Dlc => 0x4001,
            TitleMetadataContentEntryKind::Shared => 0x8001,
        }
    }
}

impl TitleMetadataContentEntryHashKind {
    /// The bytes of the hash.
    pub open spec fn spec_bytes(self) -> Seq<u8> {
        match self {
            TitleMetadataContentEntryHashKind::Version0(value) => value@,
            TitleMetadataContentEntryHashKind::Version1(value) => value@,
        }
    }

    /// Whether the hash is the one of a V1 title metadata.
    pub open spec fn spec_is_version_1(self) -> bool {
        self is Version1
    }
}

/// The number of bytes of a content entry, by the version of the title
/// metadata.
pub open spec fn entry_size(version_1: bool) -> int {
    if version_1 {
        48
    } else {
        36
    }
}

impl TitleMetadataContentEntry {
    /// The bytes of the entry: id, index, kind, size and hash.
    pub open spec fn spec_serialize(self) -> Seq<u8> {
        u32_be_bytes(self.id) + u16_be_bytes(self.index) + u16_be_bytes(
            self.kind.spec_identifier(),
        ) + u64_be_bytes(self.size) + self.hash.spec_bytes()
    }

    /// The entry that stands at `at` in `bytes`, or why there is none.
    pub open spec fn spec_parse(bytes: Seq<u8>, at: int, version_1: bool) -> Result<
        TitleMetadataContentEntry,
        TitleMetadataError,
    > {
        if at + 8 > bytes.len() {
            Err(TitleMetadataError::IoError(StreamError::UnexpectedEof))
        } else {
            match TitleMetadataContentEntryKind::spec_from_identifier(be_u16_at(bytes, at + 6)) {
                None => Err(TitleMetadataError::UnknownContentEntryKind(be_u16_at(bytes, at + 6))),
                Some(kind) => {
                    if at + entry_size(version_1) > bytes.len() {
                        Err(TitleMetadataError::IoError(StreamError::UnexpectedEof))
                    } else {
                        Ok(
                            TitleMetadataContentEntry {
                                id: be_u32_at(bytes, at),
                                index: be_u16_at(bytes, at + 4),
                                kind,
                                size: be_u64_at(bytes, at + 8),
                                hash: if version_1 {
                                    TitleMetadataContentEntryHashKind::Version1(
                                        array_of::<32>(bytes.subrange(at + 16, at + 48)),
                                    )
                                } else {
                                    TitleMetadataContentEntryHashKind::Version0(
                                        array_of::<20>(bytes.subrange(at + 16, at + 36)),
                                    )
                                },
                            },
                        )
                    }
                },
            }
        }
    }

    /// Read a content entry, with the hash of the given version.
    pub fn new(stream: &mut Stream, version_1: bool) -> (result: Result<Self, TitleMetadataError>)
        ensures
            final(stream).same_content(old(stream)),
            match Self::spec_parse(old(stream).bytes(), old(stream).pos() as int, version_1) {
                Ok(entry) => {
                    &&& result == Ok::<Self, TitleMetadataError>(entry)
                    &&& final(stream).pos() == old(stream).pos() + entry_size(version_1)
                },
                Err(error) => result == Err::<Self, TitleMetadataError>(error),
            },
    {
        let id = match stream.read_u32_be() {
            Ok(value) => value,
            Err(error) => return Err(TitleMetadataError::IoError(error)),
        };
        let index = match stream.read_u16_be() {
            Ok(value) => value,
            Err(error) => return Err(TitleMetadataError::IoError(error)),
        };
        let identifier = match stream.read_u16_be() {
            Ok(value) => value,
            Err(error) => return Err(TitleMetadataError::IoError(error)),
        };
        let kind = if identifier == 0x0001 {
            TitleMetadataContentEntryKind::Normal
        } else if identifier == 0x2001 {
            TitleMetadataContentEntryKind::NormalWiiUKind1
        } else if identifier == 0x2003 {
            TitleMetadataContentEntryKind::NormalWiiUKind2
        } else if identifier == 0x6003 {
            TitleMetadataContentEntryKind::NormalWiiUKind3
        } else if identifier == 0x4001 {
            TitleMetadataContentEntryKind::Dlc
        } else if identifier == 0x8001 {
            TitleMetadataContentEntryKind::Shared
        } else {
            return Err(TitleMetadataError::UnknownContentEntryKind(identifier));
        };
        let size = match stream.read_u64_be() {
            Ok(value) => value,
            Err(error) => return Err(TitleMetadataError::IoError(error)),
        };
        let hash = if version_1 {
            match stream.read_array::<32>() {
                Ok(value) => TitleMetadataContentEntryHashKind::Version1(value),
                Err(error) => return Err(TitleMetadataError::IoError(error)),
            }
        } else {
            match stream.read_array::<20>() {
                Ok(value) => TitleMetadataContentEntryHashKind::Version0(value),
                Err(error) => return Err(TitleMetadataError::IoError(error)),
            }
        };
        Ok(TitleMetadataContentEntry { id, index, kind, size, hash })
    }

    /// Append the bytes of the entry.
    pub fn dump(&self, out: &mut Vec<u8>)
        ensures
            final(out)@ == old(out)@ + self.spec_serialize(),
            self.spec_serialize().len() == entry_size(self.hash.spec_is_version_1()),
    {
        let ghost before = out@;
        push_u32_be(out, self.id);
        push_u16_be(out, self.index);
        push_u16_be(
            out,
            match &self.kind {
                TitleMetadataContentEntryKind::Normal => 0x0001,
                TitleMetadataContentEntryKind::NormalWiiUKind1 => 0x2001,
                TitleMetadataContentEntryKind::NormalWiiUKind2 => 0x2003,
                TitleMetadataContentEntryKind::NormalWiiUKind3 => 0x6003,
                TitleMetadataContentEntryKind::Dlc => 0x4001,
                TitleMetadataContentEntryKind::Shared => 0x8001,
            },
        );
        push_u64_be(out, self.size);
        match &self.hash {
            TitleMetadataContentEntryHashKind::Version0(value) => push_bytes(out, value.as_slice()),
            TitleMetadataContentEntryHashKind::Version1(value) => push_bytes(out, value.as_slice()),
        }
        assert(out@ =~= before + self.spec_serialize());
    }
}

impl TitleMetadataV1ContentEntriesGroup {
    /// The group that stands at `at` in `bytes`.
    pub open spec fn spec_parse(bytes: Seq<u8>, at: int) -> Self {
        TitleMetadataV1ContentEntriesGroup {
            first_content_index: be_u16_at(bytes, at),
            content_entries_in_the_group: be_u16_at(bytes, at + 2),
            content_entries_group_hash_sha256: array_of::<32>(bytes.subrange(at + 4, at + 36)),
        }
    }

    /// The 36 bytes of the group.
    pub open spec fn spec_serialize(self) -> Seq<u8> {
        u16_be_bytes(self.first_content_index) + u16_be_bytes(self.content_entries_in_the_group)
            + self.content_entries_group_hash_sha256@
    }

    /// The group without entries, with a hash of zeros.
    pub open spec fn spec_dummy() -> Self {
        TitleMetadataV1ContentEntriesGroup {
            first_content_index: 0,
            content_entries_in_the_group: 0,
            content_entries_group_hash_sha256: array_of::<32>(zeros(32)),
        }
    }

    /// The group without entries, with a hash of zeros.
    pub fn new_dummy() -> (group: Self)
        ensures
            group == Self::spec_dummy(),
    {
        let hash = [0u8; 32];
        proof {
            assert(hash@ =~= zeros(32));
            crate::bytes::lemma_array_of_view::<32>(hash);
        }
        TitleMetadataV1ContentEntriesGroup {
            first_content_index: 0,
            content_entries_in_the_group: 0,
            content_entries_group_hash_sha256: hash,
        }
    }

    /// Read a group.
    pub fn new(stream: &mut Stream) -> (result: Result<Self, TitleMetadataError>)
        ensures
            final(stream).same_content(old(stream)),
            old(stream).pos() + 36 <= old(stream).size() ==> {
                &&& result == Ok::<Self, TitleMetadataError>(
                    Self::spec_parse(old(stream).bytes(), old(stream).pos() as int),
                )
                &&& final(stream).pos() == old(stream).pos() + 36
            },
            old(stream).pos() + 36 > old(stream).size() ==> result == Err::<
                Self,
                TitleMetadataError,
            >(TitleMetadataError::IoError(StreamError::UnexpectedEof)),
    {
        let first_content_index = match stream.read_u16_be() {
            Ok(value) => value,
            Err(error) => return Err(TitleMetadataError::IoError(error)),
        };
        let content_entries_in_the_group = match stream.read_u16_be() {
            Ok(value) => value,
            Err(error) => return Err(TitleMetadataError::IoError(error)),
        };
        let content_entries_group_hash_sha256 = match stream.read_array::<32>() {
            Ok(value) => value,
            Err(error) => return Err(TitleMetadataError::IoError(error)),
        };
        Ok(
            TitleMetadataV1ContentEntriesGroup {
                first_content_index,
                content_entries_in_the_group,
                content_entries_group_hash_sha256,
            },
        )
    }

    /// Append the bytes of the group.
    pub fn dump(&self, out: &mut Vec<u8>)
        ensures
            final(out)@ == old(out)@ + self.spec_serialize(),
            self.spec_serialize().len() == 36,
    {
        let ghost before = out@;
        push_u16_be(out, self.first_content_index);
        push_u16_be(out, self.content_entries_in_the_group);
        push_bytes(out, self.content_entries_group_hash_sha256.as_slice());
        assert(out@ =~= before + self.spec_serialize());
    }
}

/// The bytes of the first `count` groups, one behind the other.
pub open spec fn spec_groups_bytes(
    groups: Seq<TitleMetadataV1ContentEntriesGroup>,
    count: int,
) -> Seq<u8>
    decreases count,
{
    if count <= 0 {
        Seq::empty()
    } else {
        spec_groups_bytes(groups, count - 1) + groups[count - 1].spec_serialize()
    }
}

/// The `count` groups stored one behind the other from `at` on.
pub open spec fn spec_groups(bytes: Seq<u8>, at: int, count: int) -> Seq<
    TitleMetadataV1ContentEntriesGroup,
> {
    Seq::new(count as nat, |i: int| TitleMetadataV1ContentEntriesGroup::spec_parse(bytes, at + 36 * i))
}

/// The bytes of `count` groups are 36 bytes each.
pub proof fn lemma_groups_bytes_len(groups: Seq<TitleMetadataV1ContentEntriesGroup>, count: int)
    requires
        0 <= count <= groups.len(),
    ensures
        spec_groups_bytes(groups, count).len() == 36 * count,
    decreases count,
{
    if count > 0 {
        lemma_groups_bytes_len(groups, count - 1);
        let before = spec_groups_bytes(groups, count - 1);
        let last = groups[count - 1].spec_serialize();
        assert(spec_groups_bytes(groups, count) == before + last);
        assert((before + last).len() == before.len() + last.len());
    }
}

impl TitleMetadataV1 {
    /// The extension that stands at `at` in `bytes`.
    pub open spec fn spec_parse(bytes: Seq<u8>, at: int) -> Self {
        TitleMetadataV1 {
            content_entries_groups_hash_sha256: array_of::<32>(bytes.subrange(at, at + 32)),
            content_entries_groups: array_of_seq::<TitleMetadataV1ContentEntriesGroup, 64>(
                spec_groups(bytes, at + 32, 64),
            ),
        }
    }

    /// The 2336 bytes of the extension: the hash of the groups, and the 64
    /// groups.
    pub open spec fn spec_serialize(self) -> Seq<u8> {
        self.content_entries_groups_hash_sha256@ + spec_groups_bytes(
            self.content_entries_groups@,
            64,
        )
    }

    /// Read the V1 extension.
    pub fn new(stream: &mut Stream) -> (result: Result<Self, TitleMetadataError>)
        ensures
            final(stream).same_content(old(stream)),
            old(stream).pos() + V1_SIZE <= old(stream).size() ==> {
                &&& result == Ok::<Self, TitleMetadataError>(
                    Self::spec_parse(old(stream).bytes(), old(stream).pos() as int),
                )
                &&& final(stream).pos() == old(stream).pos() + V1_SIZE
            },
            old(stream).pos() + V1_SIZE > old(stream).size() ==> result == Err::<
                Self,
                TitleMetadataError,
            >(TitleMetadataError::IoError(StreamError::UnexpectedEof)),
    {
        let content_entries_groups_hash_sha256 = match stream.read_array::<32>() {
            Ok(value) => value,
            Err(error) => return Err(TitleMetadataError::IoError(error)),
        };
        let mut content_entries_groups = [TitleMetadataV1ContentEntriesGroup::new_dummy(); 64];
        let ghost start = stream.pos() as int;
        let mut i: usize = 0;
        while i < 64
            invariant
                i <= 64,
                stream.same_content(old(stream)),
                start == old(stream).pos() + 32,
                start <= stream.size(),
                stream.pos() == start + 36 * i,
                i > 0 ==> stream.pos() <= stream.size(),
                forall|j: int|
                    0 <= j < i ==> content_entries_groups@[j]
                        == TitleMetadataV1ContentEntriesGroup::spec_parse(
                        old(stream).bytes(),
                        start + 36 * j,
                    ),
            decreases 64 - i,
        {
            let group = match TitleMetadataV1ContentEntriesGroup::new(stream) {
                Ok(group) => group,
                Err(error) => return Err(error),
            };
            content_entries_groups[i] = group;
            i += 1;
        }
        proof {
            let expected = spec_groups(old(stream).bytes(), start, 64);
            assert(content_entries_groups@ =~= expected);
            crate::bytes::lemma_array_of_seq_view::<TitleMetadataV1ContentEntriesGroup, 64>(
                content_entries_groups,
            );
        }
        Ok(TitleMetadataV1 { content_entries_groups_hash_sha256, content_entries_groups })
    }

    /// Append the bytes of the extension.
    pub fn dump(&self, out: &mut Vec<u8>)
        ensures
            final(out)@ == old(out)@ + self.spec_serialize(),
            self.spec_serialize().len() == V1_SIZE,
    {
        let ghost before = out@;
        push_bytes(out, self.content_entries_groups_hash_sha256.as_slice());
        let ghost with_hash = out@;
        let mut i: usize = 0;
        while i < 64
            invariant
                i <= 64,
                out@ == with_hash + spec_groups_bytes(self.content_entries_groups@, i as int),
            decreases 64 - i,
        {
            self.content_entries_groups[i].dump(out);
            i += 1;
            assert(out@ =~= with_hash + spec_groups_bytes(self.content_entries_groups@, i as int));
        }
        proof {
            lemma_groups_bytes_len(self.content_entries_groups@, 64);
        }
        assert(out@ =~= before + self.spec_serialize());
    }
}

/// The bytes of the first `count` content entries, one behind the other.
pub open spec fn spec_entries_bytes(entries: Seq<TitleMetadataContentEntry>, count: int) -> Seq<u8>
    decreases count,
{
    if count <= 0 {
        Seq::empty()
    } else {
        spec_entries_bytes(entries, count - 1) + entries[count - 1].spec_serialize()
    }
}

/// The `remaining` content entries from `at` on, behind the entries `read`
/// that were read before, or why there are none.
pub open spec fn spec_parse_entries(
    bytes: Seq<u8>,
    at: int,
    version_1: bool,
    remaining: nat,
    read: Seq<TitleMetadataContentEntry>,
) -> Result<Seq<TitleMetadataContentEntry>, TitleMetadataError>
    decreases remaining,
{
    if remaining == 0 {
        Ok(read)
    } else {
        match TitleMetadataContentEntry::spec_parse(bytes, at, version_1) {
            Err(error) => Err(error),
            Ok(entry) => spec_parse_entries(
                bytes,
                at + entry_size(version_1),
                version_1,
                (remaining - 1) as nat,
                read.push(entry),
            ),
        }
    }
}

/// The entries that were read have the hash of the version, and there are
/// as many as were asked for, behind those that were read before.
pub proof fn lemma_entries_parsed(
    bytes: Seq<u8>,
    at: int,
    version_1: bool,
    remaining: nat,
    read: Seq<TitleMetadataContentEntry>,
)
    requires
        entries_of_version(read, version_1),
        spec_parse_entries(bytes, at, version_1, remaining, read) is Ok,
    ensures
        entries_of_version(
            spec_parse_entries(bytes, at, version_1, remaining, read).unwrap(),
            version_1,
        ),
        spec_parse_entries(bytes, at, version_1, remaining, read).unwrap().len() == read.len()
            + remaining,
    decreases remaining,
{
    if remaining > 0 {
        let entry = TitleMetadataContentEntry::spec_parse(bytes, at, version_1).unwrap();
        let more = read.push(entry);
        assert forall|i: int| 0 <= i < more.len() implies (#[trigger] more[i]).hash.spec_is_version_1()
            == version_1 by {
            if i < read.len() {
                assert(more[i] == read[i]);
            }
        }
        lemma_entries_parsed(
            bytes,
            at + entry_size(version_1),
            version_1,
            (remaining - 1) as nat,
            more,
        );
    }
}

/// Whether every entry has the hash of the given version.
pub open spec fn entries_of_version(entries: Seq<TitleMetadataContentEntry>, version_1: bool) -> bool {
    forall|i: int|
        0 <= i < entries.len() ==> (#[trigger] entries[i]).hash.spec_is_version_1() == version_1
}

/// The bytes of `count` entries of one version are as many as their sizes
/// say.
pub proof fn lemma_entries_bytes_len(
    entries: Seq<TitleMetadataContentEntry>,
    count: int,
    version_1: bool,
)
    requires
        0 <= count <= entries.len(),
        entries_of_version(entries, version_1),
    ensures
        spec_entries_bytes(entries, count).len() == entry_size(version_1) * count,
    decreases count,
{
    if count > 0 {
        lemma_entries_bytes_len(entries, count - 1, version_1);
        let before = spec_entries_bytes(entries, count - 1);
        let last = entries[count - 1].spec_serialize();
        assert(entries[count - 1].hash.spec_is_version_1() == version_1);
        assert(spec_entries_bytes(entries, count) == before + last);
        assert((before + last).len() == before.len() + last.len());
    }
}

impl View for TitleMetadata {
    type V = TitleMetadataView;

    open spec fn view(&self) -> TitleMetadataView {
        TitleMetadataView {
            signed_blob_header: self.signed_blob_header@,
            certificate_authority_certificate_revocation_list_version: self.certificate_authority_certificate_revocation_list_version,
            signer_certificate_revocation_list_version: self.signer_certificate_revocation_list_version,
            system_runtime_title_id: self.system_runtime_title_id,
            title_id: self.title_id,
            group_id: self.group_id,
            access_rights: self.access_rights,
            title_version: self.title_version,
            boot_content_index: self.boot_content_index,
            platform_data: self.platform_data,
            version_1_extension: self.version_1_extension,
            content_chunk_entries: self.content_chunk_entries@,
        }
    }
}

impl TitleMetadataView {
    /// Whether the title metadata is of version 1.
    pub open spec fn spec_is_version_1(self) -> bool {
        self.version_1_extension is Some
    }

    /// What is written is read back: the header is well formed, an absent
    /// system runtime is not spelled as the title ID zero, there are no more
    /// than 65535 content entries, and each has the hash of the version.
    pub open spec fn wf(self) -> bool {
        &&& self.signed_blob_header.wf()
        &&& self.system_runtime_title_id != Some(TitleId(0))
        &&& self.content_chunk_entries.len() <= MAX_CONTENT_ENTRIES
        &&& entries_of_version(self.content_chunk_entries, self.spec_is_version_1())
    }

    /// The size of the title metadata in bytes.
    pub open spec fn spec_size(self) -> int {
        100 + self.signed_blob_header.spec_size() + 16 * self.content_chunk_entries.len() + if self.spec_is_version_1() {
            32 * self.content_chunk_entries.len() + 32 + 36 * 64
        } else {
            20 * self.content_chunk_entries.len()
        }
    }

    /// The first 26 bytes behind the header: the version, the versions of
    /// the revocation lists, the flag byte, the title IDs, the platform and
    /// the group.
    pub open spec fn spec_body_head(self) -> Seq<u8> {
        seq![
            byte_of_bool(self.spec_is_version_1()),
            self.certificate_authority_certificate_revocation_list_version,
            self.signer_certificate_revocation_list_version,
            self.platform_data.spec_flag_byte(),
        ] + (match self.system_runtime_title_id {
            None => zeros(8),
            Some(title_id) => u64_be_bytes(title_id.0),
        }) + u64_be_bytes(self.title_id.0) + u32_be_bytes(self.platform_data.spec_identifier())
            + u16_be_bytes(self.group_id)
    }

    /// The last 12 bytes of the body: the access rights, the version of the
    /// title, the number of content entries, the boot index, and two zeros
    /// in place of the minor version.
    pub open spec fn spec_body_tail(self) -> Seq<u8> {
        u32_be_bytes(self.access_rights) + u16_be_bytes(self.title_version) + u16_be_bytes(
            self.content_chunk_entries.len() as u16,
        ) + u16_be_bytes(self.boot_content_index) + zeros(2)
    }

    /// The hundred bytes that follow the header.
    pub open spec fn spec_body(self) -> Seq<u8> {
        self.spec_body_head() + self.platform_data.spec_area() + self.spec_body_tail()
    }

    /// The bytes of the title metadata: the header, the body, the V1
    /// extension where there is one, and the content entries.
    pub open spec fn spec_serialize(self) -> Seq<u8> {
        self.signed_blob_header.spec_serialize() + self.spec_body() + (match self.version_1_extension {
            None => Seq::empty(),
            Some(extension) => extension.spec_serialize(),
        }) + spec_entries_bytes(self.content_chunk_entries, self.content_chunk_entries.len() as int)
    }

    /// The title metadata that stands at `pos` in `bytes` and the position
    /// behind it, or why there is none. Its parts are read in their order,
    /// and the first that fails gives the error.
    pub open spec fn spec_parse(bytes: Seq<u8>, pos: int) -> Result<
        (TitleMetadataView, int),
        TitleMetadataError,
    > {
        match SignedBlobHeaderView::spec_parse(bytes, pos) {
            Err(error) => Err(TitleMetadataError::SignedBlobHeaderError(error)),
            Ok((signed_blob_header, at)) => match TitleMetadataHead::spec_parse(bytes, at) {
                Err(error) => Err(error),
                Ok(head) => match TitleMetadataPlatformData::spec_parse_area(
                    head.platform,
                    head.flag,
                    bytes,
                    at + 26,
                ) {
                    Err(error) => Err(error),
                    Ok(platform_data) => match TitleMetadataTail::spec_parse(bytes, at + 88) {
                        Err(error) => Err(error),
                        Ok(tail) => match spec_parse_extension(
                            head.format_version,
                            bytes,
                            at + 100,
                        ) {
                            Err(error) => Err(error),
                            Ok(version_1_extension) => {
                                let version_1 = version_1_extension is Some;
                                let entries_at = at + 100 + if version_1 {
                                    V1_SIZE as int
                                } else {
                                    0
                                };
                                match spec_parse_entries(
                                    bytes,
                                    entries_at,
                                    version_1,
                                    tail.number_of_content_entries as nat,
                                    Seq::empty(),
                                ) {
                                    Err(error) => Err(error),
                                    Ok(content_chunk_entries) => Ok(
                                        (
                                            TitleMetadataView {
                                                signed_blob_header,
                                                certificate_authority_certificate_revocation_list_version: head.certificate_authority_certificate_revocation_list_version,
                                                signer_certificate_revocation_list_version: head.signer_certificate_revocation_list_version,
                                                system_runtime_title_id: head.system_runtime_title_id,
                                                title_id: head.title_id,
                                                group_id: head.group_id,
                                                access_rights: tail.access_rights,
                                                title_version: tail.title_version,
                                                boot_content_index: tail.boot_content_index,
                                                platform_data,
                                                version_1_extension,
                                                content_chunk_entries,
                                            },
                                            entries_at + entry_size(version_1)
                                                * tail.number_of_content_entries,
                                        ),
                                    ),
                                }
                            },
                        },
                    },
                },
            },
        }
    }
}

/// The first 26 bytes of the body of a title metadata.
#[derive(Debug, Clone, Copy, PartialEq, Eq)]
pub struct TitleMetadataHead {
    /// The version of the format.
    pub format_version: u8,
    /// Version of the revocation list of the certificate authority.
    pub certificate_authority_certificate_revocation_list_version: u8,
    /// Version of the revocation list of the signer.
    pub signer_certificate_revocation_list_version: u8,
    /// The flag for titles of the vWii, which has a meaning on the Wii only.
    pub flag: bool,
    /// Title ID of the system runtime.
    pub system_runtime_title_id: Option<TitleId>,
    /// Title ID of the title.
    pub title_id: TitleId,
    /// The identifier of the platform.
    pub platform: u32,
    /// Group ID of the title.
    pub group_id: u16,
}

/// The last 12 bytes of the body of a title metadata.
#[derive(Debug, Clone, Copy, PartialEq, Eq)]
pub struct TitleMetadataTail {
    /// Access rights to the hardware.
    pub access_rights: u32,
    /// The version of the title.
    pub title_version: u16,
    /// The number of content entries.
    pub number_of_content_entries: u16,
    /// The index of the content with the boot data.
    pub boot_content_index: u16,
}

impl TitleMetadataHead {
    /// The head that stands at `at` in `bytes`, or why there is none: the
    /// flag byte has to be 0 or 1, and the platform one of the four known
    /// ones.
    pub open spec fn spec_parse(bytes: Seq<u8>, at: int) -> Result<
        TitleMetadataHead,
        TitleMetadataError,
    > {
        if at + 4 > bytes.len() {
            Err(TitleMetadataError::IoError(StreamError::UnexpectedEof))
        } else {
            match bool_of_byte(bytes[at + 3]) {
                None => Err(TitleMetadataError::IoError(StreamError::InvalidData)),
                Some(flag) => {
                    if at + 24 > bytes.len() {
                        Err(TitleMetadataError::IoError(StreamError::UnexpectedEof))
                    } else if TitleMetadataPlatformData::spec_dummy_from_identifier(
                        be_u32_at(bytes, at + 20),
                    ) is None {
                        Err(TitleMetadataError::UnknownPlatform(be_u32_at(bytes, at + 20)))
                    } else if at + 26 > bytes.len() {
                        Err(TitleMetadataError::IoError(StreamError::UnexpectedEof))
                    } else {
                        Ok(
                            TitleMetadataHead {
                                format_version: bytes[at],
                                certificate_authority_certificate_revocation_list_version: bytes[at
                                    + 1],
                                signer_certificate_revocation_list_version: bytes[at + 2],
                                flag,
                                system_runtime_title_id: if be_u64_at(bytes, at + 4) == 0 {
                                    None
                                } else {
                                    Some(TitleId(be_u64_at(bytes, at + 4)))
                                },
                                title_id: TitleId(be_u64_at(bytes, at + 12)),
                                platform: be_u32_at(bytes, at + 20),
                                group_id: be_u16_at(bytes, at + 24),
                            },
                        )
                    }
                },
            }
        }
    }

    /// Read the head.
    pub fn new(stream: &mut Stream) -> (result: Result<Self, TitleMetadataError>)
        ensures
            final(stream).same_content(old(stream)),
            match Self::spec_parse(old(stream).bytes(), old(stream).pos() as int) {
                Ok(head) => {
                    &&& result == Ok::<Self, TitleMetadataError>(head)
                    &&& final(stream).pos() == old(stream).pos() + 26
                    &&& final(stream).pos() <= final(stream).size()
                    &&& TitleMetadataPlatformData::spec_dummy_from_identifier(head.platform) is Some
                },
                Err(error) => result == Err::<Self, TitleMetadataError>(error),
            },
    {
        let format_version = match stream.read_u8() {
            Ok(value) => value,
            Err(error) => return Err(TitleMetadataError::IoError(error)),
        };
        let certificate_authority_certificate_revocation_list_version = match stream.read_u8() {
            Ok(value) => value,
            Err(error) => return Err(TitleMetadataError::IoError(error)),
        };
        let signer_certificate_revocation_list_version = match stream.read_u8() {
            Ok(value) => value,
            Err(error) => return Err(TitleMetadataError::IoError(error)),
        };
        // On the Wii this byte is a flag.
        let flag = match stream.read_bool() {
            Ok(value) => value,
            Err(error) => return Err(TitleMetadataError::IoError(error)),
        };
        let system_runtime_title_id = match stream.read_u64_be() {
            Ok(value) => if value == 0 {
                None
            } else {
                Some(TitleId::new(value))
            },
            Err(error) => return Err(TitleMetadataError::IoError(error)),
        };
        let title_id = match stream.read_u64_be() {
            Ok(value) => TitleId::new(value),
            Err(error) => return Err(TitleMetadataError::IoError(error)),
        };
        let platform = match stream.read_u32_be() {
            Ok(value) => value,
            Err(error) => return Err(TitleMetadataError::IoError(error)),
        };
        match TitleMetadataPlatformData::new_dummy_from_identifier(platform) {
            Ok(_) => {},
            Err(error) => return Err(error),
        }
        let group_id = match stream.read_u16_be() {
            Ok(value) => value,
            Err(error) => return Err(TitleMetadataError::IoError(error)),
        };
        Ok(
            TitleMetadataHead {
                format_version,
                certificate_authority_certificate_revocation_list_version,
                signer_certificate_revocation_list_version,
                flag,
                system_runtime_title_id,
                title_id,
                platform,
                group_id,
            },
        )
    }
}

impl TitleMetadataTail {
    /// The tail that stands at `at` in `bytes`, where ten bytes stand there.
    /// The two bytes of the minor version behind them are not looked at.
    pub open spec fn spec_parse(bytes: Seq<u8>, at: int) -> Result<
        TitleMetadataTail,
        TitleMetadataError,
    > {
        if at + 10 > bytes.len() {
            Err(TitleMetadataError::IoError(StreamError::UnexpectedEof))
        } else {
            Ok(
                TitleMetadataTail {
                    access_rights: be_u32_at(bytes, at),
                    title_version: be_u16_at(bytes, at + 4),
                    number_of_content_entries: be_u16_at(bytes, at + 6),
                    boot_content_index: be_u16_at(bytes, at + 8),
                },
            )
        }
    }

    /// Read the tail, and move over the minor version.
    pub fn new(stream: &mut Stream) -> (result: Result<Self, TitleMetadataError>)
        requires
            old(stream).wf(),
        ensures
            final(stream).same_content(old(stream)),
            match Self::spec_parse(old(stream).bytes(), old(stream).pos() as int) {
                Ok(tail) => {
                    &&& result == Ok::<Self, TitleMetadataError>(tail)
                    &&& final(stream).pos() == old(stream).pos() + 12
                },
                Err(error) => result == Err::<Self, TitleMetadataError>(error),
            },
    {
        let access_rights = match stream.read_u32_be() {
            Ok(value) => value,
            Err(error) => return Err(TitleMetadataError::IoError(error)),
        };
        let title_version = match stream.read_u16_be() {
            Ok(value) => value,
            Err(error) => return Err(TitleMetadataError::IoError(error)),
        };
        let number_of_content_entries = match stream.read_u16_be() {
            Ok(value) => value,
            Err(error) => return Err(TitleMetadataError::IoError(error)),
        };
        let boot_content_index = match stream.read_u16_be() {
            Ok(value) => value,
            Err(error) => return Err(TitleMetadataError::IoError(error)),
        };
        // The minor version of the title was never used.
        match stream.skip(2) {
            Ok(()) => {},
            Err(error) => return Err(TitleMetadataError::IoError(error)),
        }
        Ok(
            TitleMetadataTail {
                access_rights,
                title_version,
                number_of_content_entries,
                boot_content_index,
            },
        )
    }
}

/// The V1 extension that stands at `at` where the version is 1, none where
/// it is 0; another version is not compatible.
pub open spec fn spec_parse_extension(format_version: u8, bytes: Seq<u8>, at: int) -> Result<
    Option<TitleMetadataV1>,
    TitleMetadataError,
> {
    if format_version == 0 {
        Ok(None)
    } else if format_version == 1 {
        if at + V1_SIZE > bytes.len() {
            Err(TitleMetadataError::IoError(StreamError::UnexpectedEof))
        } else {
            Ok(Some(TitleMetadataV1::spec_parse(bytes, at)))
        }
    } else {
        Err(TitleMetadataError::IncompatibleVersion(format_version))
    }
}

impl TitleMetadata {
    /// What is written is read back.
    pub open spec fn wf(&self) -> bool {
        self@.wf()
    }

    /// Whether the title metadata is well formed, so that it can be written.
    #[verifier::loop_isolation(false)]
    pub fn is_well_formed(&self) -> (well_formed: bool)
        ensures
            well_formed == self.wf(),
    {
        if !self.signed_blob_header.is_well_formed() {
            return false;
        }
        match self.system_runtime_title_id {
            Some(title_id) => {
                if title_id.inner() == 0 {
                    return false;
                }
            },
            None => {},
        }
        if self.content_chunk_entries.len() > MAX_CONTENT_ENTRIES {
            return false;
        }
        let version_1 = self.version_1_extension.is_some();
        let mut i: usize = 0;
        while i < self.content_chunk_entries.len()
            invariant
                i <= self.content_chunk_entries@.len(),
                forall|j: int|
                    0 <= j < i ==> (#[trigger] self.content_chunk_entries@[j]).hash.spec_is_version_1()
                        == version_1,
            decreases self.content_chunk_entries@.len() - i,
        {
            let entry_version_1 = match self.content_chunk_entries[i].hash {
                TitleMetadataContentEntryHashKind::Version1(_) => true,
                TitleMetadataContentEntryHashKind::Version0(_) => false,
            };
            if entry_version_1 != version_1 {
                assert(self@.content_chunk_entries[i as int].hash.spec_is_version_1()
                    != self@.spec_is_version_1());
                return false;
            }
            i += 1;
        }
        true
    }

    /// Read the data of the platform from the 62 bytes at the position of
    /// the stream, and leave the stream behind them.
    fn read_platform_area(stream: &mut Stream, identifier: u32, flag: bool) -> (result: Result<
        TitleMetadataPlatformData,
        TitleMetadataError,
    >)
        requires
            old(stream).wf(),
            old(stream).pos() <= old(stream).size(),
            TitleMetadataPlatformData::spec_dummy_from_identifier(identifier) is Some,
        ensures
            final(stream).same_content(old(stream)),
            match TitleMetadataPlatformData::spec_parse_area(
                identifier,
                flag,
                old(stream).bytes(),
                old(stream).pos() as int,
            ) {
                Ok(platform_data) => {
                    &&& result == Ok::<TitleMetadataPlatformData, TitleMetadataError>(
                        platform_data,
                    )
                    &&& final(stream).pos() == old(stream).pos() + 62
                },
                Err(error) => result == Err::<TitleMetadataPlatformData, TitleMetadataError>(
                    error,
                ),
            },
    {
        if identifier == 0 || identifier == 256 {
            match stream.skip(62) {
                Ok(()) => {},
                Err(error) => return Err(TitleMetadataError::IoError(error)),
            }
            if identifier == 0 {
                Ok(TitleMetadataPlatformData::DSi)
            } else {
                Ok(TitleMetadataPlatformData::WiiU)
            }
        } else if identifier == 64 {
            let public_save_data_size = match stream.read_u32_le() {
                Ok(value) => value,
                Err(error) => return Err(TitleMetadataError::IoError(error)),
            };
            let private_save_data_size = match stream.read_u32_le() {
                Ok(value) => value,
                Err(error) => return Err(TitleMetadataError::IoError(error)),
            };
            match stream.skip(4) {
                Ok(()) => {},
                Err(error) => return Err(TitleMetadataError::IoError(error)),
            }
            let srl_flag = match stream.read_u8() {
                Ok(value) => value,
                Err(error) => return Err(TitleMetadataError::IoError(error)),
            };
            match stream.skip(49) {
                Ok(()) => {},
                Err(error) => return Err(TitleMetadataError::IoError(error)),
            }
            Ok(
                TitleMetadataPlatformData::Console3ds {
                    public_save_data_size,
                    private_save_data_size,
                    srl_flag,
                },
            )
        } else {
            match stream.skip(2) {
                Ok(()) => {},
                Err(error) => return Err(TitleMetadataError::IoError(error)),
            }
            let region = match stream.read_u16_be() {
                Ok(value) => match TitleMetadataPlatformDataWiiRegion::from_identifier(value) {
                    Ok(region) => region,
                    Err(error) => return Err(error),
                },
                Err(error) => return Err(TitleMetadataError::IoError(error)),
            };
            let ratings = match stream.read_array::<16>() {
                Ok(value) => value,
                Err(error) => return Err(TitleMetadataError::IoError(error)),
            };
            match stream.skip(12) {
                Ok(()) => {},
                Err(error) => return Err(TitleMetadataError::IoError(error)),
            }
            let ipc_mask = match stream.read_array::<12>() {
                Ok(value) => value,
                Err(error) => return Err(TitleMetadataError::IoError(error)),
            };
            match stream.skip(18) {
                Ok(()) => {},
                Err(error) => return Err(TitleMetadataError::IoError(error)),
            }
            Ok(
                TitleMetadataPlatformData::Wii {
                    is_wii_u_vwii_only_title: flag,
                    region,
                    ratings,
                    ipc_mask,
                },
            )
        }
    }

    /// Read the V1 extension where the version is 1.
    fn read_extension(stream: &mut Stream, format_version: u8) -> (result: Result<
        Option<TitleMetadataV1>,
        TitleMetadataError,
    >)
        ensures
            final(stream).same_content(old(stream)),
            match spec_parse_extension(
                format_version,
                old(stream).bytes(),
                old(stream).pos() as int,
            ) {
                Ok(extension) => {
                    &&& result == Ok::<Option<TitleMetadataV1>, TitleMetadataError>(extension)
                    &&& final(stream).pos() == old(stream).pos() + if extension is Some {
                        V1_SIZE as int
                    } else {
                        0
                    }
                },
                Err(error) => result == Err::<Option<TitleMetadataV1>, TitleMetadataError>(error),
            },
    {
        if format_version == 0 {
            Ok(None)
        } else if format_version == 1 {
            match TitleMetadataV1::new(stream) {
                Ok(value) => Ok(Some(value)),
                Err(error) => Err(error),
            }
        } else {
            Err(TitleMetadataError::IncompatibleVersion(format_version))
        }
    }

    /// Read `count` content entries.
    fn read_entries(stream: &mut Stream, version_1: bool, count: u16) -> (result: Result<
        Vec<TitleMetadataContentEntry>,
        TitleMetadataError,
    >)
        ensures
            final(stream).same_content(old(stream)),
            match spec_parse_entries(
                old(stream).bytes(),
                old(stream).pos() as int,
                version_1,
                count as nat,
                Seq::empty(),
            ) {
                Ok(entries) => {
                    &&& result is Ok
                    &&& result.unwrap()@ == entries
                    &&& final(stream).pos() == old(stream).pos() + entry_size(version_1) * count
                },
                Err(error) => result == Err::<Vec<TitleMetadataContentEntry>, TitleMetadataError>(
                    error,
                ),
            },
    {
        let ghost bytes = stream.bytes();
        let ghost entries_at = stream.pos() as int;
        let mut content_chunk_entries: Vec<TitleMetadataContentEntry> = Vec::new();
        let mut i: u16 = 0;
        while i < count
            invariant
                i <= count,
                bytes == old(stream).bytes(),
                entries_at == old(stream).pos(),
                stream.same_content(old(stream)),
                stream.pos() == entries_at + entry_size(version_1) * i,
                content_chunk_entries@.len() == i,
                spec_parse_entries(bytes, entries_at, version_1, count as nat, Seq::empty())
                    == spec_parse_entries(
                    bytes,
                    stream.pos() as int,
                    version_1,
                    (count - i) as nat,
                    content_chunk_entries@,
                ),
            decreases count - i,
        {
            let ghost before = content_chunk_entries@;
            let ghost here = stream.pos() as int;
            assert(entry_size(version_1) * (i + 1) == entry_size(version_1) * i + entry_size(
                version_1,
            )) by (nonlinear_arith);
            assert(spec_parse_entries(bytes, here, version_1, (count - i) as nat, before)
                == match TitleMetadataContentEntry::spec_parse(bytes, here, version_1) {
                Err(error) => Err::<Seq<TitleMetadataContentEntry>, TitleMetadataError>(error),
                Ok(entry) => spec_parse_entries(
                    bytes,
                    here + entry_size(version_1),
                    version_1,
                    (count - i - 1) as nat,
                    before.push(entry),
                ),
            });
            let entry = match TitleMetadataContentEntry::new(stream, version_1) {
                Ok(entry) => entry,
                Err(error) => return Err(error),
            };
            content_chunk_entries.push(entry);
            i += 1;
        }
        Ok(content_chunk_entries)
    }

    /// Read a title metadata: the signed blob header, the hundred bytes of
    /// the body, the V1 extension where the version is 1, and as many
    /// content entries as the body counts.
    pub fn new(stream: &mut Stream) -> (result: Result<Self, TitleMetadataError>)
        requires
            old(stream).wf(),
        ensures
            final(stream).same_content(old(stream)),
            match TitleMetadataView::spec_parse(old(stream).bytes(), old(stream).pos() as int) {
                Ok((title_metadata, end)) => {
                    &&& result is Ok
                    &&& result.unwrap()@ == title_metadata
                    &&& result.unwrap().wf()
                    &&& final(stream).pos() == end
                },
                Err(error) => result == Err::<Self, TitleMetadataError>(error),
            },
    {
        proof {
            if TitleMetadataView::spec_parse(stream.bytes(), stream.pos() as int) is Ok {
                TitleMetadataView::lemma_parsed_is_well_formed(stream.bytes(), stream.pos() as int);
            }
        }
        let signed_blob_header = match SignedBlobHeader::new(stream) {
            Ok(value) => value,
            Err(error) => return Err(TitleMetadataError::SignedBlobHeaderError(error)),
        };
        let head = match TitleMetadataHead::new(stream) {
            Ok(value) => value,
            Err(error) => return Err(error),
        };
        let platform_data = match Self::read_platform_area(stream, head.platform, head.flag) {
            Ok(value) => value,
            Err(error) => return Err(error),
        };
        let tail = match TitleMetadataTail::new(stream) {
            Ok(value) => value,
            Err(error) => return Err(error),
        };
        let version_1_extension = match Self::read_extension(stream, head.format_version) {
            Ok(value) => value,
            Err(error) => return Err(error),
        };
        let content_chunk_entries = match Self::read_entries(
            stream,
            version_1_extension.is_some(),
            tail.number_of_content_entries,
        ) {
            Ok(value) => value,
            Err(error) => return Err(error),
        };
        Ok(
            TitleMetadata {
                signed_blob_header,
                certificate_authority_certificate_revocation_list_version: head.certificate_authority_certificate_revocation_list_version,
                signer_certificate_revocation_list_version: head.signer_certificate_revocation_list_version,
                system_runtime_title_id: head.system_runtime_title_id,
                title_id: head.title_id,
                platform_data,
                group_id: head.group_id,
                title_version: tail.title_version,
                boot_content_index: tail.boot_content_index,
                access_rights: tail.access_rights,
                version_1_extension,
                content_chunk_entries,
            },
        )
    }

    /// Append the first 26 bytes of the body.
    fn dump_body_head(&self, out: &mut Vec<u8>)
        ensures
            final(out)@ == old(out)@ + self@.spec_body_head(),
            self@.spec_body_head().len() == 26,
    {
        let mut head: Vec<u8> = Vec::new();
        head.push(
            if self.version_1_extension.is_some() {
                1
            } else {
                0
            },
        );
        head.push(self.certificate_authority_certificate_revocation_list_version);
        head.push(self.signer_certificate_revocation_list_version);
        head.push(
            match self.platform_data {
                TitleMetadataPlatformData::Wii { is_wii_u_vwii_only_title, .. } => {
                    if is_wii_u_vwii_only_title {
                        1
                    } else {
                        0
                    }
                },
                _ => 0,
            },
        );
        let ghost flags = head@;
        match &self.system_runtime_title_id {
            None => push_zeros(&mut head, 8),
            Some(title_id) => push_u64_be(&mut head, title_id.inner()),
        }
        push_u64_be(&mut head, self.title_id.inner());
        self.platform_data.dump_identifier(&mut head);
        push_u16_be(&mut head, self.group_id);
        assert(flags =~= seq![
            byte_of_bool(self@.spec_is_version_1()),
            self.certificate_authority_certificate_revocation_list_version,
            self.signer_certificate_revocation_list_version,
            self.platform_data.spec_flag_byte(),
        ]);
        assert(head@ == self@.spec_body_head());
        push_bytes(out, head.as_slice());
    }

    /// Append the last 12 bytes of the body.
    fn dump_body_tail(&self, out: &mut Vec<u8>)
        ensures
            final(out)@ == old(out)@ + self@.spec_body_tail(),
            self@.spec_body_tail().len() == 12,
    {
        let mut tail: Vec<u8> = Vec::new();
        push_u32_be(&mut tail, self.access_rights);
        push_u16_be(&mut tail, self.title_version);
        push_u16_be(&mut tail, self.content_chunk_entries.len() as u16);
        push_u16_be(&mut tail, self.boot_content_index);
        push_zeros(&mut tail, 2);
        assert(tail@ =~= self@.spec_body_tail());
        push_bytes(out, tail.as_slice());
    }

    /// Append the content entries.
    fn dump_entries(&self, out: &mut Vec<u8>)
        ensures
            final(out)@ == old(out)@ + spec_entries_bytes(
                self.content_chunk_entries@,
                self.content_chunk_entries@.len() as int,
            ),
    {
        let ghost before = out@;
        let mut i: usize = 0;
        while i < self.content_chunk_entries.len()
            invariant
                i <= self.content_chunk_entries@.len(),
                out@ == before + spec_entries_bytes(self.content_chunk_entries@, i as int),
            decreases self.content_chunk_entries@.len() - i,
        {
            self.content_chunk_entries[i].dump(out);
            i += 1;
            assert(out@ =~= before + spec_entries_bytes(self.content_chunk_entries@, i as int));
        }
    }

    /// Append the extension, where there is one.
    fn dump_extension(&self, out: &mut Vec<u8>)
        ensures
            final(out)@ == old(out)@ + match self.version_1_extension {
                None => Seq::<u8>::empty(),
                Some(extension) => extension.spec_serialize(),
            },
            self.version_1_extension is Some ==> self.version_1_extension.unwrap().spec_serialize().len()
                == V1_SIZE,
    {
        match &self.version_1_extension {
            Some(version_1_extension) => version_1_extension.dump(out),
            None => {
                assert(out@ =~= old(out)@ + Seq::<u8>::empty());
            },
        }
    }

    /// Append the bytes of the title metadata.
    pub fn serialize_into(&self, out: &mut Vec<u8>)
        requires
            self.wf(),
        ensures
            final(out)@ == old(out)@ + self@.spec_serialize(),
            self@.spec_serialize().len() == self@.spec_size(),
    {
        let ghost before = out@;
        let ghost view = self@;
        self.signed_blob_header.serialize_into(out);
        self.dump_body_head(out);
        self.platform_data.dump_area(out);
        self.dump_body_tail(out);
        let ghost with_body = out@;
        proof {
            crate::bytes::lemma_append_parts(
                before + view.signed_blob_header.spec_serialize(),
                view.spec_body_head(),
                view.platform_data.spec_area(),
                view.spec_body_tail(),
                Seq::empty(),
            );
            assert(with_body == before + view.signed_blob_header.spec_serialize()
                + view.spec_body());
        }
        self.dump_extension(out);
        self.dump_entries(out);
        proof {
            let extension = match view.version_1_extension {
                None => Seq::<u8>::empty(),
                Some(extension) => extension.spec_serialize(),
            };
            let entries = spec_entries_bytes(
                view.content_chunk_entries,
                view.content_chunk_entries.len() as int,
            );
            crate::bytes::lemma_append_parts(
                before,
                view.signed_blob_header.spec_serialize(),
                view.spec_body(),
                extension,
                entries,
            );
            lemma_entries_bytes_len(
                view.content_chunk_entries,
                view.content_chunk_entries.len() as int,
                view.spec_is_version_1(),
            );
        }
    }

    /// Write the title metadata at the position of the stream.
    pub fn dump(&self, stream: &mut Stream) -> (result: Result<(), StreamError>)
        requires
            old(stream).wf(),
            self.wf(),
        ensures
            final(stream).wf(),
            wrote_all(*old(stream), *final(stream), self@.spec_serialize(), result),
    {
        let mut bytes: Vec<u8> = Vec::new();
        self.serialize_into(&mut bytes);
        assert(bytes@ =~= self@.spec_serialize());
        stream.write_all(bytes.as_slice())
    }

    /// If the title has access to the DVD drive. Only on Wii (and Wii U vWii)
    /// platform; on another the action is invalid.
    pub fn has_dvd_access_wii(&self) -> (result: Result<bool, TitleMetadataError>)
        ensures
            result == if self.platform_data.spec_is_wii() {
                Ok::<bool, TitleMetadataError>((self.access_rights & 0b10) != 0)
            } else {
                Err::<bool, TitleMetadataError>(TitleMetadataError::ActionInvalid())
            },
    {
        if let TitleMetadataPlatformData::Wii { .. } = self.platform_data {
            return Ok((self.access_rights & 0b10) != 0);
        }
        Err(TitleMetadataError::ActionInvalid())
    }

    /// If the title has access to all hardware from its main PPC chip without
    /// an IOS in between. Only on Wii (and Wii U vWii) platform; on another
    /// the action is invalid.
    pub fn has_ppc_access_wii(&self) -> (result: Result<bool, TitleMetadataError>)
        ensures
            result == if self.platform_data.spec_is_wii() {
                Ok::<bool, TitleMetadataError>((self.access_rights & 0b1) != 0)
            } else {
                Err::<bool, TitleMetadataError>(TitleMetadataError::ActionInvalid())
            },
    {
        if let TitleMetadataPlatformData::Wii { .. } = self.platform_data {
            return Ok((self.access_rights & 0b1) != 0);
        }
        Err(TitleMetadataError::ActionInvalid())
    }

    /// Get the size of the title metadata in bytes.
    pub fn size(&self) -> (size: u32)
        requires
            self@.content_chunk_entries.len() <= MAX_CONTENT_ENTRIES,
        ensures
            size == self@.spec_size(),
    {
        let num_of_entries = self.content_chunk_entries.len() as u32;
        let mut size = 100 + self.signed_blob_header.size() + 16 * num_of_entries;
        if self.version_1_extension.is_some() {
            size += 32 * num_of_entries + 32 + (4 + 32) * 64
        } else {
            size += 20 * num_of_entries
        }
        size
    }

    /// Select the content with the given physical position.
    pub fn select_with_physical_position(&self, position: usize) -> (selector: ContentSelector)
        ensures
            selector.method == ContentSelectorMethod::WithPhysicalPosition(position),
    {
        ContentSelector { method: ContentSelectorMethod::WithPhysicalPosition(position) }
    }

    /// Select the first content with the given ID.
    pub fn select_with_id(&self, id: u32) -> (selector: ContentSelector)
        ensures
            selector.method == ContentSelectorMethod::WithId(id),
    {
        ContentSelector { method: ContentSelectorMethod::WithId(id) }
    }

    /// Select the first content with the given index.
    pub fn select_with_index(&self, index: u16) -> (selector: ContentSelector)
        ensures
            selector.method == ContentSelectorMethod::WithIndex(index),
    {
        ContentSelector { method: ContentSelectorMethod::WithIndex(index) }
    }

    /// Select the first content stored inside the title (given its physicial
    /// position).
    pub fn select_first(&self) -> (selector: ContentSelector)
        ensures
            selector.method == ContentSelectorMethod::WithPhysicalPosition(0),
    {
        self.select_with_physical_position(0)
    }

    /// Select the last content stored inside the title (given its physicial
    /// position). The selection is made when the selector is used.
    pub fn select_last(&self) -> (selector: ContentSelector)
        ensures
            selector.method == ContentSelectorMethod::Last,
    {
        ContentSelector { method: ContentSelectorMethod::Last }
    }
}

impl TitleMetadataContentEntry {
    /// A content entry is read back from its bytes, wherever they stand.
    pub proof fn lemma_parse_serialize(self, bytes: Seq<u8>, at: int)
        requires
            0 <= at,
            at + entry_size(self.hash.spec_is_version_1()) <= bytes.len(),
            bytes.subrange(at, at + entry_size(self.hash.spec_is_version_1()))
                == self.spec_serialize(),
        ensures
            Self::spec_parse(bytes, at, self.hash.spec_is_version_1()) == Ok::<
                TitleMetadataContentEntry,
                TitleMetadataError,
            >(self),
    {
        let image = self.spec_serialize();
        let id = u32_be_bytes(self.id);
        let index = u16_be_bytes(self.index);
        let kind = u16_be_bytes(self.kind.spec_identifier());
        let size = u64_be_bytes(self.size);
        let hash = self.hash.spec_bytes();
        let head = id + index + kind + size;
        crate::bytes::lemma_parts_of_concat4(id, index, kind, size);
        crate::bytes::lemma_parts_of_concat(head, hash);
        assert(image == head + hash);
        crate::bytes::lemma_embedded_part(bytes, at, image, 0, 16);
        crate::bytes::lemma_embedded_part(bytes, at, image, 16, hash.len() as int);
        assert(image.subrange(0, 16) == head);
        crate::bytes::lemma_embedded_part(bytes, at, head, 0, 4);
        crate::bytes::lemma_embedded_part(bytes, at, head, 4, 2);
        crate::bytes::lemma_embedded_part(bytes, at, head, 6, 2);
        crate::bytes::lemma_embedded_part(bytes, at, head, 8, 8);
        crate::bytes::lemma_be_u32_round_trip(bytes, at, self.id);
        crate::bytes::lemma_be_u16_round_trip(bytes, at + 4, self.index);
        crate::bytes::lemma_be_u16_round_trip(bytes, at + 6, self.kind.spec_identifier());
        crate::bytes::lemma_be_u64_round_trip(bytes, at + 8, self.size);
        match self.hash {
            TitleMetadataContentEntryHashKind::Version0(value) => {
                crate::bytes::lemma_array_of_view::<20>(value);
            },
            TitleMetadataContentEntryHashKind::Version1(value) => {
                crate::bytes::lemma_array_of_view::<32>(value);
            },
        }
    }
}

/// The bytes of one of several entries stand in the bytes of all of them
/// behind those of the entries before it.
pub proof fn lemma_entry_in_entries(
    entries: Seq<TitleMetadataContentEntry>,
    index: int,
    version_1: bool,
)
    requires
        0 <= index < entries.len(),
        entries_of_version(entries, version_1),
    ensures
        spec_entries_bytes(entries, entries.len() as int).len() == entry_size(version_1)
            * entries.len(),
        entry_size(version_1) * index + entry_size(version_1) <= entry_size(version_1)
            * entries.len(),
        spec_entries_bytes(entries, entries.len() as int).subrange(
            entry_size(version_1) * index,
            entry_size(version_1) * index + entry_size(version_1),
        ) == entries[index].spec_serialize(),
    decreases entries.len() - index,
{
    let width = entry_size(version_1);
    let total = entries.len() as int;
    lemma_entries_prefix(entries, index + 1, total, version_1);
    lemma_entries_bytes_len(entries, index, version_1);
    lemma_entries_bytes_len(entries, index + 1, version_1);
    lemma_entries_bytes_len(entries, total, version_1);
    let whole = spec_entries_bytes(entries, total);
    let upto = spec_entries_bytes(entries, index + 1);
    let before = spec_entries_bytes(entries, index);
    assert(upto == before + entries[index].spec_serialize());
    crate::bytes::lemma_parts_of_concat(before, entries[index].spec_serialize());
    assert(width * (index + 1) == width * index + width) by (nonlinear_arith);
    assert(width * (index + 1) <= width * total) by (nonlinear_arith)
        requires
            index + 1 <= total,
            width >= 0,
    ;
    crate::bytes::lemma_subrange_of_subrange(
        whole,
        0,
        width * (index + 1),
        width * index,
        width,
    );
}

/// The bytes of the first entries stand first in the bytes of more of them.
pub proof fn lemma_entries_prefix(
    entries: Seq<TitleMetadataContentEntry>,
    count: int,
    total: int,
    version_1: bool,
)
    requires
        0 <= count <= total <= entries.len(),
        entries_of_version(entries, version_1),
    ensures
        entry_size(version_1) * count <= entry_size(version_1) * total,
        spec_entries_bytes(entries, count) == spec_entries_bytes(entries, total).subrange(
            0,
            entry_size(version_1) * count,
        ),
    decreases total - count,
{
    let width = entry_size(version_1);
    lemma_entries_bytes_len(entries, count, version_1);
    lemma_entries_bytes_len(entries, total, version_1);
    assert(width * count <= width * total) by (nonlinear_arith)
        requires
            count <= total,
            width >= 0,
    ;
    if count == total {
        assert(spec_entries_bytes(entries, total).subrange(0, width * count)
            =~= spec_entries_bytes(entries, count));
    } else {
        lemma_entries_prefix(entries, count, total - 1, version_1);
        lemma_entries_bytes_len(entries, total - 1, version_1);
        assert(width * count <= width * (total - 1)) by (nonlinear_arith)
            requires
                count <= total - 1,
                width >= 0,
        ;
        assert(spec_entries_bytes(entries, total).subrange(0, width * count)
            =~= spec_entries_bytes(entries, total - 1).subrange(0, width * count));
    }
}

/// Entries of one version are read back from their bytes, where the bytes
/// of all of them stand at `at`.
pub proof fn lemma_entries_parse_serialize(
    entries: Seq<TitleMetadataContentEntry>,
    bytes: Seq<u8>,
    at: int,
    version_1: bool,
    done: int,
)
    requires
        entries_of_version(entries, version_1),
        0 <= done <= entries.len(),
        0 <= at,
        at + entry_size(version_1) * entries.len() <= bytes.len(),
        bytes.subrange(at, at + entry_size(version_1) * entries.len()) == spec_entries_bytes(
            entries,
            entries.len() as int,
        ),
    ensures
        spec_parse_entries(
            bytes,
            at + entry_size(version_1) * done,
            version_1,
            (entries.len() - done) as nat,
            entries.subrange(0, done),
        ) == Ok::<Seq<TitleMetadataContentEntry>, TitleMetadataError>(entries),
    decreases entries.len() - done,
{
    let width = entry_size(version_1);
    let total = entries.len() as int;
    if done == total {
        assert(entries.subrange(0, done) =~= entries);
    } else {
        let entry = entries[done];
        let whole = spec_entries_bytes(entries, total);
        lemma_entry_in_entries(entries, done, version_1);
        assert(entry.hash.spec_is_version_1() == version_1);
        assert(width * done >= 0) by (nonlinear_arith)
            requires
                done >= 0,
                width >= 0,
        ;
        crate::bytes::lemma_embedded_part(bytes, at, whole, width * done, width);
        entry.lemma_parse_serialize(bytes, at + width * done);
        assert(width * (done + 1) == width * done + width) by (nonlinear_arith);
        assert(entries.subrange(0, done).push(entry) =~= entries.subrange(0, done + 1));
        lemma_entries_parse_serialize(entries, bytes, at, version_1, done + 1);
    }
}

impl TitleMetadataV1ContentEntriesGroup {
    /// A group is read back from its bytes, wherever they stand.
    pub proof fn lemma_parse_serialize(self, bytes: Seq<u8>, at: int)
        requires
            0 <= at,
            at + 36 <= bytes.len(),
            bytes.subrange(at, at + 36) == self.spec_serialize(),
        ensures
            Self::spec_parse(bytes, at) == self,
    {
        let image = self.spec_serialize();
        crate::bytes::lemma_parts_of_concat3(
            u16_be_bytes(self.first_content_index),
            u16_be_bytes(self.content_entries_in_the_group),
            self.content_entries_group_hash_sha256@,
        );
        crate::bytes::lemma_embedded_part(bytes, at, image, 0, 2);
        crate::bytes::lemma_embedded_part(bytes, at, image, 2, 2);
        crate::bytes::lemma_embedded_part(bytes, at, image, 4, 32);
        crate::bytes::lemma_be_u16_round_trip(bytes, at, self.first_content_index);
        crate::bytes::lemma_be_u16_round_trip(bytes, at + 2, self.content_entries_in_the_group);
        crate::bytes::lemma_array_of_view::<32>(self.content_entries_group_hash_sha256);
    }
}

/// The bytes of one of several groups stand in the bytes of all of them
/// behind those of the groups before it.
pub proof fn lemma_group_in_groups(
    groups: Seq<TitleMetadataV1ContentEntriesGroup>,
    index: int,
    total: int,
)
    requires
        0 <= index < total <= groups.len(),
    ensures
        spec_groups_bytes(groups, total).len() == 36 * total,
        spec_groups_bytes(groups, total).subrange(36 * index, 36 * index + 36)
            == groups[index].spec_serialize(),
    decreases total - index,
{
    lemma_groups_bytes_len(groups, total);
    lemma_groups_bytes_len(groups, total - 1);
    let before = spec_groups_bytes(groups, total - 1);
    let last = groups[total - 1].spec_serialize();
    assert(spec_groups_bytes(groups, total) == before + last);
    crate::bytes::lemma_parts_of_concat(before, last);
    if index == total - 1 {
    } else {
        lemma_group_in_groups(groups, index, total - 1);
        assert(spec_groups_bytes(groups, total).subrange(36 * index, 36 * index + 36)
            =~= before.subrange(36 * index, 36 * index + 36));
    }
}

impl TitleMetadataV1 {
    /// A V1 extension is read back from its bytes, wherever they stand.
    pub proof fn lemma_parse_serialize(self, bytes: Seq<u8>, at: int)
        requires
            0 <= at,
            at + V1_SIZE <= bytes.len(),
            bytes.subrange(at, at + V1_SIZE) == self.spec_serialize(),
        ensures
            Self::spec_parse(bytes, at) == self,
    {
        let image = self.spec_serialize();
        let hash = self.content_entries_groups_hash_sha256@;
        let groups = self.content_entries_groups@;
        let groups_bytes = spec_groups_bytes(groups, 64);
        lemma_groups_bytes_len(groups, 64);
        crate::bytes::lemma_parts_of_concat(hash, groups_bytes);
        crate::bytes::lemma_embedded_part(bytes, at, image, 0, 32);
        crate::bytes::lemma_embedded_part(bytes, at, image, 32, 2304);
        crate::bytes::lemma_array_of_view::<32>(self.content_entries_groups_hash_sha256);
        let parsed = spec_groups(bytes, at + 32, 64);
        assert forall|i: int| 0 <= i < 64 implies #[trigger] parsed[i] == groups[i] by {
            lemma_group_in_groups(groups, i, 64);
            crate::bytes::lemma_embedded_part(bytes, at + 32, groups_bytes, 36 * i, 36);
            groups[i].lemma_parse_serialize(bytes, at + 32 + 36 * i);
        }
        assert(parsed =~= groups);
        crate::bytes::lemma_array_of_seq_view::<TitleMetadataV1ContentEntriesGroup, 64>(
            self.content_entries_groups,
        );
    }
}

impl TitleMetadataPlatformData {
    /// The flag that the byte in front of the title IDs is read as: the
    /// flag of the Wii, and false elsewhere.
    pub open spec fn spec_flag(self) -> bool {
        match self {
            TitleMetadataPlatformData::Wii { is_wii_u_vwii_only_title, .. } => is_wii_u_vwii_only_title,
            _ => false,
        }
    }

    /// The data of a platform is read back from its 62 bytes, wherever they
    /// stand.
    pub proof fn lemma_parse_area(self, bytes: Seq<u8>, at: int)
        requires
            0 <= at,
            at + 62 <= bytes.len(),
            bytes.subrange(at, at + 62) == self.spec_area(),
        ensures
            Self::spec_dummy_from_identifier(self.spec_identifier()) is Some,
            Self::spec_parse_area(self.spec_identifier(), self.spec_flag(), bytes, at) == Ok::<
                Self,
                TitleMetadataError,
            >(self),
    {
        let image = self.spec_area();
        match self {
            TitleMetadataPlatformData::DSi => {},
            TitleMetadataPlatformData::WiiU => {},
            TitleMetadataPlatformData::Console3ds {
                public_save_data_size,
                private_save_data_size,
                srl_flag,
            } => {
                let head = u32_le_bytes(public_save_data_size) + u32_le_bytes(
                    private_save_data_size,
                ) + zeros(4) + seq![srl_flag];
                crate::bytes::lemma_parts_of_concat4(
                    u32_le_bytes(public_save_data_size),
                    u32_le_bytes(private_save_data_size),
                    zeros(4),
                    seq![srl_flag],
                );
                crate::bytes::lemma_parts_of_concat(head, zeros(49));
                assert(image == head + zeros(49));
                crate::bytes::lemma_embedded_part(bytes, at, image, 0, 13);
                assert(image.subrange(0, 13) == head);
                crate::bytes::lemma_embedded_part(bytes, at, head, 0, 4);
                crate::bytes::lemma_embedded_part(bytes, at, head, 4, 4);
                crate::bytes::lemma_embedded_byte(bytes, at, head, 12);
                crate::bytes::lemma_le_u32_round_trip(bytes, at, public_save_data_size);
                crate::bytes::lemma_le_u32_round_trip(bytes, at + 4, private_save_data_size);
                assert(head[12] == srl_flag);
            },
            TitleMetadataPlatformData::Wii { is_wii_u_vwii_only_title, region, ratings, ipc_mask } => {
                let head = zeros(2) + u16_be_bytes(region.spec_identifier()) + ratings@ + zeros(12);
                crate::bytes::lemma_parts_of_concat4(
                    zeros(2),
                    u16_be_bytes(region.spec_identifier()),
                    ratings@,
                    zeros(12),
                );
                crate::bytes::lemma_parts_of_concat3(head, ipc_mask@, zeros(18));
                assert(image == head + ipc_mask@ + zeros(18));
                crate::bytes::lemma_embedded_part(bytes, at, image, 0, 32);
                crate::bytes::lemma_embedded_part(bytes, at, image, 32, 12);
                assert(image.subrange(0, 32) == head);
                crate::bytes::lemma_embedded_part(bytes, at, head, 2, 2);
                crate::bytes::lemma_embedded_part(bytes, at, head, 4, 16);
                crate::bytes::lemma_be_u16_round_trip(bytes, at + 2, region.spec_identifier());
                crate::bytes::lemma_array_of_view::<16>(ratings);
                crate::bytes::lemma_array_of_view::<12>(ipc_mask);
            },
        }
    }
}

impl TitleMetadataView {
    /// The head that `spec_parse` reads of the title metadata.
    pub open spec fn spec_head(self) -> TitleMetadataHead {
        TitleMetadataHead {
            format_version: byte_of_bool(self.spec_is_version_1()),
            certificate_authority_certificate_revocation_list_version: self.certificate_authority_certificate_revocation_list_version,
            signer_certificate_revocation_list_version: self.signer_certificate_revocation_list_version,
            flag: self.platform_data.spec_flag(),
            system_runtime_title_id: self.system_runtime_title_id,
            title_id: self.title_id,
            platform: self.platform_data.spec_identifier(),
            group_id: self.group_id,
        }
    }

    /// The tail that `spec_parse` reads of the title metadata.
    pub open spec fn spec_tail(self) -> TitleMetadataTail {
        TitleMetadataTail {
            access_rights: self.access_rights,
            title_version: self.title_version,
            number_of_content_entries: self.content_chunk_entries.len() as u16,
            boot_content_index: self.boot_content_index,
        }
    }

    /// The head is read back from its 26 bytes, wherever they stand.
    pub proof fn lemma_parse_head(self, bytes: Seq<u8>, at: int)
        requires
            self.system_runtime_title_id != Some(TitleId(0)),
            0 <= at,
            at + 26 <= bytes.len(),
            bytes.subrange(at, at + 26) == self.spec_body_head(),
        ensures
            TitleMetadataHead::spec_parse(bytes, at) == Ok::<TitleMetadataHead, TitleMetadataError>(
                self.spec_head(),
            ),
    {
        let image = self.spec_body_head();
        let flags = seq![
            byte_of_bool(self.spec_is_version_1()),
            self.certificate_authority_certificate_revocation_list_version,
            self.signer_certificate_revocation_list_version,
            self.platform_data.spec_flag_byte(),
        ];
        let runtime = match self.system_runtime_title_id {
            None => zeros(8),
            Some(title_id) => u64_be_bytes(title_id.0),
        };
        let title = u64_be_bytes(self.title_id.0);
        let platform = u32_be_bytes(self.platform_data.spec_identifier());
        let group = u16_be_bytes(self.group_id);
        let first = flags + runtime + title + platform;
        crate::bytes::lemma_parts_of_concat4(flags, runtime, title, platform);
        crate::bytes::lemma_parts_of_concat(first, group);
        assert(image == first + group);
        crate::bytes::lemma_embedded_part(bytes, at, image, 0, 24);
        crate::bytes::lemma_embedded_part(bytes, at, image, 24, 2);
        assert(image.subrange(0, 24) == first);
        crate::bytes::lemma_embedded_part(bytes, at, first, 0, 4);
        crate::bytes::lemma_embedded_part(bytes, at, first, 4, 8);
        crate::bytes::lemma_embedded_part(bytes, at, first, 12, 8);
        crate::bytes::lemma_embedded_part(bytes, at, first, 20, 4);
        crate::bytes::lemma_embedded_byte(bytes, at, flags, 0);
        crate::bytes::lemma_embedded_byte(bytes, at, flags, 1);
        crate::bytes::lemma_embedded_byte(bytes, at, flags, 2);
        crate::bytes::lemma_embedded_byte(bytes, at, flags, 3);
        match self.system_runtime_title_id {
            None => {
                lemma_zeros_are_zero(bytes, at + 4);
            },
            Some(title_id) => {
                crate::bytes::lemma_be_u64_round_trip(bytes, at + 4, title_id.0);
            },
        }
        crate::bytes::lemma_be_u64_round_trip(bytes, at + 12, self.title_id.0);
        crate::bytes::lemma_be_u32_round_trip(bytes, at + 20, self.platform_data.spec_identifier());
        crate::bytes::lemma_be_u16_round_trip(bytes, at + 24, self.group_id);
    }

    /// The tail is read back from its 12 bytes, wherever they stand.
    pub proof fn lemma_parse_tail(self, bytes: Seq<u8>, at: int)
        requires
            0 <= at,
            at + 12 <= bytes.len(),
            bytes.subrange(at, at + 12) == self.spec_body_tail(),
        ensures
            TitleMetadataTail::spec_parse(bytes, at) == Ok::<TitleMetadataTail, TitleMetadataError>(
                self.spec_tail(),
            ),
    {
        let image = self.spec_body_tail();
        let access = u32_be_bytes(self.access_rights);
        let version = u16_be_bytes(self.title_version);
        let count = u16_be_bytes(self.content_chunk_entries.len() as u16);
        let boot = u16_be_bytes(self.boot_content_index);
        let first = access + version + count + boot;
        crate::bytes::lemma_parts_of_concat4(access, version, count, boot);
        crate::bytes::lemma_parts_of_concat(first, zeros(2));
        assert(image == first + zeros(2));
        crate::bytes::lemma_embedded_part(bytes, at, image, 0, 10);
        assert(image.subrange(0, 10) == first);
        crate::bytes::lemma_embedded_part(bytes, at, first, 0, 4);
        crate::bytes::lemma_embedded_part(bytes, at, first, 4, 2);
        crate::bytes::lemma_embedded_part(bytes, at, first, 6, 2);
        crate::bytes::lemma_embedded_part(bytes, at, first, 8, 2);
        crate::bytes::lemma_be_u32_round_trip(bytes, at, self.access_rights);
        crate::bytes::lemma_be_u16_round_trip(bytes, at + 4, self.title_version);
        crate::bytes::lemma_be_u16_round_trip(
            bytes,
            at + 6,
            self.content_chunk_entries.len() as u16,
        );
        crate::bytes::lemma_be_u16_round_trip(bytes, at + 8, self.boot_content_index);
    }
}

/// Eight zero bytes are the number zero.
pub proof fn lemma_zeros_are_zero(bytes: Seq<u8>, at: int)
    requires
        0 <= at,
        at + 8 <= bytes.len(),
        bytes.subrange(at, at + 8) == zeros(8),
    ensures
        be_u64_at(bytes, at) == 0,
{
    let part = bytes.subrange(at, at + 8);
    assert(part[0] == bytes[at] && part[1] == bytes[at + 1] && part[2] == bytes[at + 2] && part[3]
        == bytes[at + 3] && part[4] == bytes[at + 4] && part[5] == bytes[at + 5] && part[6]
        == bytes[at + 6] && part[7] == bytes[at + 7]);
}

impl TitleMetadataView {
    /// The bytes of a well-formed title metadata are as many as its size
    /// says.
    #[verifier::rlimit(50)]
    pub proof fn lemma_size(self)
        requires
            self.wf(),
        ensures
            self.spec_body().len() == 100,
            self.spec_serialize().len() == self.spec_size(),
            self.spec_size() <= u32::MAX,
    {
        self.signed_blob_header.lemma_size();
        lemma_entries_bytes_len(
            self.content_chunk_entries,
            self.content_chunk_entries.len() as int,
            self.spec_is_version_1(),
        );
        match self.version_1_extension {
            None => {},
            Some(extension) => {
                lemma_groups_bytes_len(extension.content_entries_groups@, 64);
            },
        }
    }

    /// The bytes of the extension, none without one.
    pub open spec fn spec_extension_bytes(self) -> Seq<u8> {
        match self.version_1_extension {
            None => Seq::empty(),
            Some(extension) => extension.spec_serialize(),
        }
    }

    /// Where the bytes of a title metadata stand at `pos`, each of its parts
    /// stands behind those before it.
    #[verifier::rlimit(50)]
    pub proof fn lemma_parts(self, bytes: Seq<u8>, pos: int)
        requires
            self.wf(),
            0 <= pos,
            pos + self.spec_size() <= bytes.len(),
            bytes.subrange(pos, pos + self.spec_size()) == self.spec_serialize(),
        ensures
            ({
                let at = pos + self.signed_blob_header.spec_size();
                let entries_at = at + 100 + self.spec_extension_bytes().len();
                let entries = spec_entries_bytes(
                    self.content_chunk_entries,
                    self.content_chunk_entries.len() as int,
                );
                &&& bytes.subrange(pos, at) == self.signed_blob_header.spec_serialize()
                &&& bytes.subrange(at, at + 26) == self.spec_body_head()
                &&& bytes.subrange(at + 26, at + 88) == self.platform_data.spec_area()
                &&& bytes.subrange(at + 88, at + 100) == self.spec_body_tail()
                &&& bytes.subrange(at + 100, entries_at) == self.spec_extension_bytes()
                &&& bytes.subrange(entries_at, entries_at + entries.len()) == entries
                &&& entries_at + entries.len() == pos + self.spec_size()
                &&& entries.len() == entry_size(self.spec_is_version_1())
                    * self.content_chunk_entries.len()
                &&& self.spec_extension_bytes().len() == if self.spec_is_version_1() {
                    V1_SIZE as int
                } else {
                    0
                }
            }),
    {
        self.lemma_size();
        self.signed_blob_header.lemma_size();
        let header = self.signed_blob_header.spec_serialize();
        let image = self.spec_serialize();
        let body = self.spec_body();
        let extension = self.spec_extension_bytes();
        let entries = spec_entries_bytes(
            self.content_chunk_entries,
            self.content_chunk_entries.len() as int,
        );
        let at = pos + header.len();
        assert(image == header + body + extension + entries);
        crate::bytes::lemma_parts_of_concat4(header, body, extension, entries);
        crate::bytes::lemma_embedded_part(bytes, pos, image, 0, header.len() as int);
        crate::bytes::lemma_embedded_part(bytes, pos, image, header.len() as int, 100);
        crate::bytes::lemma_embedded_part(
            bytes,
            pos,
            image,
            (header.len() + 100) as int,
            extension.len() as int,
        );
        crate::bytes::lemma_embedded_part(
            bytes,
            pos,
            image,
            (header.len() + 100 + extension.len()) as int,
            entries.len() as int,
        );
        crate::bytes::lemma_parts_of_concat3(
            self.spec_body_head(),
            self.platform_data.spec_area(),
            self.spec_body_tail(),
        );
        crate::bytes::lemma_embedded_part(bytes, at, body, 0, 26);
        crate::bytes::lemma_embedded_part(bytes, at, body, 26, 62);
        crate::bytes::lemma_embedded_part(bytes, at, body, 88, 12);
        lemma_entries_bytes_len(
            self.content_chunk_entries,
            self.content_chunk_entries.len() as int,
            self.spec_is_version_1(),
        );
        match self.version_1_extension {
            None => {},
            Some(value) => {
                lemma_groups_bytes_len(value.content_entries_groups@, 64);
            },
        }
    }

    /// A title metadata whose parts are read back is read back.
    pub proof fn lemma_parse_of_parts(self, bytes: Seq<u8>, pos: int)
        requires
            self.content_chunk_entries.len() <= MAX_CONTENT_ENTRIES,
            SignedBlobHeaderView::spec_parse(bytes, pos) == Ok::<
                (SignedBlobHeaderView, int),
                SignedBlobHeaderError,
            >((self.signed_blob_header, pos + self.signed_blob_header.spec_size())),
            TitleMetadataHead::spec_parse(bytes, pos + self.signed_blob_header.spec_size()) == Ok::<
                TitleMetadataHead,
                TitleMetadataError,
            >(self.spec_head()),
            TitleMetadataPlatformData::spec_parse_area(
                self.platform_data.spec_identifier(),
                self.platform_data.spec_flag(),
                bytes,
                pos + self.signed_blob_header.spec_size() + 26,
            ) == Ok::<TitleMetadataPlatformData, TitleMetadataError>(self.platform_data),
            TitleMetadataTail::spec_parse(bytes, pos + self.signed_blob_header.spec_size() + 88)
                == Ok::<TitleMetadataTail, TitleMetadataError>(self.spec_tail()),
            spec_parse_extension(
                byte_of_bool(self.spec_is_version_1()),
                bytes,
                pos + self.signed_blob_header.spec_size() + 100,
            ) == Ok::<Option<TitleMetadataV1>, TitleMetadataError>(self.version_1_extension),
            spec_parse_entries(
                bytes,
                pos + self.signed_blob_header.spec_size() + 100 + if self.spec_is_version_1() {
                    V1_SIZE as int
                } else {
                    0
                },
                self.spec_is_version_1(),
                self.content_chunk_entries.len(),
                Seq::empty(),
            ) == Ok::<Seq<TitleMetadataContentEntry>, TitleMetadataError>(
                self.content_chunk_entries,
            ),
        ensures
            Self::spec_parse(bytes, pos) == Ok::<(TitleMetadataView, int), TitleMetadataError>(
                (self, pos + self.spec_size()),
            ),
    {
        let count = self.content_chunk_entries.len();
        assert(self.spec_tail().number_of_content_entries == count);
        assert(entry_size(self.spec_is_version_1()) * count == if self.spec_is_version_1() {
            48 * count
        } else {
            36 * count
        });
    }

    /// A title metadata that was read is well formed.
    pub proof fn lemma_parsed_is_well_formed(bytes: Seq<u8>, pos: int)
        requires
            0 <= pos,
            Self::spec_parse(bytes, pos) is Ok,
        ensures
            Self::spec_parse(bytes, pos).unwrap().0.wf(),
    {
        SignedBlobHeaderView::lemma_parsed_is_well_formed(bytes, pos);
        let at = SignedBlobHeaderView::spec_parse(bytes, pos).unwrap().1;
        let head = TitleMetadataHead::spec_parse(bytes, at).unwrap();
        let tail = TitleMetadataTail::spec_parse(bytes, at + 88).unwrap();
        let version_1 = spec_parse_extension(head.format_version, bytes, at + 100).unwrap() is Some;
        let entries_at = at + 100 + if version_1 {
            V1_SIZE as int
        } else {
            0
        };
        lemma_entries_parsed(
            bytes,
            entries_at,
            version_1,
            tail.number_of_content_entries as nat,
            Seq::empty(),
        );
    }

    /// A well-formed title metadata is read back from its bytes, wherever
    /// they stand and whatever follows them; so writing what was read from
    /// the bytes of a title metadata gives those bytes again.
    pub proof fn lemma_parse_serialize(self, bytes: Seq<u8>, pos: int)
        requires
            self.wf(),
            0 <= pos,
            pos + self.spec_size() <= bytes.len(),
            bytes.subrange(pos, pos + self.spec_size()) == self.spec_serialize(),
        ensures
            Self::spec_parse(bytes, pos) == Ok::<(TitleMetadataView, int), TitleMetadataError>(
                (self, pos + self.spec_size()),
            ),
            Self::spec_parse(bytes, pos).unwrap().0.spec_serialize() == bytes.subrange(
                pos,
                pos + self.spec_size(),
            ),
    {
        self.lemma_parts(bytes, pos);
        self.lemma_size();
        self.signed_blob_header.lemma_size();
        let at = pos + self.signed_blob_header.spec_size();
        let version_1 = self.spec_is_version_1();
        let entries_at = at + 100 + self.spec_extension_bytes().len();
        self.signed_blob_header.lemma_parse_serialize(bytes, pos);
        self.lemma_parse_head(bytes, at);
        self.platform_data.lemma_parse_area(bytes, at + 26);
        self.lemma_parse_tail(bytes, at + 88);
        match self.version_1_extension {
            None => {},
            Some(value) => {
                value.lemma_parse_serialize(bytes, at + 100);
            },
        }
        lemma_entries_parse_serialize(self.content_chunk_entries, bytes, entries_at, version_1, 0);
        assert(self.content_chunk_entries.subrange(0, 0) =~= Seq::empty());
        assert(entry_size(version_1) * 0 == 0);
        self.lemma_parse_of_parts(bytes, pos);
    }
}

} // verus!
