//! The tickets of the consoles before the Nintendo Switch.

use vstd::prelude::*;
use crate::bytes::{
    array_of, array_of_seq, be_u16_at, be_u32_at, be_u64_at, push_bytes, push_u16_be,
    push_u32_be, push_u64_be, push_u8, push_zeros, u16_be_bytes, u32_be_bytes, u64_be_bytes,
    zeros,
};
use crate::cbc_stream::AesCbcStream;
use crate::crypto::{aes128_cbc_decrypt, aes128_cbc_decrypted};
use crate::extensions::{byte_of_bool, wrote_all, Utf8Error};
use crate::signed_blob_header::{SignedBlobHeader, SignedBlobHeaderError, SignedBlobHeaderView};
use crate::stream::{Stream, StreamError};
use crate::ticket::v1::{PreSwitchTicketV1, PreSwitchTicketV1Error, PreSwitchTicketV1View};
use crate::title_id::TitleId;
use crate::stream_view::StreamView;
use crate::title_metadata::content_selector::{spec_select, ContentSelector};
use crate::title_metadata::{TitleMetadata, TitleMetadataError};
use crate::wii_common_key::{spec_common_key, CommonKeyKindError, WiiCommonKeyKind};

pub mod v1;

verus! {

broadcast use vstd::array::group_array_axioms;

/// The number of bytes of a ticket between its signed blob header and its
/// V1 extension.
pub const BODY_SIZE: u32 = 292;

/// The different cryptographic methods that can be used to decrypt the
/// content stored inside a title.
#[derive(Debug, Clone, Copy, PartialEq, Eq, Structural)]
pub enum CryptographicMethod {
    /// The method used in the Nintendo Wii (and Wii U vWii) platform.
    Wii,
}

/// Manifest data regard the ownership of a title and its permissions over
/// the hardware.
///
/// Only compatible with versions zero (V0) and one (V1), present on the
/// Nintendo Wii, Wii U, DSi and 3DS.
#[derive(Debug, Clone, PartialEq, Eq)]
pub struct PreSwitchTicket {
    /// Header with data to prove the authenticity that this data
    /// has being created by an authorized entity.
    pub signed_blob_header: SignedBlobHeader,
    /// Public key emited by the "ticketing server".
    pub ecc_public_key: [u8; 60],
    /// Version of the certificate revocation list used for the Certificate
    /// Authority (CA) certificate.
    pub certificate_authority_certificate_revocation_list_version: u8,
    /// Version of the certificate revocation list used for the signer
    /// certificate.
    pub signer_certificate_revocation_list_version: u8,
    /// Encrypted title key, this symetric key (after decryption)
    /// is used to encrypt the title content.
    pub encrypted_title_key: [u8; 16],
    /// The ID of the ticket.
    pub ticket_id: u64,
    /// The ID of the device associated with this ticket,
    /// `None` is the ticket is valid for all consoles.
    pub device_id: Option<u32>,
    /// The ID of the associated title.
    pub title_id: TitleId,
    /// The permissions of the "System App" to access the contents of the title.
    pub system_app_content_access: PreSwitchTicketSystemAppContentAccessFlags,
    /// The version of the title.
    pub title_version: u16,
    /// See [Self::permitted_generic_title_id_mask].
    pub permitted_generic_title_id: u32,
    /// A mask over the title ID whose use is not known.
    pub permitted_generic_title_id_mask: u32,
    /// The license of the title.
    pub license: PreTicketLicense,
    /// The index of the common key to be used to decrypt the title content.
    pub common_key_kind_index: u8,
    /// Audit or revision of the title. The meaning is still not clear.
    pub audit: u8,
    /// Set of bitflags regard if a content can be accessed (1) or not (0).
    pub content_access_permissions: [u8; 64],
    /// A set of limits over the use of the title.
    pub limit_entries: [PreSwitchTicketLimitEntry; 8],
    /// Extra data only present on the v1 version of a ticket.
    pub version_1_extension: Option<PreSwitchTicketV1>,
}

/// What a `PreSwitchTicket` holds.
pub struct PreSwitchTicketView {
    /// The signed blob header.
    pub signed_blob_header: SignedBlobHeaderView,
    /// The first 114 bytes behind the header.
    pub head: PreSwitchTicketHead,
    /// Audit or revision of the title.
    pub audit: u8,
    /// The access permissions of the contents.
    pub content_access_permissions: [u8; 64],
    /// The limits over the use of the title.
    pub limit_entries: [PreSwitchTicketLimitEntry; 8],
    /// The V1 extension.
    pub version_1_extension: Option<PreSwitchTicketV1View>,
}

/// What stands in the first 114 bytes behind the signed blob header of a
/// ticket, but for the version of the format.
#[derive(Debug, Clone, Copy, PartialEq, Eq)]
pub struct PreSwitchTicketHead {
    /// Public key emited by the "ticketing server".
    pub ecc_public_key: [u8; 60],
    /// Version of the revocation list of the certificate authority.
    pub certificate_authority_certificate_revocation_list_version: u8,
    /// Version of the revocation list of the signer.
    pub signer_certificate_revocation_list_version: u8,
    /// The encrypted title key.
    pub encrypted_title_key: [u8; 16],
    /// The ID of the ticket.
    pub ticket_id: u64,
    /// The ID of the device; `None` for all consoles.
    pub device_id: Option<u32>,
    /// The ID of the title.
    pub title_id: TitleId,
    /// The permissions of the "System App".
    pub system_app_content_access: PreSwitchTicketSystemAppContentAccessFlags,
    /// The version of the title.
    pub title_version: u16,
    /// The permitted generic title ID.
    pub permitted_generic_title_id: u32,
    /// The mask of the permitted generic title ID.
    pub permitted_generic_title_id_mask: u32,
    /// The license of the title.
    pub license: PreTicketLicense,
    /// The index of the common key.
    pub common_key_kind_index: u8,
}

/// Why a ticket could not be read or used.
#[derive(Debug, Clone, Copy, PartialEq, Eq, Structural)]
pub enum PreSwitchTicketError {
    /// The stream failed.
    IoError(StreamError),
    /// Text is not UTF-8.
    FromUtf8Error(Utf8Error),
    /// The version of the ticket is unknown.
    UnknownTicketVersion(u8),
    /// The index of the common key is unknown.
    UnknownCommonKeyKindIndex(u8),
    /// The common key could not be chosen.
    CommonKeyError(CommonKeyKindError),
    /// The kind of a limit entry is none of 0, 1, 2 and 3.
    UnknownLimitEntryType(u32),
    /// The signed blob header could not be read.
    SignedBlobHeaderError(SignedBlobHeaderError),
    /// The license is neither 0 nor 1.
    InvalidLicenseKindIdentifierValue(u8),
    /// The version is neither 0 nor 1.
    IncompatibleVersion(u8),
    /// The cipher refused the encrypted title key.
    CryptographicUnpadError,
    /// The V1 extension could not be read.
    TicketV1Error(PreSwitchTicketV1Error),
    /// The title metadata does not hold the content.
    TitleMetadataError(TitleMetadataError),
}

/// Bitflags that indicate if a content (given its content index) can be
/// accessed by the "System App": bit `i` stands for the content with index
/// `i`.
#[derive(Debug, Clone, Copy, PartialEq, Eq, Structural)]
pub struct PreSwitchTicketSystemAppContentAccessFlags(pub u16);

impl PreSwitchTicketSystemAppContentAccessFlags {
    /// The flags with the given bits. Every bit is a flag, so there always
    /// are such flags.
    pub fn from_bits(bits: u16) -> (flags: Option<Self>)
        ensures
            flags == Some(PreSwitchTicketSystemAppContentAccessFlags(bits)),
    {
        Some(PreSwitchTicketSystemAppContentAccessFlags(bits))
    }

    /// The bits of the flags.
    pub fn bits(&self) -> (bits: u16)
        ensures
            bits == self.0,
    {
        self.0
    }

    /// The flag of the content with the given index.
    pub fn content(index: u8) -> (flags: Self)
        requires
            index < 16,
        ensures
            flags.0 == 1u16 << index,
    {
        PreSwitchTicketSystemAppContentAccessFlags(1u16 << index)
    }

    /// Whether every flag of `other` is set.
    pub fn contains(&self, other: Self) -> (result: bool)
        ensures
            result == (self.0 & other.0 == other.0),
    {
        self.0 & other.0 == other.0
    }
}

/// The kind of license used in a ticket.
#[derive(Debug, Clone, Copy, PartialEq, Eq, Structural)]
pub enum PreTicketLicense {
    /// The normal license of a Ticket.
    Normal,
    /// The ticket can be "exported".
    CanBeExported,
}

impl PreTicketLicense {
    /// The license that an identifier names; none above 1.
    pub open spec fn spec_new(identifier: u8) -> Option<Self> {
        if identifier == 0 {
            Some(PreTicketLicense::Normal)
        } else if identifier == 1 {
            Some(PreTicketLicense::CanBeExported)
        } else {
            None
        }
    }

    /// The identifier of the license.
    pub open spec fn spec_identifier(self) -> u8 {
        match self {
            PreTicketLicense::Normal => 0,
            PreTicketLicense::CanBeExported => 1,
        }
    }

    /// The license that an identifier names.
    pub fn new(identifier: u8) -> (result: Result<Self, PreSwitchTicketError>)
        ensures
            result == match Self::spec_new(identifier) {
                Some(license) => Ok::<Self, PreSwitchTicketError>(license),
                None => Err::<Self, PreSwitchTicketError>(
                    PreSwitchTicketError::InvalidLicenseKindIdentifierValue(identifier),
                ),
            },
    {
        if identifier == 0 {
            Ok(PreTicketLicense::Normal)
        } else if identifier == 1 {
            Ok(PreTicketLicense::CanBeExported)
        } else {
            Err(PreSwitchTicketError::InvalidLicenseKindIdentifierValue(identifier))
        }
    }

    /// Append the identifier of the license.
    pub fn dump(&self, out: &mut Vec<u8>)
        ensures
            final(out)@ == old(out)@ + seq![self.spec_identifier()],
    {
        push_u8(
            out,
            match self {
                PreTicketLicense::Normal => 0,
                PreTicketLicense::CanBeExported => 1,
            },
        );
    }
}

/// Limits over the use of a ticket.
#[derive(Debug, Clone, Copy, PartialEq, Eq, Structural)]
pub enum PreSwitchTicketLimitEntry {
    /// The title doesn't have any limits.
    NoLimit {
        /// The kind that the entry was stored under: no limit has been seen
        /// as 0 and as 3.
        kind: u32,
    },
    /// The title can only be executed a deteminate number of minutes.
    TimeLimit {
        /// The number of minutes that can be played.
        minutes: u32,
    },
    /// The title can only be launched a determinate number of times.
    LaunchLimit {
        /// The number of times the title can be launched.
        number_of_launches: u32,
    },
}

impl PreSwitchTicketLimitEntry {
    /// The limit of a kind with its value; none for a kind above 3.
    pub open spec fn spec_new(kind: u32, associated_value: u32) -> Option<Self> {
        if kind == 0 || kind == 3 {
            Some(PreSwitchTicketLimitEntry::NoLimit { kind })
        } else if kind == 1 {
            Some(PreSwitchTicketLimitEntry::TimeLimit { minutes: associated_value })
        } else if kind == 2 {
            Some(PreSwitchTicketLimitEntry::LaunchLimit { number_of_launches: associated_value })
        } else {
            None
        }
    }

    /// The kind that the limit is stored under.
    pub open spec fn spec_kind(self) -> u32 {
        match self {
            PreSwitchTicketLimitEntry::NoLimit { kind } => kind,
            PreSwitchTicketLimitEntry::TimeLimit { .. } => 1,
            PreSwitchTicketLimitEntry::LaunchLimit { .. } => 2,
        }
    }

    /// The value that the limit is stored with: zero for no limit.
    pub open spec fn spec_value(self) -> u32 {
        match self {
            PreSwitchTicketLimitEntry::NoLimit { .. } => 0,
            PreSwitchTicketLimitEntry::TimeLimit { minutes } => minutes,
            PreSwitchTicketLimitEntry::LaunchLimit { number_of_launches } => number_of_launches,
        }
    }

    /// A limit without limit is stored as 0 or as 3: only such a
    /// limit is read back as it was written.
    pub open spec fn wf(self) -> bool {
        match self {
            PreSwitchTicketLimitEntry::NoLimit { kind } => kind == 0 || kind == 3,
            _ => true,
        }
    }

    /// The eight bytes of the limit: its kind and its value.
    pub open spec fn spec_serialize(self) -> Seq<u8> {
        u32_be_bytes(self.spec_kind()) + u32_be_bytes(self.spec_value())
    }

    /// The limit of a kind with its value.
    pub fn new(kind: u32, associated_value: u32) -> (result: Result<Self, PreSwitchTicketError>)
        ensures
            result == match Self::spec_new(kind, associated_value) {
                Some(limit) => Ok::<Self, PreSwitchTicketError>(limit),
                None => Err::<Self, PreSwitchTicketError>(
                    PreSwitchTicketError::UnknownLimitEntryType(kind),
                ),
            },
    {
        if kind == 0 || kind == 3 {
            Ok(PreSwitchTicketLimitEntry::NoLimit { kind })
        } else if kind == 1 {
            Ok(PreSwitchTicketLimitEntry::TimeLimit { minutes: associated_value })
        } else if kind == 2 {
            Ok(PreSwitchTicketLimitEntry::LaunchLimit { number_of_launches: associated_value })
        } else {
            Err(PreSwitchTicketError::UnknownLimitEntryType(kind))
        }
    }

    /// Append the bytes of the limit.
    pub fn dump(&self, out: &mut Vec<u8>)
        ensures
            final(out)@ == old(out)@ + self.spec_serialize(),
            self.spec_serialize().len() == 8,
    {
        let ghost before = out@;
        match self {
            PreSwitchTicketLimitEntry::NoLimit { kind } => {
                push_u32_be(out, *kind);
                push_u32_be(out, 0);
            },
            PreSwitchTicketLimitEntry::TimeLimit { minutes } => {
                push_u32_be(out, 1);
                push_u32_be(out, *minutes);
            },
            PreSwitchTicketLimitEntry::LaunchLimit { number_of_launches } => {
                push_u32_be(out, 2);
                push_u32_be(out, *number_of_launches);
            },
        }
        assert(out@ =~= before + self.spec_serialize());
    }
}

/// A limit is the one that its kind and its value make.
pub proof fn lemma_limit_entry_round_trip(limit: PreSwitchTicketLimitEntry)
    requires
        limit.wf(),
    ensures
        PreSwitchTicketLimitEntry::spec_new(limit.spec_kind(), limit.spec_value()) == Some(limit),
{
}

impl PreSwitchTicketHead {
    /// The head that stands at `at` in `bytes`, or why there is none: the
    /// license has to be 0 or 1.
    pub open spec fn spec_parse(bytes: Seq<u8>, at: int) -> Result<
        PreSwitchTicketHead,
        PreSwitchTicketError,
    > {
        if at + 113 > bytes.len() {
            Err(PreSwitchTicketError::IoError(StreamError::UnexpectedEof))
        } else {
            match PreTicketLicense::spec_new(bytes[at + 112]) {
                None => Err(
                    PreSwitchTicketError::InvalidLicenseKindIdentifierValue(bytes[at + 112]),
                ),
                Some(license) => {
                    if at + 114 > bytes.len() {
                        Err(PreSwitchTicketError::IoError(StreamError::UnexpectedEof))
                    } else {
                        Ok(
                            PreSwitchTicketHead {
                                ecc_public_key: array_of::<60>(bytes.subrange(at, at + 60)),
                                certificate_authority_certificate_revocation_list_version: bytes[at
                                    + 61],
                                signer_certificate_revocation_list_version: bytes[at + 62],
                                encrypted_title_key: array_of::<16>(
                                    bytes.subrange(at + 63, at + 79),
                                ),
                                ticket_id: be_u64_at(bytes, at + 80),
                                device_id: if be_u32_at(bytes, at + 88) == 0 {
                                    None
                                } else {
                                    Some(be_u32_at(bytes, at + 88))
                                },
                                title_id: TitleId(be_u64_at(bytes, at + 92)),
                                system_app_content_access: PreSwitchTicketSystemAppContentAccessFlags(
                                    be_u16_at(bytes, at + 100),
                                ),
                                title_version: be_u16_at(bytes, at + 102),
                                permitted_generic_title_id: be_u32_at(bytes, at + 104),
                                permitted_generic_title_id_mask: be_u32_at(bytes, at + 108),
                                license,
                                common_key_kind_index: bytes[at + 113],
                            },
                        )
                    }
                },
            }
        }
    }

    /// The first 80 bytes of the head, with the version of the format among
    /// them: the key, the versions, the encrypted title key and a zero.
    pub open spec fn spec_keys(self, version_1: bool) -> Seq<u8> {
        self.ecc_public_key@ + seq![
            byte_of_bool(version_1),
            self.certificate_authority_certificate_revocation_list_version,
            self.signer_certificate_revocation_list_version,
        ] + self.encrypted_title_key@ + zeros(1)
    }

    /// The 34 bytes of the head behind the keys: the IDs, the access of the
    /// system app, the version of the title, the permitted title ID and its
    /// mask, the license and the index of the common key.
    pub open spec fn spec_ids(self) -> Seq<u8> {
        u64_be_bytes(self.ticket_id) + u32_be_bytes(
            match self.device_id {
                None => 0,
                Some(device_id) => device_id,
            },
        ) + u64_be_bytes(self.title_id.0) + u16_be_bytes(self.system_app_content_access.0)
            + u16_be_bytes(self.title_version) + u32_be_bytes(self.permitted_generic_title_id)
            + u32_be_bytes(self.permitted_generic_title_id_mask) + seq![
            self.license.spec_identifier(),
            self.common_key_kind_index,
        ]
    }

    /// Read the head, and give the version of the format beside it.
    #[verifier::rlimit(50)]
    pub fn new(stream: &mut Stream) -> (result: Result<(Self, u8), PreSwitchTicketError>)
        requires
            old(stream).wf(),
        ensures
            final(stream).same_content(old(stream)),
            match Self::spec_parse(old(stream).bytes(), old(stream).pos() as int) {
                Ok(head) => {
                    &&& result == Ok::<(Self, u8), PreSwitchTicketError>(
                        (head, old(stream).bytes()[old(stream).pos() + 60]),
                    )
                    &&& final(stream).pos() == old(stream).pos() + 114
                    &&& final(stream).pos() <= final(stream).size()
                },
                Err(error) => result == Err::<(Self, u8), PreSwitchTicketError>(error),
            },
    {
        let ecc_public_key = match stream.read_array::<60>() {
            Ok(value) => value,
            Err(error) => return Err(PreSwitchTicketError::IoError(error)),
        };
        let format_version = match stream.read_u8() {
            Ok(value) => value,
            Err(error) => return Err(PreSwitchTicketError::IoError(error)),
        };
        let certificate_authority_certificate_revocation_list_version = match stream.read_u8() {
            Ok(value) => value,
            Err(error) => return Err(PreSwitchTicketError::IoError(error)),
        };
        let signer_certificate_revocation_list_version = match stream.read_u8() {
            Ok(value) => value,
            Err(error) => return Err(PreSwitchTicketError::IoError(error)),
        };
        let encrypted_title_key = match stream.read_array::<16>() {
            Ok(value) => value,
            Err(error) => return Err(PreSwitchTicketError::IoError(error)),
        };
        // One reserved byte.
        match stream.skip(1) {
            Ok(()) => {},
            Err(error) => return Err(PreSwitchTicketError::IoError(error)),
        }
        let ticket_id = match stream.read_u64_be() {
            Ok(value) => value,
            Err(error) => return Err(PreSwitchTicketError::IoError(error)),
        };
        let device_id = match stream.read_u32_be() {
            Ok(value) => if value == 0 {
                None
            } else {
                Some(value)
            },
            Err(error) => return Err(PreSwitchTicketError::IoError(error)),
        };
        let title_id = match stream.read_u64_be() {
            Ok(value) => TitleId::new(value),
            Err(error) => return Err(PreSwitchTicketError::IoError(error)),
        };
        let system_app_content_access = match stream.read_u16_be() {
            Ok(value) => PreSwitchTicketSystemAppContentAccessFlags(value),
            Err(error) => return Err(PreSwitchTicketError::IoError(error)),
        };
        let title_version = match stream.read_u16_be() {
            Ok(value) => value,
            Err(error) => return Err(PreSwitchTicketError::IoError(error)),
        };
        let permitted_generic_title_id = match stream.read_u32_be() {
            Ok(value) => value,
            Err(error) => return Err(PreSwitchTicketError::IoError(error)),
        };
        let permitted_generic_title_id_mask = match stream.read_u32_be() {
            Ok(value) => value,
            Err(error) => return Err(PreSwitchTicketError::IoError(error)),
        };
        let license = match stream.read_u8() {
            Ok(value) => match PreTicketLicense::new(value) {
                Ok(license) => license,
                Err(error) => return Err(error),
            },
            Err(error) => return Err(PreSwitchTicketError::IoError(error)),
        };
        let common_key_kind_index = match stream.read_u8() {
            Ok(value) => value,
            Err(error) => return Err(PreSwitchTicketError::IoError(error)),
        };
        Ok(
            (
                PreSwitchTicketHead {
                    ecc_public_key,
                    certificate_authority_certificate_revocation_list_version,
                    signer_certificate_revocation_list_version,
                    encrypted_title_key,
                    ticket_id,
                    device_id,
                    title_id,
                    system_app_content_access,
                    title_version,
                    permitted_generic_title_id,
                    permitted_generic_title_id_mask,
                    license,
                    common_key_kind_index,
                },
                format_version,
            ),
        )
    }

    /// Append the first 80 bytes of the head.
    fn dump_keys(&self, version_1: bool, out: &mut Vec<u8>)
        ensures
            final(out)@ == old(out)@ + self.spec_keys(version_1),
            self.spec_keys(version_1).len() == 80,
    {
        let mut keys: Vec<u8> = Vec::new();
        push_bytes(&mut keys, self.ecc_public_key.as_slice());
        let ghost first = keys@;
        keys.push(
            if version_1 {
                1
            } else {
                0
            },
        );
        keys.push(self.certificate_authority_certificate_revocation_list_version);
        keys.push(self.signer_certificate_revocation_list_version);
        assert(keys@ =~= first + seq![
            byte_of_bool(version_1),
            self.certificate_authority_certificate_revocation_list_version,
            self.signer_certificate_revocation_list_version,
        ]);
        push_bytes(&mut keys, self.encrypted_title_key.as_slice());
        push_zeros(&mut keys, 1);
        assert(keys@ == self.spec_keys(version_1));
        push_bytes(out, keys.as_slice());
    }

    /// Append the 34 bytes of the head behind the keys.
    fn dump_ids(&self, out: &mut Vec<u8>)
        ensures
            final(out)@ == old(out)@ + self.spec_ids(),
            self.spec_ids().len() == 34,
    {
        let mut ids: Vec<u8> = Vec::new();
        push_u64_be(&mut ids, self.ticket_id);
        push_u32_be(
            &mut ids,
            match self.device_id {
                None => 0,
                Some(device_id) => device_id,
            },
        );
        push_u64_be(&mut ids, self.title_id.inner());
        push_u16_be(&mut ids, self.system_app_content_access.bits());
        push_u16_be(&mut ids, self.title_version);
        push_u32_be(&mut ids, self.permitted_generic_title_id);
        push_u32_be(&mut ids, self.permitted_generic_title_id_mask);
        let ghost first = ids@;
        self.license.dump(&mut ids);
        ids.push(self.common_key_kind_index);
        assert(ids@ =~= first + seq![self.license.spec_identifier(), self.common_key_kind_index]);
        assert(ids@ == self.spec_ids());
        push_bytes(out, ids.as_slice());
    }
}

/// The `remaining` limit entries from `at` on, behind the entries `read`
/// that were read before, or why there are none.
pub open spec fn spec_parse_limits(
    bytes: Seq<u8>,
    at: int,
    remaining: nat,
    read: Seq<PreSwitchTicketLimitEntry>,
) -> Result<Seq<PreSwitchTicketLimitEntry>, PreSwitchTicketError>
    decreases remaining,
{
    if remaining == 0 {
        Ok(read)
    } else if at + 8 > bytes.len() {
        Err(PreSwitchTicketError::IoError(StreamError::UnexpectedEof))
    } else {
        match PreSwitchTicketLimitEntry::spec_new(be_u32_at(bytes, at), be_u32_at(bytes, at + 4)) {
            None => Err(PreSwitchTicketError::UnknownLimitEntryType(be_u32_at(bytes, at))),
            Some(limit) => spec_parse_limits(
                bytes,
                at + 8,
                (remaining - 1) as nat,
                read.push(limit),
            ),
        }
    }
}

/// The limit entries that were read are well formed, and there are as many
/// as were asked for, behind those that were read before.
pub proof fn lemma_limits_parsed(
    bytes: Seq<u8>,
    at: int,
    remaining: nat,
    read: Seq<PreSwitchTicketLimitEntry>,
)
    requires
        forall|i: int| 0 <= i < read.len() ==> (#[trigger] read[i]).wf(),
        spec_parse_limits(bytes, at, remaining, read) is Ok,
    ensures
        forall|i: int|
            0 <= i < spec_parse_limits(bytes, at, remaining, read).unwrap().len() ==> (
            #[trigger] spec_parse_limits(bytes, at, remaining, read).unwrap()[i]).wf(),
        spec_parse_limits(bytes, at, remaining, read).unwrap().len() == read.len() + remaining,
    decreases remaining,
{
    if remaining > 0 {
        let limit = PreSwitchTicketLimitEntry::spec_new(
            be_u32_at(bytes, at),
            be_u32_at(bytes, at + 4),
        ).unwrap();
        let more = read.push(limit);
        assert forall|i: int| 0 <= i < more.len() implies (#[trigger] more[i]).wf() by {
            if i < read.len() {
                assert(more[i] == read[i]);
            }
        }
        lemma_limits_parsed(bytes, at + 8, (remaining - 1) as nat, more);
    }
}

/// The bytes of the first `count` limit entries, one behind the other.
pub open spec fn spec_limits_bytes(limits: Seq<PreSwitchTicketLimitEntry>, count: int) -> Seq<u8>
    decreases count,
{
    if count <= 0 {
        Seq::empty()
    } else {
        spec_limits_bytes(limits, count - 1) + limits[count - 1].spec_serialize()
    }
}

/// The bytes of `count` limit entries are 8 bytes each.
pub proof fn lemma_limits_bytes_len(limits: Seq<PreSwitchTicketLimitEntry>, count: int)
    requires
        0 <= count <= limits.len(),
    ensures
        spec_limits_bytes(limits, count).len() == 8 * count,
    decreases count,
{
    if count > 0 {
        lemma_limits_bytes_len(limits, count - 1);
        let before = spec_limits_bytes(limits, count - 1);
        let last = limits[count - 1].spec_serialize();
        assert(spec_limits_bytes(limits, count) == before + last);
        assert((before + last).len() == before.len() + last.len());
    }
}

/// The audit byte and the access permissions of the contents, which stand
/// 47 bytes behind `at`, where the ticket reaches that far.
pub open spec fn spec_parse_permissions(bytes: Seq<u8>, at: int) -> Result<
    (u8, [u8; 64]),
    PreSwitchTicketError,
> {
    if at + 112 > bytes.len() {
        Err(PreSwitchTicketError::IoError(StreamError::UnexpectedEof))
    } else {
        Ok((bytes[at + 47], array_of::<64>(bytes.subrange(at + 48, at + 112))))
    }
}

/// The V1 extension that stands at `at` where the version is 1, none where
/// it is 0; another version is not compatible.
pub open spec fn spec_parse_extension(format_version: u8, bytes: Seq<u8>, at: int) -> Result<
    (Option<PreSwitchTicketV1View>, int),
    PreSwitchTicketError,
> {
    if format_version == 0 {
        Ok((None, at))
    } else if format_version == 1 {
        match PreSwitchTicketV1View::spec_parse(bytes, at) {
            Err(error) => Err(PreSwitchTicketError::TicketV1Error(error)),
            Ok((extension, end)) => Ok((Some(extension), end)),
        }
    } else {
        Err(PreSwitchTicketError::IncompatibleVersion(format_version))
    }
}

/// What an optional extension holds.
pub open spec fn extension_view(extension: Option<PreSwitchTicketV1>) -> Option<
    PreSwitchTicketV1View,
> {
    match extension {
        None => None,
        Some(extension) => Some(extension@),
    }
}

impl View for PreSwitchTicket {
    type V = PreSwitchTicketView;

    open spec fn view(&self) -> PreSwitchTicketView {
        PreSwitchTicketView {
            signed_blob_header: self.signed_blob_header@,
            head: PreSwitchTicketHead {
                ecc_public_key: self.ecc_public_key,
                certificate_authority_certificate_revocation_list_version: self.certificate_authority_certificate_revocation_list_version,
                signer_certificate_revocation_list_version: self.signer_certificate_revocation_list_version,
                encrypted_title_key: self.encrypted_title_key,
                ticket_id: self.ticket_id,
                device_id: self.device_id,
                title_id: self.title_id,
                system_app_content_access: self.system_app_content_access,
                title_version: self.title_version,
                permitted_generic_title_id: self.permitted_generic_title_id,
                permitted_generic_title_id_mask: self.permitted_generic_title_id_mask,
                license: self.license,
                common_key_kind_index: self.common_key_kind_index,
            },
            audit: self.audit,
            content_access_permissions: self.content_access_permissions,
            limit_entries: self.limit_entries,
            version_1_extension: extension_view(self.version_1_extension),
        }
    }
}

impl PreSwitchTicketView {
    /// Whether the ticket is of version 1.
    pub open spec fn spec_is_version_1(self) -> bool {
        self.version_1_extension is Some
    }

    /// What is written is read back: the header is well formed, a ticket
    /// for all consoles is not spelled with the device ID zero, every limit
    /// is well formed, and so is the extension; and the size fits 32 bits.
    pub open spec fn wf(self) -> bool {
        &&& self.signed_blob_header.wf()
        &&& self.head.device_id != Some(0u32)
        &&& forall|i: int| 0 <= i < 8 ==> (#[trigger] self.limit_entries@[i]).wf()
        &&& self.version_1_extension is Some ==> self.version_1_extension.unwrap().wf()
        &&& self.spec_size() <= u32::MAX
    }

    /// The size of the V1 extension, nothing without one.
    pub open spec fn spec_extension_size(self) -> int {
        match self.version_1_extension {
            None => 0,
            Some(extension) => extension.spec_size(),
        }
    }

    /// The size of the ticket in bytes.
    pub open spec fn spec_size(self) -> int {
        BODY_SIZE + self.signed_blob_header.spec_size() + self.spec_extension_size()
    }

    /// The 114 bytes between the head and the limits: 47 zeros, the audit
    /// byte, the access permissions, and two zeros.
    pub open spec fn spec_permissions(self) -> Seq<u8> {
        zeros(47) + seq![self.audit] + self.content_access_permissions@ + zeros(2)
    }

    /// The 292 bytes between the header and the extension.
    pub open spec fn spec_body(self) -> Seq<u8> {
        self.head.spec_keys(self.spec_is_version_1()) + self.head.spec_ids()
            + self.spec_permissions() + spec_limits_bytes(self.limit_entries@, 8)
    }

    /// The bytes of the extension, none without one.
    pub open spec fn spec_extension_bytes(self) -> Seq<u8> {
        match self.version_1_extension {
            None => Seq::empty(),
            Some(extension) => extension.spec_serialize(),
        }
    }

    /// The bytes of the ticket: the header, the body, and the extension
    /// where there is one.
    pub open spec fn spec_serialize(self) -> Seq<u8> {
        self.signed_blob_header.spec_serialize() + self.spec_body() + self.spec_extension_bytes()
    }

    /// The ticket that stands at `pos` in `bytes` and the position behind
    /// it, or why there is none. Its parts are read in their order, and the
    /// first that fails gives the error.
    pub open spec fn spec_parse(bytes: Seq<u8>, pos: int) -> Result<
        (PreSwitchTicketView, int),
        PreSwitchTicketError,
    > {
        match SignedBlobHeaderView::spec_parse(bytes, pos) {
            Err(error) => Err(PreSwitchTicketError::SignedBlobHeaderError(error)),
            Ok((signed_blob_header, at)) => match PreSwitchTicketHead::spec_parse(bytes, at) {
                Err(error) => Err(error),
                Ok(head) => match spec_parse_permissions(bytes, at + 114) {
                    Err(error) => Err(error),
                    Ok((audit, content_access_permissions)) => match spec_parse_limits(
                        bytes,
                        at + 228,
                        8,
                        Seq::empty(),
                    ) {
                        Err(error) => Err(error),
                        Ok(limits) => match spec_parse_extension(bytes[at + 60], bytes, at + 292) {
                            Err(error) => Err(error),
                            Ok((version_1_extension, end)) => Ok(
                                (
                                    PreSwitchTicketView {
                                        signed_blob_header,
                                        head,
                                        audit,
                                        content_access_permissions,
                                        limit_entries: array_of_seq::<
                                            PreSwitchTicketLimitEntry,
                                            8,
                                        >(limits),
                                        version_1_extension,
                                    },
                                    end,
                                ),
                            ),
                        },
                    },
                },
            },
        }
    }
}

impl PreSwitchTicket {
    /// What is written is read back.
    pub open spec fn wf(&self) -> bool {
        self@.wf()
    }

    /// Whether the ticket is well formed, so that it can be written.
    #[verifier::loop_isolation(false)]
    pub fn is_well_formed(&self) -> (well_formed: bool)
        ensures
            well_formed == self.wf(),
    {
        if !self.signed_blob_header.is_well_formed() {
            return false;
        }
        match self.device_id {
            Some(device_id) => {
                if device_id == 0 {
                    return false;
                }
            },
            None => {},
        }
        let mut i: usize = 0;
        while i < 8
            invariant
                i <= 8,
                forall|j: int| 0 <= j < i ==> (#[trigger] self.limit_entries@[j]).wf(),
            decreases 8 - i,
        {
            match self.limit_entries[i] {
                PreSwitchTicketLimitEntry::NoLimit { kind } => {
                    if kind != 0 && kind != 3 {
                        assert(!self@.limit_entries@[i as int].wf());
                        return false;
                    }
                },
                _ => {},
            }
            i += 1;
        }
        let extension_size: u64 = match &self.version_1_extension {
            Some(extension) => {
                if !extension.is_well_formed() {
                    return false;
                }
                extension.size() as u64
            },
            None => 0,
        };
        BODY_SIZE as u64 + self.signed_blob_header.size() as u64 + extension_size
            <= u32::MAX as u64
    }

    /// Read the audit byte and the access permissions, behind 47 bytes that
    /// are not looked at, and move over the two bytes behind them.
    fn read_permissions(stream: &mut Stream) -> (result: Result<
        (u8, [u8; 64]),
        PreSwitchTicketError,
    >)
        requires
            old(stream).wf(),
            old(stream).pos() <= old(stream).size(),
        ensures
            final(stream).same_content(old(stream)),
            match spec_parse_permissions(old(stream).bytes(), old(stream).pos() as int) {
                Ok(permissions) => {
                    &&& result == Ok::<(u8, [u8; 64]), PreSwitchTicketError>(permissions)
                    &&& final(stream).pos() == old(stream).pos() + 114
                },
                Err(error) => result == Err::<(u8, [u8; 64]), PreSwitchTicketError>(error),
            },
    {
        // 47 bytes whose use is not known.
        match stream.skip(47) {
            Ok(()) => {},
            Err(error) => return Err(PreSwitchTicketError::IoError(error)),
        }
        let audit = match stream.read_u8() {
            Ok(value) => value,
            Err(error) => return Err(PreSwitchTicketError::IoError(error)),
        };
        let content_access_permissions = match stream.read_array::<64>() {
            Ok(value) => value,
            Err(error) => return Err(PreSwitchTicketError::IoError(error)),
        };
        // Two bytes of padding.
        match stream.skip(2) {
            Ok(()) => {},
            Err(error) => return Err(PreSwitchTicketError::IoError(error)),
        }
        Ok((audit, content_access_permissions))
    }

    /// Read the eight limit entries.
    fn read_limits(stream: &mut Stream) -> (result: Result<
        [PreSwitchTicketLimitEntry; 8],
        PreSwitchTicketError,
    >)
        ensures
            final(stream).same_content(old(stream)),
            match spec_parse_limits(
                old(stream).bytes(),
                old(stream).pos() as int,
                8,
                Seq::empty(),
            ) {
                Ok(limits) => {
                    &&& result == Ok::<[PreSwitchTicketLimitEntry; 8], PreSwitchTicketError>(
                        array_of_seq::<PreSwitchTicketLimitEntry, 8>(limits),
                    )
                    &&& final(stream).pos() == old(stream).pos() + 64
                },
                Err(error) => result == Err::<[PreSwitchTicketLimitEntry; 8], PreSwitchTicketError>(
                    error,
                ),
            },
    {
        let ghost bytes = stream.bytes();
        let ghost start = stream.pos() as int;
        let mut limit_entries = [PreSwitchTicketLimitEntry::NoLimit { kind: 0 }; 8];
        let mut i: usize = 0;
        assert(limit_entries@.subrange(0, 0) =~= Seq::empty());
        while i < 8
            invariant
                i <= 8,
                bytes == old(stream).bytes(),
                start == old(stream).pos(),
                stream.same_content(old(stream)),
                stream.pos() == start + 8 * i,
                spec_parse_limits(bytes, start, 8, Seq::empty()) == spec_parse_limits(
                    bytes,
                    stream.pos() as int,
                    (8 - i) as nat,
                    limit_entries@.subrange(0, i as int),
                ),
            decreases 8 - i,
        {
            let ghost here = stream.pos() as int;
            let ghost before = limit_entries@.subrange(0, i as int);
            assert(spec_parse_limits(bytes, here, (8 - i) as nat, before) == if here + 8
                > bytes.len() {
                Err::<Seq<PreSwitchTicketLimitEntry>, PreSwitchTicketError>(
                    PreSwitchTicketError::IoError(StreamError::UnexpectedEof),
                )
            } else {
                match PreSwitchTicketLimitEntry::spec_new(
                    be_u32_at(bytes, here),
                    be_u32_at(bytes, here + 4),
                ) {
                    None => Err::<Seq<PreSwitchTicketLimitEntry>, PreSwitchTicketError>(
                        PreSwitchTicketError::UnknownLimitEntryType(be_u32_at(bytes, here)),
                    ),
                    Some(limit) => spec_parse_limits(
                        bytes,
                        here + 8,
                        (8 - i - 1) as nat,
                        before.push(limit),
                    ),
                }
            });
            let kind = match stream.read_u32_be() {
                Ok(value) => value,
                Err(error) => return Err(PreSwitchTicketError::IoError(error)),
            };
            let associated_value = match stream.read_u32_be() {
                Ok(value) => value,
                Err(error) => return Err(PreSwitchTicketError::IoError(error)),
            };
            let limit = match PreSwitchTicketLimitEntry::new(kind, associated_value) {
                Ok(limit) => limit,
                Err(error) => return Err(error),
            };
            limit_entries[i] = limit;
            i += 1;
            assert(limit_entries@.subrange(0, i as int) =~= before.push(limit));
        }
        proof {
            assert(limit_entries@.subrange(0, 8) =~= limit_entries@);
            crate::bytes::lemma_array_of_seq_view::<PreSwitchTicketLimitEntry, 8>(limit_entries);
        }
        Ok(limit_entries)
    }

    /// Read the V1 extension where the version is 1.
    fn read_extension(stream: &mut Stream, format_version: u8) -> (result: Result<
        Option<PreSwitchTicketV1>,
        PreSwitchTicketError,
    >)
        requires
            old(stream).wf(),
        ensures
            final(stream).same_content(old(stream)),
            match spec_parse_extension(
                format_version,
                old(stream).bytes(),
                old(stream).pos() as int,
            ) {
                Ok((extension, end)) => {
                    &&& result is Ok
                    &&& extension_view(result.unwrap()) == extension
                    &&& final(stream).pos() == end
                },
                Err(error) => result == Err::<Option<PreSwitchTicketV1>, PreSwitchTicketError>(
                    error,
                ),
            },
    {
        if format_version == 0 {
            Ok(None)
        } else if format_version == 1 {
            match PreSwitchTicketV1::new(stream) {
                Ok(value) => Ok(Some(value)),
                Err(error) => Err(PreSwitchTicketError::TicketV1Error(error)),
            }
        } else {
            Err(PreSwitchTicketError::IncompatibleVersion(format_version))
        }
    }

    /// Parse a ticket: the signed blob header, the 292 bytes of the body,
    /// and the V1 extension where the version is 1.
    pub fn new(stream: &mut Stream) -> (result: Result<Self, PreSwitchTicketError>)
        requires
            old(stream).wf(),
        ensures
            final(stream).same_content(old(stream)),
            match PreSwitchTicketView::spec_parse(old(stream).bytes(), old(stream).pos() as int) {
                Ok((ticket, end)) => {
                    &&& result is Ok
                    &&& result.unwrap()@ == ticket
                    &&& ticket.spec_size() <= u32::MAX ==> result.unwrap().wf()
                    &&& final(stream).pos() == end
                },
                Err(error) => result == Err::<Self, PreSwitchTicketError>(error),
            },
    {
        proof {
            let read = PreSwitchTicketView::spec_parse(stream.bytes(), stream.pos() as int);
            if read is Ok && read.unwrap().0.spec_size() <= u32::MAX {
                PreSwitchTicketView::lemma_parsed_is_well_formed(
                    stream.bytes(),
                    stream.pos() as int,
                );
            }
        }
        let signed_blob_header = match SignedBlobHeader::new(stream) {
            Ok(value) => value,
            Err(error) => return Err(PreSwitchTicketError::SignedBlobHeaderError(error)),
        };
        let (head, format_version) = match PreSwitchTicketHead::new(stream) {
            Ok(value) => value,
            Err(error) => return Err(error),
        };
        let (audit, content_access_permissions) = match Self::read_permissions(stream) {
            Ok(value) => value,
            Err(error) => return Err(error),
        };
        let limit_entries = match Self::read_limits(stream) {
            Ok(value) => value,
            Err(error) => return Err(error),
        };
        let version_1_extension = match Self::read_extension(stream, format_version) {
            Ok(value) => value,
            Err(error) => return Err(error),
        };
        Ok(
            PreSwitchTicket {
                signed_blob_header,
                ecc_public_key: head.ecc_public_key,
                certificate_authority_certificate_revocation_list_version: head.certificate_authority_certificate_revocation_list_version,
                signer_certificate_revocation_list_version: head.signer_certificate_revocation_list_version,
                encrypted_title_key: head.encrypted_title_key,
                ticket_id: head.ticket_id,
                device_id: head.device_id,
                title_id: head.title_id,
                system_app_content_access: head.system_app_content_access,
                title_version: head.title_version,
                permitted_generic_title_id: head.permitted_generic_title_id,
                permitted_generic_title_id_mask: head.permitted_generic_title_id_mask,
                license: head.license,
                common_key_kind_index: head.common_key_kind_index,
                audit,
                content_access_permissions,
                limit_entries,
                version_1_extension,
            },
        )
    }

    /// The head of the ticket.
    fn head(&self) -> (head: PreSwitchTicketHead)
        ensures
            head == self@.head,
    {
        PreSwitchTicketHead {
            ecc_public_key: self.ecc_public_key,
            certificate_authority_certificate_revocation_list_version: self.certificate_authority_certificate_revocation_list_version,
            signer_certificate_revocation_list_version: self.signer_certificate_revocation_list_version,
            encrypted_title_key: self.encrypted_title_key,
            ticket_id: self.ticket_id,
            device_id: self.device_id,
            title_id: self.title_id,
            system_app_content_access: self.system_app_content_access,
            title_version: self.title_version,
            permitted_generic_title_id: self.permitted_generic_title_id,
            permitted_generic_title_id_mask: self.permitted_generic_title_id_mask,
            license: self.license,
            common_key_kind_index: self.common_key_kind_index,
        }
    }

    /// Append the 114 bytes between the head and the limits.
    fn dump_permissions(&self, out: &mut Vec<u8>)
        ensures
            final(out)@ == old(out)@ + self@.spec_permissions(),
            self@.spec_permissions().len() == 114,
    {
        let mut part: Vec<u8> = Vec::new();
        push_zeros(&mut part, 47);
        push_u8(&mut part, self.audit);
        push_bytes(&mut part, self.content_access_permissions.as_slice());
        push_zeros(&mut part, 2);
        assert(part@ == self@.spec_permissions());
        assert(part@.len() == 114);
        push_bytes(out, part.as_slice());
    }

    /// Append the eight limit entries.
    fn dump_limits(&self, out: &mut Vec<u8>)
        ensures
            final(out)@ == old(out)@ + spec_limits_bytes(self.limit_entries@, 8),
            spec_limits_bytes(self.limit_entries@, 8).len() == 64,
    {
        let ghost before = out@;
        let mut i: usize = 0;
        while i < 8
            invariant
                i <= 8,
                out@ == before + spec_limits_bytes(self.limit_entries@, i as int),
            decreases 8 - i,
        {
            self.limit_entries[i].dump(out);
            i += 1;
            assert(out@ =~= before + spec_limits_bytes(self.limit_entries@, i as int));
        }
        proof {
            lemma_limits_bytes_len(self.limit_entries@, 8);
        }
    }

    /// Append the extension, where there is one.
    fn dump_extension(&self, out: &mut Vec<u8>)
        requires
            self.wf(),
        ensures
            final(out)@ == old(out)@ + self@.spec_extension_bytes(),
            self@.spec_extension_bytes().len() == self@.spec_extension_size(),
    {
        match &self.version_1_extension {
            Some(version_1_extension) => version_1_extension.serialize_into(out),
            None => {
                assert(out@ =~= old(out)@ + Seq::<u8>::empty());
            },
        }
    }

    /// Append the bytes of the ticket. The version is 1 where there is an
    /// extension, and 0 otherwise.
    pub fn serialize_into(&self, out: &mut Vec<u8>)
        requires
            self.wf(),
        ensures
            final(out)@ == old(out)@ + self@.spec_serialize(),
            self@.spec_serialize().len() == self@.spec_size(),
    {
        let ghost before = out@;
        let ghost view = self@;
        let head = self.head();
        self.signed_blob_header.serialize_into(out);
        let ghost with_header = out@;
        head.dump_keys(self.version_1_extension.is_some(), out);
        head.dump_ids(out);
        self.dump_permissions(out);
        self.dump_limits(out);
        proof {
            crate::bytes::lemma_append_parts(
                with_header,
                view.head.spec_keys(view.spec_is_version_1()),
                view.head.spec_ids(),
                view.spec_permissions(),
                spec_limits_bytes(view.limit_entries@, 8),
            );
            assert(out@ == with_header + view.spec_body());
        }
        self.dump_extension(out);
        proof {
            crate::bytes::lemma_append_parts(
                before,
                view.signed_blob_header.spec_serialize(),
                view.spec_body(),
                view.spec_extension_bytes(),
                Seq::empty(),
            );
        }
    }

    /// Dump into a stream.
    pub fn dump(&self, stream: &mut Stream) -> (result: Result<(), StreamError>)
        requires
            old(stream).wf(),
            self.wf(),
        ensures
            final(stream).wf(),
            wrote_all(*old(stream), *final(stream), self@.spec_serialize(), result),
    {
        let mut bytes: Vec<u8> = Vec::new();
        self.serialize_into(&mut bytes);
        assert(bytes@ =~= self@.spec_serialize());
        stream.write_all(bytes.as_slice())
    }

    /// Get the size of the ticket in bytes.
    pub fn size(&self) -> (size: u32)
        requires
            self@.version_1_extension is Some ==> self@.version_1_extension.unwrap().wf(),
            self@.spec_size() <= u32::MAX,
        ensures
            size == self@.spec_size(),
    {
        let mut size: u64 = 292 + self.signed_blob_header.size() as u64;
        if let Some(version_1_extension) = &self.version_1_extension {
            size = size + version_1_extension.size() as u64;
        }
        size as u32
    }

    /// Either if this ticket was generated to be used only in a specific
    /// console (the associated title was purchased) or not.
    pub fn is_device_unique(&self) -> (result: bool)
        ensures
            result == (self.device_id is Some),
    {
        self.device_id.is_some()
    }

    /// The initialisation vector for the title key: the ID of the ticket
    /// where the ticket is for one console, the ID of the title otherwise,
    /// and eight zeros.
    pub open spec fn spec_title_key_iv(&self) -> Seq<u8> {
        u64_be_bytes(
            if self.device_id is Some {
                self.ticket_id
            } else {
                self.title_id.0
            },
        ) + zeros(8)
    }

    /// The title key, decrypted with the common key of the ticket, if the
    /// index of the common key is known.
    pub open spec fn spec_title_key(&self) -> Option<Seq<u8>> {
        match WiiCommonKeyKind::spec_new(self.common_key_kind_index) {
            None => None,
            Some(kind) => Some(
                aes128_cbc_decrypted(
                    spec_common_key(kind),
                    self.spec_title_key_iv(),
                    self.encrypted_title_key@,
                ),
            ),
        }
    }

    /// Decrypt the title key with the common key that the ticket names. An
    /// index that names no common key is refused.
    pub fn decrypt_title_key(&self, cryptographic_method: CryptographicMethod) -> (result: Result<
        [u8; 16],
        PreSwitchTicketError,
    >)
        ensures
            match self.spec_title_key() {
                Some(title_key) => result is Ok && result.unwrap()@ == title_key,
                None => result == Err::<[u8; 16], PreSwitchTicketError>(
                    PreSwitchTicketError::CommonKeyError(
                        CommonKeyKindError::UnknownCommonKeyIndex(self.common_key_kind_index),
                    ),
                ),
            },
    {
        match cryptographic_method {
            CryptographicMethod::Wii => {
                let id = if self.is_device_unique() {
                    self.ticket_id
                } else {
                    self.title_id.inner()
                };
                let mut iv_bytes: Vec<u8> = Vec::new();
                push_u64_be(&mut iv_bytes, id);
                push_zeros(&mut iv_bytes, 8);
                assert(iv_bytes@ =~= self.spec_title_key_iv());
                let iv = crate::bytes::array_at::<16>(iv_bytes.as_slice(), 0);
                assert(iv@ =~= self.spec_title_key_iv());
                let common_key_kind = match WiiCommonKeyKind::new(self.common_key_kind_index) {
                    Ok(kind) => kind,
                    Err(error) => return Err(PreSwitchTicketError::CommonKeyError(error)),
                };
                let key = common_key_kind.bytes();
                match aes128_cbc_decrypt(&key, &iv, self.encrypted_title_key.as_slice()) {
                    Ok(title_key) => {
                        let title_key_array = crate::bytes::array_at::<16>(
                            title_key.as_slice(),
                            0,
                        );
                        assert(title_key_array@ =~= title_key@);
                        Ok(title_key_array)
                    },
                    Err(_) => Err(PreSwitchTicketError::CryptographicUnpadError),
                }
            },
        }
    }
}

/// The initialisation vector of the content with the given index: the
/// index, most significant byte first, and fourteen zeros.
pub open spec fn spec_content_iv(index: u16) -> Seq<u8> {
    u16_be_bytes(index) + zeros(14)
}

/// The initialisation vector of the content with the given index.
pub fn content_iv(index: u16) -> (iv: [u8; 16])
    ensures
        iv@ == spec_content_iv(index),
{
    let mut bytes: Vec<u8> = Vec::new();
    push_u16_be(&mut bytes, index);
    push_zeros(&mut bytes, 14);
    assert(bytes@ =~= spec_content_iv(index));
    let iv = crate::bytes::array_at::<16>(bytes.as_slice(), 0);
    assert(iv@ =~= spec_content_iv(index));
    iv
}

impl PreSwitchTicket {
    /// Get a stream that decrypts a content, where `stream` views the bytes
    /// of the content: its key is the title key, and its initialisation
    /// vector that of the index of the selected content. A common key index
    /// that names no key is refused, and so is a selector that stands for no
    /// content.
    pub fn cryptographic_stream(
        &self,
        stream: StreamView,
        title_metadata: &TitleMetadata,
        content_selector: ContentSelector,
        cryptographic_method: CryptographicMethod,
    ) -> (result: Result<AesCbcStream, PreSwitchTicketError>)
        ensures
            match self.spec_title_key() {
                None => result is Err && result->Err_0 == PreSwitchTicketError::CommonKeyError(
                    CommonKeyKindError::UnknownCommonKeyIndex(self.common_key_kind_index),
                ),
                Some(title_key) => match spec_select(
                    content_selector.method,
                    title_metadata.content_chunk_entries@,
                ) {
                    None => result is Err && result->Err_0
                        == PreSwitchTicketError::TitleMetadataError(
                        TitleMetadataError::ContentNotFound(),
                    ),
                    Some(position) => {
                        &&& result is Ok
                        &&& result->Ok_0.stream() == stream
                        &&& result->Ok_0.key() == title_key
                        &&& result->Ok_0.iv() == spec_content_iv(
                            title_metadata.content_chunk_entries@[position].index,
                        )
                    },
                },
            },
    {
        match cryptographic_method {
            CryptographicMethod::Wii => {
                let title_key = match self.decrypt_title_key(cryptographic_method) {
                    Ok(title_key) => title_key,
                    Err(error) => return Err(error),
                };
                let index = match content_selector.index(title_metadata) {
                    Ok(index) => index,
                    Err(error) => return Err(PreSwitchTicketError::TitleMetadataError(error)),
                };
                match AesCbcStream::new(stream, title_key, content_iv(index)) {
                    Ok(stream) => Ok(stream),
                    Err(error) => Err(PreSwitchTicketError::IoError(error)),
                }
            },
        }
    }
}

impl PreSwitchTicketHead {
    /// A head is read back from its 114 bytes, wherever they stand, and so
    /// is the version of the format that was written among them.
    pub proof fn lemma_parse_serialize(self, version_1: bool, bytes: Seq<u8>, at: int)
        requires
            self.device_id != Some(0u32),
            0 <= at,
            at + 114 <= bytes.len(),
            bytes.subrange(at, at + 80) == self.spec_keys(version_1),
            bytes.subrange(at + 80, at + 114) == self.spec_ids(),
        ensures
            Self::spec_parse(bytes, at) == Ok::<PreSwitchTicketHead, PreSwitchTicketError>(self),
            bytes[at + 60] == byte_of_bool(version_1),
    {
        self.lemma_parse_keys(version_1, bytes, at);
        self.lemma_parse_ids(bytes, at + 80);
    }

    /// The two parts of a head have 80 and 34 bytes.
    pub proof fn lemma_widths(self, version_1: bool)
        ensures
            self.spec_keys(version_1).len() == 80,
            self.spec_ids().len() == 34,
    {
    }

    /// The keys and the versions are read back from the first 80 bytes of a
    /// head.
    pub proof fn lemma_parse_keys(self, version_1: bool, bytes: Seq<u8>, at: int)
        requires
            0 <= at,
            at + 80 <= bytes.len(),
            bytes.subrange(at, at + 80) == self.spec_keys(version_1),
        ensures
            array_of::<60>(bytes.subrange(at, at + 60)) == self.ecc_public_key,
            bytes[at + 60] == byte_of_bool(version_1),
            bytes[at + 61] == self.certificate_authority_certificate_revocation_list_version,
            bytes[at + 62] == self.signer_certificate_revocation_list_version,
            array_of::<16>(bytes.subrange(at + 63, at + 79)) == self.encrypted_title_key,
    {
        let image = self.spec_keys(version_1);
        let versions = seq![
            byte_of_bool(version_1),
            self.certificate_authority_certificate_revocation_list_version,
            self.signer_certificate_revocation_list_version,
        ];
        crate::bytes::lemma_parts_of_concat4(
            self.ecc_public_key@,
            versions,
            self.encrypted_title_key@,
            zeros(1),
        );
        crate::bytes::lemma_embedded_part(bytes, at, image, 0, 60);
        crate::bytes::lemma_embedded_part(bytes, at, image, 60, 3);
        crate::bytes::lemma_embedded_part(bytes, at, image, 63, 16);
        crate::bytes::lemma_embedded_byte(bytes, at + 60, versions, 0);
        crate::bytes::lemma_embedded_byte(bytes, at + 60, versions, 1);
        crate::bytes::lemma_embedded_byte(bytes, at + 60, versions, 2);
        crate::bytes::lemma_array_of_view::<60>(self.ecc_public_key);
        crate::bytes::lemma_array_of_view::<16>(self.encrypted_title_key);
    }

    /// The IDs and what follows them are read back from the last 34 bytes
    /// of a head.
    pub proof fn lemma_parse_ids(self, bytes: Seq<u8>, at: int)
        requires
            self.device_id != Some(0u32),
            0 <= at,
            at + 34 <= bytes.len(),
            bytes.subrange(at, at + 34) == self.spec_ids(),
        ensures
            be_u64_at(bytes, at) == self.ticket_id,
            self.device_id == if be_u32_at(bytes, at + 8) == 0 {
                None
            } else {
                Some(be_u32_at(bytes, at + 8))
            },
            be_u64_at(bytes, at + 12) == self.title_id.0,
            be_u16_at(bytes, at + 20) == self.system_app_content_access.0,
            be_u16_at(bytes, at + 22) == self.title_version,
            be_u32_at(bytes, at + 24) == self.permitted_generic_title_id,
            be_u32_at(bytes, at + 28) == self.permitted_generic_title_id_mask,
            PreTicketLicense::spec_new(bytes[at + 32]) == Some(self.license),
            bytes[at + 33] == self.common_key_kind_index,
    {
        let image = self.spec_ids();
        let device = match self.device_id {
            None => 0u32,
            Some(device_id) => device_id,
        };
        let ids = u64_be_bytes(self.ticket_id) + u32_be_bytes(device) + u64_be_bytes(
            self.title_id.0,
        ) + u16_be_bytes(self.system_app_content_access.0);
        let last = seq![self.license.spec_identifier(), self.common_key_kind_index];
        crate::bytes::lemma_parts_of_concat4(
            u64_be_bytes(self.ticket_id),
            u32_be_bytes(device),
            u64_be_bytes(self.title_id.0),
            u16_be_bytes(self.system_app_content_access.0),
        );
        let numbers = ids + u16_be_bytes(self.title_version) + u32_be_bytes(
            self.permitted_generic_title_id,
        ) + u32_be_bytes(self.permitted_generic_title_id_mask);
        crate::bytes::lemma_parts_of_concat4(
            ids,
            u16_be_bytes(self.title_version),
            u32_be_bytes(self.permitted_generic_title_id),
            u32_be_bytes(self.permitted_generic_title_id_mask),
        );
        crate::bytes::lemma_parts_of_concat(numbers, last);
        assert(image == numbers + last);
        crate::bytes::lemma_embedded_part(bytes, at, image, 0, 32);
        crate::bytes::lemma_embedded_part(bytes, at, image, 32, 2);
        assert(image.subrange(0, 32) == numbers);
        crate::bytes::lemma_embedded_part(bytes, at, numbers, 0, 22);
        crate::bytes::lemma_embedded_part(bytes, at, numbers, 22, 2);
        crate::bytes::lemma_embedded_part(bytes, at, numbers, 24, 4);
        crate::bytes::lemma_embedded_part(bytes, at, numbers, 28, 4);
        assert(numbers.subrange(0, 22) == ids);
        crate::bytes::lemma_embedded_part(bytes, at, ids, 0, 8);
        crate::bytes::lemma_embedded_part(bytes, at, ids, 8, 4);
        crate::bytes::lemma_embedded_part(bytes, at, ids, 12, 8);
        crate::bytes::lemma_embedded_part(bytes, at, ids, 20, 2);
        crate::bytes::lemma_be_u64_round_trip(bytes, at, self.ticket_id);
        crate::bytes::lemma_be_u32_round_trip(bytes, at + 8, device);
        crate::bytes::lemma_be_u64_round_trip(bytes, at + 12, self.title_id.0);
        crate::bytes::lemma_be_u16_round_trip(bytes, at + 20, self.system_app_content_access.0);
        crate::bytes::lemma_be_u16_round_trip(bytes, at + 22, self.title_version);
        crate::bytes::lemma_be_u32_round_trip(bytes, at + 24, self.permitted_generic_title_id);
        crate::bytes::lemma_be_u32_round_trip(
            bytes,
            at + 28,
            self.permitted_generic_title_id_mask,
        );
        crate::bytes::lemma_embedded_byte(bytes, at + 32, last, 0);
        crate::bytes::lemma_embedded_byte(bytes, at + 32, last, 1);
    }
}

impl PreSwitchTicketLimitEntry {
    /// A well-formed limit is read back from its 8 bytes, wherever they
    /// stand.
    pub proof fn lemma_parse_serialize(self, bytes: Seq<u8>, at: int)
        requires
            self.wf(),
            0 <= at,
            at + 8 <= bytes.len(),
            bytes.subrange(at, at + 8) == self.spec_serialize(),
        ensures
            Self::spec_new(be_u32_at(bytes, at), be_u32_at(bytes, at + 4)) == Some(self),
    {
        crate::bytes::lemma_parts_of_concat(
            u32_be_bytes(self.spec_kind()),
            u32_be_bytes(self.spec_value()),
        );
        crate::bytes::lemma_embedded_part(bytes, at, self.spec_serialize(), 0, 4);
        crate::bytes::lemma_embedded_part(bytes, at, self.spec_serialize(), 4, 4);
        crate::bytes::lemma_be_u32_round_trip(bytes, at, self.spec_kind());
        crate::bytes::lemma_be_u32_round_trip(bytes, at + 4, self.spec_value());
    }
}

/// The bytes of one of several limits stand in the bytes of all of them
/// behind those of the limits before it.
pub proof fn lemma_limit_in_limits(limits: Seq<PreSwitchTicketLimitEntry>, index: int, total: int)
    requires
        0 <= index < total <= limits.len(),
    ensures
        spec_limits_bytes(limits, total).len() == 8 * total,
        spec_limits_bytes(limits, total).subrange(8 * index, 8 * index + 8)
            == limits[index].spec_serialize(),
    decreases total - index,
{
    lemma_limits_bytes_len(limits, total);
    lemma_limits_bytes_len(limits, total - 1);
    let before = spec_limits_bytes(limits, total - 1);
    let last = limits[total - 1].spec_serialize();
    assert(spec_limits_bytes(limits, total) == before + last);
    crate::bytes::lemma_parts_of_concat(before, last);
    if index < total - 1 {
        lemma_limit_in_limits(limits, index, total - 1);
        assert(spec_limits_bytes(limits, total).subrange(8 * index, 8 * index + 8)
            =~= before.subrange(8 * index, 8 * index + 8));
    }
}

/// Well-formed limits are read back from their bytes, where the bytes of
/// all of them stand at `at`.
pub proof fn lemma_limits_parse_serialize(
    limits: Seq<PreSwitchTicketLimitEntry>,
    bytes: Seq<u8>,
    at: int,
    done: int,
)
    requires
        forall|i: int| 0 <= i < limits.len() ==> (#[trigger] limits[i]).wf(),
        0 <= done <= limits.len(),
        0 <= at,
        at + 8 * limits.len() <= bytes.len(),
        bytes.subrange(at, at + 8 * limits.len()) == spec_limits_bytes(limits, limits.len() as int),
    ensures
        spec_parse_limits(
            bytes,
            at + 8 * done,
            (limits.len() - done) as nat,
            limits.subrange(0, done),
        ) == Ok::<Seq<PreSwitchTicketLimitEntry>, PreSwitchTicketError>(limits),
    decreases limits.len() - done,
{
    let total = limits.len() as int;
    if done == total {
        assert(limits.subrange(0, done) =~= limits);
    } else {
        lemma_limit_in_limits(limits, done, total);
        crate::bytes::lemma_embedded_part(
            bytes,
            at,
            spec_limits_bytes(limits, total),
            8 * done,
            8,
        );
        assert(limits[done].wf());
        limits[done].lemma_parse_serialize(bytes, at + 8 * done);
        assert(limits.subrange(0, done).push(limits[done]) =~= limits.subrange(0, done + 1));
        lemma_limits_parse_serialize(limits, bytes, at, done + 1);
    }
}

impl PreSwitchTicketView {
    /// The bytes of a well-formed ticket are as many as its size says.
    pub proof fn lemma_size(self)
        requires
            self.wf(),
        ensures
            self.spec_body().len() == BODY_SIZE,
            self.spec_extension_bytes().len() == self.spec_extension_size(),
            self.spec_serialize().len() == self.spec_size(),
            0 <= self.spec_extension_size(),
    {
        self.signed_blob_header.lemma_size();
        lemma_limits_bytes_len(self.limit_entries@, 8);
        self.head.lemma_widths(self.spec_is_version_1());
        assert(self.spec_permissions().len() == 114);
        match self.version_1_extension {
            None => {},
            Some(extension) => {
                extension.lemma_layout();
            },
        }
    }

    /// The audit byte and the access permissions are read back from the
    /// 114 bytes that hold them.
    pub proof fn lemma_parse_permissions(self, bytes: Seq<u8>, at: int)
        requires
            0 <= at,
            at + 114 <= bytes.len(),
            bytes.subrange(at, at + 114) == self.spec_permissions(),
        ensures
            spec_parse_permissions(bytes, at) == Ok::<(u8, [u8; 64]), PreSwitchTicketError>(
                (self.audit, self.content_access_permissions),
            ),
    {
        let image = self.spec_permissions();
        crate::bytes::lemma_parts_of_concat4(
            zeros(47),
            seq![self.audit],
            self.content_access_permissions@,
            zeros(2),
        );
        crate::bytes::lemma_embedded_part(bytes, at, image, 47, 1);
        crate::bytes::lemma_embedded_part(bytes, at, image, 48, 64);
        crate::bytes::lemma_embedded_byte(bytes, at + 47, seq![self.audit], 0);
        crate::bytes::lemma_array_of_view::<64>(self.content_access_permissions);
    }

    /// Where the bytes of a ticket stand at `pos`, each of its parts stands
    /// behind those before it.
    pub proof fn lemma_parts(self, bytes: Seq<u8>, pos: int)
        requires
            self.wf(),
            0 <= pos,
            pos + self.spec_size() <= bytes.len(),
            bytes.subrange(pos, pos + self.spec_size()) == self.spec_serialize(),
        ensures
            ({
                let at = pos + self.signed_blob_header.spec_size();
                &&& bytes.subrange(pos, at) == self.signed_blob_header.spec_serialize()
                &&& bytes.subrange(at, at + 80) == self.head.spec_keys(self.spec_is_version_1())
                &&& bytes.subrange(at + 80, at + 114) == self.head.spec_ids()
                &&& bytes.subrange(at + 114, at + 228) == self.spec_permissions()
                &&& bytes.subrange(at + 228, at + 292) == spec_limits_bytes(self.limit_entries@, 8)
                &&& bytes.subrange(at + 292, at + 292 + self.spec_extension_size())
                    == self.spec_extension_bytes()
                &&& at + 292 + self.spec_extension_size() == pos + self.spec_size()
            }),
    {
        self.lemma_size();
        self.signed_blob_header.lemma_size();
        let header = self.signed_blob_header.spec_serialize();
        let image = self.spec_serialize();
        let body = self.spec_body();
        let extension = self.spec_extension_bytes();
        let at = pos + header.len();
        crate::bytes::lemma_parts_of_concat3(header, body, extension);
        crate::bytes::lemma_embedded_part(bytes, pos, image, 0, header.len() as int);
        crate::bytes::lemma_embedded_part(bytes, pos, image, header.len() as int, 292);
        crate::bytes::lemma_embedded_part(
            bytes,
            pos,
            image,
            (header.len() + 292) as int,
            extension.len() as int,
        );
        crate::bytes::lemma_parts_of_concat4(
            self.head.spec_keys(self.spec_is_version_1()),
            self.head.spec_ids(),
            self.spec_permissions(),
            spec_limits_bytes(self.limit_entries@, 8),
        );
        lemma_limits_bytes_len(self.limit_entries@, 8);
        crate::bytes::lemma_embedded_part(bytes, at, body, 0, 80);
        crate::bytes::lemma_embedded_part(bytes, at, body, 80, 34);
        crate::bytes::lemma_embedded_part(bytes, at, body, 114, 114);
        crate::bytes::lemma_embedded_part(bytes, at, body, 228, 64);
    }

    /// A ticket that was read is well formed, where its size fits 32 bits.
    pub proof fn lemma_parsed_is_well_formed(bytes: Seq<u8>, pos: int)
        requires
            0 <= pos,
            Self::spec_parse(bytes, pos) is Ok,
            Self::spec_parse(bytes, pos).unwrap().0.spec_size() <= u32::MAX,
        ensures
            Self::spec_parse(bytes, pos).unwrap().0.wf(),
    {
        SignedBlobHeaderView::lemma_parsed_is_well_formed(bytes, pos);
        let at = SignedBlobHeaderView::spec_parse(bytes, pos).unwrap().1;
        lemma_limits_parsed(bytes, at + 228, 8, Seq::empty());
        let limits = spec_parse_limits(bytes, at + 228, 8, Seq::empty()).unwrap();
        crate::bytes::lemma_array_of_seq::<PreSwitchTicketLimitEntry, 8>(limits);
        if bytes[at + 60] == 1 {
            PreSwitchTicketV1View::lemma_parsed_is_well_formed(bytes, at + 292);
        }
    }

    /// A well-formed ticket is read back from its bytes, wherever they
    /// stand and whatever follows them; so writing what was read from the
    /// bytes of a ticket gives those bytes again.
    #[verifier::rlimit(50)]
    pub proof fn lemma_parse_serialize(self, bytes: Seq<u8>, pos: int)
        requires
            self.wf(),
            0 <= pos,
            pos + self.spec_size() <= bytes.len(),
            bytes.subrange(pos, pos + self.spec_size()) == self.spec_serialize(),
        ensures
            Self::spec_parse(bytes, pos) == Ok::<(PreSwitchTicketView, int), PreSwitchTicketError>(
                (self, pos + self.spec_size()),
            ),
            Self::spec_parse(bytes, pos).unwrap().0.spec_serialize() == bytes.subrange(
                pos,
                pos + self.spec_size(),
            ),
    {
        self.lemma_parts(bytes, pos);
        self.lemma_size();
        self.signed_blob_header.lemma_size();
        let at = pos + self.signed_blob_header.spec_size();
        self.signed_blob_header.lemma_parse_serialize(bytes, pos);
        self.head.lemma_parse_serialize(self.spec_is_version_1(), bytes, at);
        self.lemma_parse_permissions(bytes, at + 114);
        lemma_limits_parse_serialize(self.limit_entries@, bytes, at + 228, 0);
        assert(self.limit_entries@.subrange(0, 0) =~= Seq::empty());
        crate::bytes::lemma_array_of_seq_view::<PreSwitchTicketLimitEntry, 8>(self.limit_entries);
        match self.version_1_extension {
            None => {},
            Some(extension) => {
                extension.lemma_parse_serialize(bytes, at + 292);
            },
        }
    }
}

} // verus!
