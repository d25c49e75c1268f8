use aes::cipher::block_padding::NoPadding;
use aes::cipher::{BlockDecryptMut, KeyIvInit};
use niiebla::certificate_chain::{
    Certificate, CertificateChainError, CertificateKey, CertificateKeyValue,
};
use niiebla::signed_blob_header::{
    SignedBlobHeader, SignedBlobHeaderError, SignedBlobHeaderSignature,
};
use niiebla::ticket::v1::{
    PreSwitchTicketV1, PreSwitchTicketV1Error, PreSwitchTicketV1RecordAccessTitle,
    PreSwitchTicketV1RecordContent, PreSwitchTicketV1RecordContentConsumption,
    PreSwitchTicketV1RecordPermanent, PreSwitchTicketV1RecordSubscription,
    PreSwitchTicketV1Records, PreSwitchTicketV1RefereceId, PreSwitchTicketV1Section,
};
use niiebla::ticket::{
    PreSwitchTicketError, PreSwitchTicketLimitEntry, PreSwitchTicketSystemAppContentAccessFlags,
    PreTicketLicense,
};
use niiebla::title_id::TitleId;
use niiebla::title_metadata::{
    TitleMetadataContentEntry, TitleMetadataContentEntryHashKind, TitleMetadataError,
    TitleMetadataPlatformData, TitleMetadataPlatformDataWiiRegion, TitleMetadataV1,
    TitleMetadataV1ContentEntriesGroup,
};
use niiebla::wii_common_key::{CommonKeyKindError, WiiCommonKeyKind};
use niiebla::{
    CertificateChain, CryptographicMethod, PreSwitchTicket, SeekFrom, Stream, StreamError,
    TitleMetadata, TitleMetadataContentEntryKind,
};

fn pattern<const N: usize>(seed: u8) -> [u8; N] {
    let mut bytes = [0u8; N];
    for (i, byte) in bytes.iter_mut().enumerate() {
        *byte = seed.wrapping_add((i * 7) as u8);
    }
    bytes
}

fn header(seed: u8) -> SignedBlobHeader {
    SignedBlobHeader {
        signature: SignedBlobHeaderSignature::Rsa2048Sha1(Box::new(pattern(seed))),
        issuer: String::from("Root-CA00000001-XS00000003"),
    }
}

fn signatures() -> Vec<(SignedBlobHeaderSignature, u32, u32)> {
    vec![
        (SignedBlobHeaderSignature::Rsa4096Sha1(Box::new(pattern(1))), 0x010000, 640),
        (SignedBlobHeaderSignature::Rsa2048Sha1(Box::new(pattern(2))), 0x010001, 384),
        (SignedBlobHeaderSignature::EcdsaSha1(Box::new(pattern(3))), 0x010002, 128),
        (SignedBlobHeaderSignature::Rsa4096Sha256(Box::new(pattern(4))), 0x010003, 640),
        (SignedBlobHeaderSignature::Rsa2048Sha256(Box::new(pattern(5))), 0x010004, 384),
        (SignedBlobHeaderSignature::EcdsaSha256(Box::new(pattern(6))), 0x010005, 128),
        (SignedBlobHeaderSignature::HmacSha1(Box::new(pattern(7))), 0x010006, 128),
    ]
}

#[test]
fn signed_blob_header_is_read_back_for_every_kind_of_signature() {
    for (signature, tag, size) in signatures() {
        let header = SignedBlobHeader { signature, issuer: String::from("Root") };
        assert_eq!(header.size(), size);

        let mut bytes = vec![0xEE; 3];
        header.serialize_into(&mut bytes);
        assert_eq!(bytes.len(), 3 + size as usize);
        assert_eq!(bytes[3..7], tag.to_be_bytes());
        assert_eq!(bytes[bytes.len() - 64..bytes.len() - 60], *b"Root");
        assert!(bytes[bytes.len() - 60..].iter().all(|byte| *byte == 0));

        // Whatever follows the header is left alone.
        bytes.extend_from_slice(&[0xAB; 5]);
        let mut stream = Stream::new(bytes);
        stream.seek(SeekFrom::Start(3)).unwrap();
        assert_eq!(SignedBlobHeader::new(&mut stream), Ok(header));
        assert_eq!(stream.stream_position(), 3 + size as u64);
    }
}

#[test]
fn signed_blob_header_with_an_unknown_tag_is_refused() {
    let mut bytes = vec![0x00, 0x01, 0x00, 0x07];
    bytes.extend_from_slice(&[0; 700]);
    assert_eq!(
        SignedBlobHeader::new(&mut Stream::new(bytes)),
        Err(SignedBlobHeaderError::UnknownSignatureKind(0x010007))
    );
}

#[test]
fn signed_blob_header_that_ends_early_is_refused() {
    let mut bytes = vec![];
    header(9).serialize_into(&mut bytes);
    for len in [0, 3, 4, 259, 260, 383] {
        assert_eq!(
            SignedBlobHeader::new(&mut Stream::new(bytes[..len].to_vec())),
            Err(SignedBlobHeaderError::IoError(StreamError::UnexpectedEof))
        );
    }
    assert!(SignedBlobHeader::new(&mut Stream::new(bytes)).is_ok());
}

#[test]
fn signed_blob_header_with_an_issuer_that_is_no_text_is_refused() {
    let mut bytes = vec![];
    header(9).serialize_into(&mut bytes);
    let issuer = bytes.len() - 64;
    bytes[issuer] = 0xFF;
    assert!(matches!(
        SignedBlobHeader::new(&mut Stream::new(bytes)),
        Err(SignedBlobHeaderError::Utf8Error(_))
    ));
}

#[test]
fn signed_blob_header_does_not_look_at_the_gap() {
    let mut bytes = vec![];
    header(9).serialize_into(&mut bytes);
    for byte in &mut bytes[260..320] {
        *byte = 0x55;
    }
    assert_eq!(SignedBlobHeader::new(&mut Stream::new(bytes)), Ok(header(9)));
}

fn certificate(seed: u8, value: CertificateKeyValue) -> Certificate {
    Certificate {
        signed_blob_header: header(seed),
        identity: format!("CA{seed:08}"),
        key: CertificateKey { id: 0x0A0B_0C00 + seed as u32, value },
    }
}

fn chain() -> CertificateChain {
    CertificateChain {
        certificates: vec![
            certificate(1, CertificateKeyValue::Rsa4096(Box::new(pattern(11)))),
            certificate(2, CertificateKeyValue::Rsa2048(Box::new(pattern(12)))),
            certificate(3, CertificateKeyValue::EccB223(Box::new(pattern(13)))),
        ],
    }
}

#[test]
fn certificate_chain_is_read_back() {
    let chain = chain();
    assert_eq!(chain.certificates[0].size(), 384 + 640);
    assert_eq!(chain.certificates[1].size(), 384 + 384);
    assert_eq!(chain.certificates[2].size(), 384 + 192);
    assert_eq!(chain.size(), 1024 + 768 + 576);

    let mut stream = Stream::new(vec![0x11; 10]);
    stream.seek(SeekFrom::Start(10)).unwrap();
    chain.dump(&mut stream).unwrap();
    assert_eq!(stream.stream_position(), 10 + chain.size() as u64);

    stream.seek(SeekFrom::Start(10)).unwrap();
    assert_eq!(CertificateChain::new(&mut stream, 3), Ok(chain));
    assert_eq!(stream.stream_position(), 10 + 1024 + 768 + 576);

    stream.seek(SeekFrom::Start(10)).unwrap();
    assert_eq!(
        CertificateChain::new(&mut stream, 4),
        Err(CertificateChainError::SignedBlobHeaderError(SignedBlobHeaderError::IoError(
            StreamError::UnexpectedEof
        )))
    );
}

#[test]
fn certificate_with_an_unknown_key_is_refused() {
    let mut bytes = vec![];
    certificate(1, CertificateKeyValue::EccB223(Box::new(pattern(1)))).serialize_into(&mut bytes);
    bytes[384 + 3] = 3;
    assert_eq!(
        Certificate::new(&mut Stream::new(bytes.clone())),
        Err(CertificateChainError::UnknownKeyKind(3))
    );
    // The identity and the id of the key are read before the kind is
    // looked at.
    assert_eq!(
        Certificate::new(&mut Stream::new(bytes[..384 + 71].to_vec())),
        Err(CertificateChainError::IoError(StreamError::UnexpectedEof))
    );
}

fn reference_id(seed: u8) -> PreSwitchTicketV1RefereceId {
    PreSwitchTicketV1RefereceId { id: pattern(seed), attributes: 0x1000 + seed as u32 }
}

fn extension() -> PreSwitchTicketV1 {
    PreSwitchTicketV1 {
        sections: vec![
            PreSwitchTicketV1Section {
                records: PreSwitchTicketV1Records::Permanent(vec![
                    PreSwitchTicketV1RecordPermanent { reference_id: reference_id(1) },
                    PreSwitchTicketV1RecordPermanent { reference_id: reference_id(2) },
                ]),
                flags: 1,
            },
            PreSwitchTicketV1Section {
                records: PreSwitchTicketV1Records::Subscription(vec![
                    PreSwitchTicketV1RecordSubscription {
                        expiration_time: 0x6000_0000,
                        reference_id: reference_id(3),
                    },
                ]),
                flags: 2,
            },
            PreSwitchTicketV1Section {
                records: PreSwitchTicketV1Records::Content(vec![PreSwitchTicketV1RecordContent {
                    offset_content_index: 7,
                    access_mask: pattern(4),
                }]),
                flags: 3,
            },
            PreSwitchTicketV1Section {
                records: PreSwitchTicketV1Records::ContentConsumption(vec![]),
                flags: 4,
            },
            PreSwitchTicketV1Section {
                records: PreSwitchTicketV1Records::ContentConsumption(vec![
                    PreSwitchTicketV1RecordContentConsumption {
                        content_index: 1,
                        limit_code: 2,
                        limit_value: 3,
                    },
                ]),
                flags: 5,
            },
            PreSwitchTicketV1Section {
                records: PreSwitchTicketV1Records::AccessTitle(vec![
                    PreSwitchTicketV1RecordAccessTitle {
                        title_id: TitleId::new(0x0001_0002_0003_0004),
                        title_mask: u64::MAX,
                    },
                ]),
                flags: 6,
            },
        ],
        flags: 0xF00D,
    }
}

#[test]
fn ticket_v1_extension_is_read_back() {
    let extension = extension();
    let records = 2 * 20 + 24 + 132 + 8 + 16;
    assert_eq!(extension.size(), 20 + 6 * 20 + records);
    assert_eq!(extension.sections[0].records.len(), 2);
    assert_eq!(extension.sections[0].records.size_of_one_record(), 20);
    assert_eq!(extension.sections[2].records.size(), 132);

    let mut bytes = vec![];
    extension.serialize_into(&mut bytes);
    assert_eq!(bytes.len() as u32, extension.size());
    // The version, the size of the header, the size in all, the offset of
    // the first section header, the number of sections and the size of a
    // section header.
    assert_eq!(bytes[0..4], [0, 1, 0, 20]);
    assert_eq!(bytes[4..8], extension.size().to_be_bytes());
    assert_eq!(bytes[8..12], (20 + records).to_be_bytes());
    assert_eq!(bytes[12..16], [0, 6, 0, 20]);
    assert_eq!(bytes[16..20], 0xF00Du32.to_be_bytes());
    // The first section header: its records stand behind the header.
    let first = 20 + records as usize;
    assert_eq!(bytes[first..first + 4], 20u32.to_be_bytes());
    assert_eq!(bytes[first + 4..first + 8], 2u32.to_be_bytes());
    assert_eq!(bytes[first + 8..first + 12], 20u32.to_be_bytes());
    assert_eq!(bytes[first + 16..first + 20], [0, 1, 0, 1]);

    let mut stream = Stream::new(bytes);
    assert_eq!(PreSwitchTicketV1::new(&mut stream), Ok(extension));
    assert_eq!(stream.stream_position(), stream.len());
}

#[test]
fn ticket_v1_extension_without_sections_is_read_back() {
    let extension = PreSwitchTicketV1 { sections: vec![], flags: 9 };
    let mut bytes = vec![];
    extension.serialize_into(&mut bytes);
    assert_eq!(bytes, [0, 1, 0, 20, 0, 0, 0, 20, 0, 0, 0, 20, 0, 0, 0, 20, 0, 0, 0, 9]);
    let mut stream = Stream::new(bytes);
    assert_eq!(PreSwitchTicketV1::new(&mut stream), Ok(extension));
    assert_eq!(stream.stream_position(), 20);
}

#[test]
fn ticket_v1_extension_errors() {
    let mut good = vec![];
    extension().serialize_into(&mut good);
    let parse = |change: &dyn Fn(&mut Vec<u8>)| {
        let mut bytes = good.clone();
        change(&mut bytes);
        PreSwitchTicketV1::new(&mut Stream::new(bytes))
    };
    assert_eq!(
        parse(&|bytes| bytes[1] = 2),
        Err(PreSwitchTicketV1Error::UnknownTicketV1Version(2))
    );
    assert_eq!(
        parse(&|bytes| bytes[3] = 21),
        Err(PreSwitchTicketV1Error::UnknownTicketV1HeaderSize(21))
    );
    assert_eq!(
        parse(&|bytes| bytes[15] = 19),
        Err(PreSwitchTicketV1Error::UnknownTicketV1SectionHeaderSize(19))
    );
    assert_eq!(
        parse(&|bytes| bytes[7] ^= 1),
        Err(PreSwitchTicketV1Error::UnknownTicketV1TotalSize(extension().size() ^ 1))
    );
    let first = good.len() - 6 * 20;
    assert_eq!(
        parse(&|bytes| bytes[first + 17] = 6),
        Err(PreSwitchTicketV1Error::UnknownTicketV1SectionKind(6))
    );
    assert_eq!(
        parse(&|bytes| bytes[first + 6] = 1),
        Err(PreSwitchTicketV1Error::IoError(StreamError::UnexpectedEof))
    );
    assert_eq!(
        parse(&|bytes| bytes.truncate(bytes.len() - 1)),
        Err(PreSwitchTicketV1Error::IoError(StreamError::UnexpectedEof))
    );
}

fn ticket(version_1_extension: Option<PreSwitchTicketV1>) -> PreSwitchTicket {
    PreSwitchTicket {
        signed_blob_header: header(40),
        ecc_public_key: pattern(41),
        certificate_authority_certificate_revocation_list_version: 3,
        signer_certificate_revocation_list_version: 4,
        encrypted_title_key: pattern(42),
        ticket_id: 0x0001_0203_0405_0607,
        device_id: Some(0x0A0B_0C0D),
        title_id: TitleId::new(0x0001_0000_4841_4741),
        system_app_content_access: PreSwitchTicketSystemAppContentAccessFlags(0x8001),
        title_version: 0x0102,
        permitted_generic_title_id: 0x1111_2222,
        permitted_generic_title_id_mask: 0x3333_4444,
        license: PreTicketLicense::CanBeExported,
        common_key_kind_index: 1,
        audit: 0x77,
        content_access_permissions: pattern(43),
        limit_entries: [
            PreSwitchTicketLimitEntry::NoLimit { kind: 0 },
            PreSwitchTicketLimitEntry::TimeLimit { minutes: 90 },
            PreSwitchTicketLimitEntry::LaunchLimit { number_of_launches: 5 },
            PreSwitchTicketLimitEntry::NoLimit { kind: 3 },
            PreSwitchTicketLimitEntry::NoLimit { kind: 0 },
            PreSwitchTicketLimitEntry::NoLimit { kind: 0 },
            PreSwitchTicketLimitEntry::NoLimit { kind: 0 },
            PreSwitchTicketLimitEntry::NoLimit { kind: 0 },
        ],
        version_1_extension,
    }
}

#[test]
fn ticket_is_read_back() {
    for ticket in [ticket(None), ticket(Some(extension()))] {
        let extension_size = ticket.version_1_extension.as_ref().map_or(0, |v1| v1.size());
        assert_eq!(ticket.size(), 292 + 384 + extension_size);
        assert!(ticket.is_device_unique());

        let mut bytes = vec![];
        ticket.serialize_into(&mut bytes);
        assert_eq!(bytes.len() as u32, ticket.size());
        // The version tells whether there is an extension.
        assert_eq!(bytes[384 + 60], ticket.version_1_extension.is_some() as u8);
        // A limit of launches is written as 2.
        assert_eq!(bytes[384 + 228 + 16..384 + 228 + 24], [0, 0, 0, 2, 0, 0, 0, 5]);

        let mut stream = Stream::new(bytes);
        assert_eq!(PreSwitchTicket::new(&mut stream), Ok(ticket));
        assert_eq!(stream.stream_position(), stream.len());
    }
}

#[test]
fn ticket_errors() {
    let mut good = vec![];
    ticket(None).serialize_into(&mut good);
    let parse = |change: &dyn Fn(&mut Vec<u8>)| {
        let mut bytes = good.clone();
        change(&mut bytes);
        PreSwitchTicket::new(&mut Stream::new(bytes))
    };
    assert_eq!(
        parse(&|bytes| bytes[384 + 60] = 2),
        Err(PreSwitchTicketError::IncompatibleVersion(2))
    );
    assert_eq!(
        parse(&|bytes| bytes[384 + 112] = 2),
        Err(PreSwitchTicketError::InvalidLicenseKindIdentifierValue(2))
    );
    assert_eq!(
        parse(&|bytes| bytes[384 + 228 + 8 + 3] = 4),
        Err(PreSwitchTicketError::UnknownLimitEntryType(4))
    );
    // The license is looked at before the limits, and the limits before
    // the version.
    assert_eq!(
        parse(&|bytes| {
            bytes[384 + 60] = 2;
            bytes[384 + 112] = 9;
            bytes[384 + 228 + 3] = 9;
        }),
        Err(PreSwitchTicketError::InvalidLicenseKindIdentifierValue(9))
    );
    assert_eq!(
        parse(&|bytes| bytes.truncate(384 + 291)),
        Err(PreSwitchTicketError::IoError(StreamError::UnexpectedEof))
    );
    assert_eq!(
        parse(&|bytes| bytes[384 + 60] = 1),
        Err(PreSwitchTicketError::TicketV1Error(PreSwitchTicketV1Error::IoError(
            StreamError::UnexpectedEof
        )))
    );
    assert_eq!(
        parse(&|bytes| bytes[2] = 9),
        Err(PreSwitchTicketError::SignedBlobHeaderError(
            SignedBlobHeaderError::UnknownSignatureKind(0x00010901)
        ))
    );
}

#[test]
fn ticket_without_device_is_for_all_consoles() {
    let mut ticket = ticket(None);
    ticket.device_id = None;
    assert!(!ticket.is_device_unique());
    let mut bytes = vec![];
    ticket.serialize_into(&mut bytes);
    assert_eq!(bytes[384 + 88..384 + 92], [0, 0, 0, 0]);
    assert_eq!(PreSwitchTicket::new(&mut Stream::new(bytes)), Ok(ticket));
}

fn cbc_decrypt(key: [u8; 16], iv: [u8; 16], data: &[u8]) -> Vec<u8> {
    let mut buffer = data.to_vec();
    cbc::Decryptor::<aes::Aes128>::new(&key.into(), &iv.into())
        .decrypt_padded_mut::<NoPadding>(&mut buffer)
        .unwrap();
    buffer
}

#[test]
fn title_key_is_decrypted_with_the_common_key() {
    let mut ticket = ticket(None);
    for (index, kind) in [
        (0u8, WiiCommonKeyKind::Normal),
        (1, WiiCommonKeyKind::Korean),
        (2, WiiCommonKeyKind::WiiUvWii),
    ] {
        ticket.common_key_kind_index = index;
        assert_eq!(WiiCommonKeyKind::new(index), Ok(kind));

        // A ticket for one console: the vector is the ID of the ticket.
        let mut iv = [0u8; 16];
        iv[..8].copy_from_slice(&ticket.ticket_id.to_be_bytes());
        assert_eq!(
            ticket.decrypt_title_key(CryptographicMethod::Wii).unwrap().to_vec(),
            cbc_decrypt(kind.bytes(), iv, &ticket.encrypted_title_key)
        );
    }
    // A ticket for all consoles: the vector is the ID of the title.
    ticket.device_id = None;
    let mut iv = [0u8; 16];
    iv[..8].copy_from_slice(&ticket.title_id.inner().to_be_bytes());
    assert_eq!(
        ticket.decrypt_title_key(CryptographicMethod::Wii).unwrap().to_vec(),
        cbc_decrypt(WiiCommonKeyKind::WiiUvWii.bytes(), iv, &ticket.encrypted_title_key)
    );
    assert_ne!(
        ticket.decrypt_title_key(CryptographicMethod::Wii).unwrap(),
        ticket.encrypted_title_key
    );

    ticket.common_key_kind_index = 3;
    assert_eq!(
        ticket.decrypt_title_key(CryptographicMethod::Wii),
        Err(PreSwitchTicketError::CommonKeyError(CommonKeyKindError::UnknownCommonKeyIndex(3)))
    );
}

#[test]
fn common_keys_are_the_known_ones() {
    assert_eq!(
        WiiCommonKeyKind::Normal.bytes(),
        [
            0xEB, 0xE4, 0x2A, 0x22, 0x5E, 0x85, 0x93, 0xE4, 0x48, 0xD9, 0xC5, 0x45, 0x73, 0x81,
            0xAA, 0xF7
        ]
    );
    assert_eq!(
        WiiCommonKeyKind::Korean.bytes(),
        [
            0x63, 0xB8, 0x2B, 0xB4, 0xF4, 0x61, 0x4E, 0x2E, 0x13, 0xF2, 0xFE, 0xFB, 0xBA, 0x4C,
            0x9B, 0x7E
        ]
    );
    assert_eq!(
        WiiCommonKeyKind::WiiUvWii.bytes(),
        [
            0x30, 0xBF, 0xC7, 0x6E, 0x7C, 0x19, 0xAF, 0xBB, 0x23, 0x16, 0x33, 0x30, 0xCE, 0xD7,
            0xC2, 0x8D
        ]
    );
    let mut stream = Stream::new(vec![]);
    WiiCommonKeyKind::Korean.dump_identifier(&mut stream).unwrap();
    assert_eq!(stream.into_inner(), [1]);
    assert_eq!(
        WiiCommonKeyKind::new(200),
        Err(CommonKeyKindError::UnknownCommonKeyIndex(200))
    );
}

#[test]
fn system_app_content_access_flags() {
    let flags = PreSwitchTicketSystemAppContentAccessFlags::from_bits(0x8001).unwrap();
    assert_eq!(flags.bits(), 0x8001);
    assert!(flags.contains(PreSwitchTicketSystemAppContentAccessFlags::content(0)));
    assert!(flags.contains(PreSwitchTicketSystemAppContentAccessFlags::content(15)));
    assert!(!flags.contains(PreSwitchTicketSystemAppContentAccessFlags::content(7)));
}

fn entry(index: u16, version_1: bool) -> TitleMetadataContentEntry {
    TitleMetadataContentEntry {
        id: 0x100 + index as u32,
        index,
        kind: if index == 0 {
            TitleMetadataContentEntryKind::Shared
        } else {
            TitleMetadataContentEntryKind::Normal
        },
        size: 1000 + index as u64,
        hash: if version_1 {
            TitleMetadataContentEntryHashKind::Version1(pattern(index as u8))
        } else {
            TitleMetadataContentEntryHashKind::Version0(pattern(index as u8))
        },
    }
}

fn title_metadata(platform_data: TitleMetadataPlatformData, version_1: bool) -> TitleMetadata {
    TitleMetadata {
        signed_blob_header: header(50),
        certificate_authority_certificate_revocation_list_version: 1,
        signer_certificate_revocation_list_version: 2,
        system_runtime_title_id: Some(TitleId::new_with_halfs(1, 58)),
        title_id: TitleId::new(0x0001_0000_4841_4741),
        group_id: 0x3031,
        access_rights: 0b10,
        title_version: 0x0201,
        boot_content_index: 1,
        platform_data,
        version_1_extension: version_1.then_some(TitleMetadataV1 {
            content_entries_groups_hash_sha256: pattern(60),
            content_entries_groups: {
                let mut groups = [TitleMetadataV1ContentEntriesGroup::new_dummy(); 64];
                groups[0] = TitleMetadataV1ContentEntriesGroup {
                    first_content_index: 0,
                    content_entries_in_the_group: 3,
                    content_entries_group_hash_sha256: pattern(61),
                };
                groups[63].first_content_index = 9;
                groups
            },
        }),
        content_chunk_entries: vec![entry(0, version_1), entry(1, version_1), entry(2, version_1)],
    }
}

fn platforms() -> Vec<TitleMetadataPlatformData> {
    vec![
        TitleMetadataPlatformData::DSi,
        TitleMetadataPlatformData::WiiU,
        TitleMetadataPlatformData::Console3ds {
            public_save_data_size: 0x0102_0304,
            private_save_data_size: 0x0506_0708,
            srl_flag: 9,
        },
        TitleMetadataPlatformData::Wii {
            is_wii_u_vwii_only_title: true,
            region: TitleMetadataPlatformDataWiiRegion::Europe,
            ratings: pattern(70),
            ipc_mask: pattern(71),
        },
    ]
}

#[test]
fn title_metadata_is_read_back_on_every_platform() {
    for platform_data in platforms() {
        for version_1 in [false, true] {
            let title_metadata = title_metadata(platform_data, version_1);
            let expected_size = 100 + 384 + 16 * 3 + if version_1 {
                32 * 3 + 32 + 64 * 36
            } else {
                20 * 3
            };
            assert_eq!(title_metadata.size(), expected_size);

            let mut bytes = vec![];
            title_metadata.serialize_into(&mut bytes);
            assert_eq!(bytes.len() as u32, title_metadata.size());
            assert_eq!(bytes[384], version_1 as u8);

            let mut stream = Stream::new(bytes);
            assert_eq!(TitleMetadata::new(&mut stream), Ok(title_metadata));
            assert_eq!(stream.stream_position(), stream.len());
        }
    }
}

#[test]
fn title_metadata_layout_of_the_platforms() {
    let bytes_of = |platform_data| {
        let mut bytes = vec![];
        title_metadata(platform_data, false).serialize_into(&mut bytes);
        bytes[384..484].to_vec()
    };
    let platforms = platforms();
    let dsi = bytes_of(platforms[0]);
    assert_eq!(dsi[3], 0);
    assert_eq!(dsi[4..12], [0, 0, 0, 1, 0, 0, 0, 58]);
    assert_eq!(dsi[20..24], [0, 0, 0, 0]);
    assert!(dsi[26..88].iter().all(|byte| *byte == 0));
    assert_eq!(dsi[88..100], [0, 0, 0, 2, 2, 1, 0, 3, 0, 1, 0, 0]);

    assert_eq!(bytes_of(platforms[1])[20..24], [0, 0, 1, 0]);

    let the_3ds = bytes_of(platforms[2]);
    assert_eq!(the_3ds[20..24], [0, 0, 0, 64]);
    // The sizes of the save data stand least significant byte first.
    assert_eq!(the_3ds[26..34], [4, 3, 2, 1, 8, 7, 6, 5]);
    assert_eq!(the_3ds[38], 9);

    let wii = bytes_of(platforms[3]);
    assert_eq!(wii[3], 1);
    assert_eq!(wii[20..24], [0, 0, 0, 1]);
    assert_eq!(wii[26..30], [0, 0, 0, 2]);
    assert_eq!(wii[30..46], pattern::<16>(70));
    assert_eq!(wii[58..70], pattern::<12>(71));
}

#[test]
fn title_metadata_errors() {
    let wii = platforms()[3];
    let mut good = vec![];
    title_metadata(wii, false).serialize_into(&mut good);
    let parse = |change: &dyn Fn(&mut Vec<u8>)| {
        let mut bytes = good.clone();
        change(&mut bytes);
        TitleMetadata::new(&mut Stream::new(bytes))
    };
    assert_eq!(
        parse(&|bytes| bytes[384] = 2),
        Err(TitleMetadataError::IncompatibleVersion(2))
    );
    assert_eq!(
        parse(&|bytes| bytes[384 + 3] = 2),
        Err(TitleMetadataError::IoError(StreamError::InvalidData))
    );
    assert_eq!(
        parse(&|bytes| bytes[384 + 23] = 2),
        Err(TitleMetadataError::UnknownPlatform(2))
    );
    assert_eq!(
        parse(&|bytes| bytes[384 + 29] = 5),
        Err(TitleMetadataError::UnknownWiiRegion(5))
    );
    assert_eq!(
        parse(&|bytes| bytes[384 + 100 + 36 + 6] = 0x10),
        Err(TitleMetadataError::UnknownContentEntryKind(0x1001))
    );
    assert_eq!(
        parse(&|bytes| bytes.truncate(bytes.len() - 1)),
        Err(TitleMetadataError::IoError(StreamError::UnexpectedEof))
    );
    assert_eq!(
        parse(&|bytes| bytes[384] = 1),
        Err(TitleMetadataError::IoError(StreamError::UnexpectedEof))
    );
    // The platform is looked at before the region, and the region before
    // the version.
    assert_eq!(
        parse(&|bytes| {
            bytes[384] = 7;
            bytes[384 + 29] = 5;
        }),
        Err(TitleMetadataError::UnknownWiiRegion(5))
    );
}

#[test]
fn title_metadata_without_system_runtime() {
    let mut title_metadata = title_metadata(TitleMetadataPlatformData::DSi, false);
    title_metadata.system_runtime_title_id = None;
    title_metadata.content_chunk_entries.clear();
    let mut bytes = vec![];
    title_metadata.serialize_into(&mut bytes);
    assert_eq!(bytes.len(), 484);
    assert_eq!(bytes[384 + 4..384 + 12], [0; 8]);
    assert_eq!(TitleMetadata::new(&mut Stream::new(bytes.clone())), Ok(title_metadata.clone()));
    // The two bytes of the minor version are not looked at.
    bytes.truncate(482);
    assert_eq!(TitleMetadata::new(&mut Stream::new(bytes)), Ok(title_metadata));
}

#[test]
fn access_rights_are_told_on_the_wii_only() {
    let mut wii = title_metadata(platforms()[3], false);
    assert_eq!(wii.has_dvd_access_wii(), Ok(true));
    assert_eq!(wii.has_ppc_access_wii(), Ok(false));
    wii.access_rights = 0b01;
    assert_eq!(wii.has_dvd_access_wii(), Ok(false));
    assert_eq!(wii.has_ppc_access_wii(), Ok(true));

    let the_3ds = title_metadata(platforms()[2], false);
    assert_eq!(the_3ds.has_dvd_access_wii(), Err(TitleMetadataError::ActionInvalid()));
    assert_eq!(the_3ds.has_ppc_access_wii(), Err(TitleMetadataError::ActionInvalid()));
    let dsi = title_metadata(platforms()[0], false);
    assert_eq!(dsi.has_dvd_access_wii(), Err(TitleMetadataError::ActionInvalid()));
    let wii_u = title_metadata(platforms()[1], false);
    assert_eq!(wii_u.has_ppc_access_wii(), Err(TitleMetadataError::ActionInvalid()));
}

#[test]
fn content_selector_stands_for_a_content() {
    let mut title_metadata = title_metadata(TitleMetadataPlatformData::DSi, false);
    // Two entries with the same index and the same ID: the first counts.
    title_metadata.content_chunk_entries.push(entry(1, false));
    title_metadata.content_chunk_entries[3].size = 7;

    let first = title_metadata.select_first();
    assert_eq!(first.physical_position(&title_metadata), Ok(0));
    assert_eq!(first.index(&title_metadata), Ok(0));
    assert_eq!(first.id(&title_metadata), Ok(0x100));

    let last = title_metadata.select_last();
    assert_eq!(last.physical_position(&title_metadata), Ok(3));
    assert_eq!(last.content_entry(&title_metadata).unwrap().size, 7);

    let by_index = title_metadata.select_with_index(1);
    assert_eq!(by_index.physical_position(&title_metadata), Ok(1));
    assert_eq!(by_index.content_entry(&title_metadata), Ok(entry(1, false)));

    let by_id = title_metadata.select_with_id(0x102);
    assert_eq!(by_id.physical_position(&title_metadata), Ok(2));
    assert_eq!(by_id.index(&title_metadata), Ok(2));

    let by_position = title_metadata.select_with_physical_position(3);
    assert_eq!(by_position.id(&title_metadata), Ok(0x101));

    for selector in [
        title_metadata.select_with_index(9),
        title_metadata.select_with_id(9),
        title_metadata.select_with_physical_position(4),
    ] {
        assert_eq!(
            selector.physical_position(&title_metadata),
            Err(TitleMetadataError::ContentNotFound())
        );
        assert_eq!(
            selector.content_entry(&title_metadata),
            Err(TitleMetadataError::ContentNotFound())
        );
        assert_eq!(selector.id(&title_metadata), Err(TitleMetadataError::ContentNotFound()));
        assert_eq!(selector.index(&title_metadata), Err(TitleMetadataError::ContentNotFound()));
    }

    // The last content is chosen when the selector is used.
    title_metadata.content_chunk_entries.clear();
    assert_eq!(
        last.physical_position(&title_metadata),
        Err(TitleMetadataError::ContentNotFound())
    );
    assert_eq!(
        first.content_entry(&title_metadata),
        Err(TitleMetadataError::ContentNotFound())
    );
}

#[test]
fn well_formed_manifests_are_told_from_others() {
    assert!(header(1).is_well_formed());
    let mut long = header(1);
    long.issuer = "x".repeat(64);
    assert!(long.is_well_formed());
    long.issuer.push('x');
    assert!(!long.is_well_formed());
    let mut with_null = header(1);
    with_null.issuer = String::from("Root\0CA");
    assert!(!with_null.is_well_formed());

    assert!(chain().is_well_formed());
    let mut broken = chain();
    broken.certificates[2].identity = "é".repeat(33);
    assert!(!broken.certificates[2].is_well_formed());
    assert!(!broken.is_well_formed());
    broken.certificates[2].identity = "é".repeat(32);
    assert!(broken.is_well_formed());

    assert!(extension().is_well_formed());
    assert!(ticket(Some(extension())).is_well_formed());
    let mut ticket = ticket(None);
    ticket.device_id = Some(0);
    assert!(!ticket.is_well_formed());
    ticket.device_id = None;
    ticket.limit_entries[7] = PreSwitchTicketLimitEntry::NoLimit { kind: 2 };
    assert!(!ticket.is_well_formed());
    ticket.limit_entries[7] = PreSwitchTicketLimitEntry::NoLimit { kind: 3 };
    assert!(ticket.is_well_formed());

    let mut title_metadata = title_metadata(TitleMetadataPlatformData::DSi, false);
    assert!(title_metadata.is_well_formed());
    title_metadata.system_runtime_title_id = Some(TitleId::new(0));
    assert!(!title_metadata.is_well_formed());
    title_metadata.system_runtime_title_id = None;
    title_metadata.content_chunk_entries[1].hash =
        TitleMetadataContentEntryHashKind::Version1([0; 32]);
    assert!(!title_metadata.is_well_formed());
}

#[test]
fn limit_entries_are_made_of_a_kind_and_a_value() {
    assert_eq!(
        PreSwitchTicketLimitEntry::new(0, 9),
        Ok(PreSwitchTicketLimitEntry::NoLimit { kind: 0 })
    );
    assert_eq!(
        PreSwitchTicketLimitEntry::new(3, 9),
        Ok(PreSwitchTicketLimitEntry::NoLimit { kind: 3 })
    );
    assert_eq!(
        PreSwitchTicketLimitEntry::new(1, 9),
        Ok(PreSwitchTicketLimitEntry::TimeLimit { minutes: 9 })
    );
    assert_eq!(
        PreSwitchTicketLimitEntry::new(2, 9),
        Ok(PreSwitchTicketLimitEntry::LaunchLimit { number_of_launches: 9 })
    );
    assert_eq!(
        PreSwitchTicketLimitEntry::new(4, 9),
        Err(PreSwitchTicketError::UnknownLimitEntryType(4))
    );
    assert_eq!(PreTicketLicense::new(0), Ok(PreTicketLicense::Normal));
    assert_eq!(PreTicketLicense::new(1), Ok(PreTicketLicense::CanBeExported));
    assert_eq!(
        PreTicketLicense::new(2),
        Err(PreSwitchTicketError::InvalidLicenseKindIdentifierValue(2))
    );
    assert_eq!(
        TitleMetadataPlatformDataWiiRegion::from_identifier(4),
        Ok(TitleMetadataPlatformDataWiiRegion::Korea)
    );
    assert_eq!(
        TitleMetadataPlatformDataWiiRegion::from_identifier(5),
        Err(TitleMetadataError::UnknownWiiRegion(5))
    );
    assert_eq!(
        TitleMetadataPlatformData::new_dummy_from_identifier(256),
        Ok(TitleMetadataPlatformData::WiiU)
    );
    assert_eq!(
        TitleMetadataPlatformData::new_dummy_from_identifier(2),
        Err(TitleMetadataError::UnknownPlatform(2))
    );
}
