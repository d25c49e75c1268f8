use niiebla::certificate_chain::{Certificate, CertificateKey, CertificateKeyValue};
use niiebla::signed_blob_header::{SignedBlobHeader, SignedBlobHeaderSignature};
use niiebla::ticket::v1::{
    PreSwitchTicketV1, PreSwitchTicketV1RecordContentConsumption, PreSwitchTicketV1Records,
    PreSwitchTicketV1Section,
};
use niiebla::ticket::{
    PreSwitchTicketError, PreSwitchTicketLimitEntry, PreSwitchTicketSystemAppContentAccessFlags,
    PreTicketLicense,
};
use niiebla::title_id::TitleId;
use niiebla::title_metadata::{
    TitleMetadataContentEntryHashKind, TitleMetadataError, TitleMetadataPlatformData,
    TitleMetadataPlatformDataWiiRegion,
};
use niiebla::wad::installable::content::{content_hash, encrypt_content};
use niiebla::wad::installable::{
    InstallableWad, InstallableWadError, InstallableWadKind, ModifyContentSetting,
};
use niiebla::wad::WadError;
use niiebla::wii_common_key::CommonKeyKindError;
use niiebla::{
    CertificateChain, CryptographicMethod, PreSwitchTicket, SeekFrom, Stream, StreamError,
    TitleMetadata, TitleMetadataContentEntryKind, Wad,
};
use sha1::Digest;

fn pattern<const N: usize>(seed: u8) -> [u8; N] {
    let mut bytes = [0u8; N];
    for (i, byte) in bytes.iter_mut().enumerate() {
        *byte = seed.wrapping_add((i * 7) as u8);
    }
    bytes
}

fn plaintext(seed: u8, len: usize) -> Vec<u8> {
    (0..len).map(|i| seed.wrapping_mul(13).wrapping_add((i * 3) as u8)).collect()
}

fn header(seed: u8) -> SignedBlobHeader {
    SignedBlobHeader {
        signature: SignedBlobHeaderSignature::Rsa2048Sha1(Box::new(pattern(seed))),
        issuer: String::from("Root-CA00000001-XS00000003"),
    }
}

fn chain() -> CertificateChain {
    let certificate = |seed: u8, value| Certificate {
        signed_blob_header: header(seed),
        identity: format!("CA{seed:08}"),
        key: CertificateKey { id: seed as u32, value },
    };
    CertificateChain {
        certificates: vec![
            certificate(1, CertificateKeyValue::Rsa4096(Box::new(pattern(11)))),
            certificate(2, CertificateKeyValue::Rsa2048(Box::new(pattern(12)))),
            certificate(3, CertificateKeyValue::EccB223(Box::new(pattern(13)))),
        ],
    }
}

fn ticket() -> PreSwitchTicket {
    PreSwitchTicket {
        signed_blob_header: header(40),
        ecc_public_key: pattern(41),
        certificate_authority_certificate_revocation_list_version: 0,
        signer_certificate_revocation_list_version: 0,
        encrypted_title_key: pattern(42),
        ticket_id: 0x0001_0203_0405_0607,
        device_id: None,
        title_id: TitleId::new(0x0001_0000_4841_4741),
        system_app_content_access: PreSwitchTicketSystemAppContentAccessFlags(0),
        title_version: 1,
        permitted_generic_title_id: 0,
        permitted_generic_title_id_mask: 0,
        license: PreTicketLicense::Normal,
        common_key_kind_index: 0,
        audit: 0,
        content_access_permissions: [0xFF; 64],
        limit_entries: [PreSwitchTicketLimitEntry::NoLimit { kind: 0 }; 8],
        version_1_extension: None,
    }
}

fn title_metadata() -> TitleMetadata {
    TitleMetadata {
        signed_blob_header: header(50),
        certificate_authority_certificate_revocation_list_version: 0,
        signer_certificate_revocation_list_version: 0,
        system_runtime_title_id: Some(TitleId::new_with_halfs(1, 58)),
        title_id: TitleId::new(0x0001_0000_4841_4741),
        group_id: 0x3031,
        access_rights: 0,
        title_version: 1,
        boot_content_index: 0,
        platform_data: TitleMetadataPlatformData::Wii {
            is_wii_u_vwii_only_title: false,
            region: TitleMetadataPlatformDataWiiRegion::RegionFree,
            ratings: [0; 16],
            ipc_mask: [0; 12],
        },
        version_1_extension: None,
        content_chunk_entries: vec![],
    }
}

fn empty_wad() -> (InstallableWad, Stream, TitleMetadata) {
    let mut wad = InstallableWad {
        header_size: 32,
        kind: InstallableWadKind::Normal,
        certificate_chain_size: 0,
        ticket_size: 0,
        title_metadata_size: 0,
        content_size: 0,
        footer_size: 0,
    };
    let mut stream = Stream::new(vec![]);
    let title_metadata = title_metadata();
    wad.write_certificate_chain_safe(&mut stream, &chain(), &ticket(), &title_metadata).unwrap();
    (wad, stream, title_metadata)
}

const SIZES: [usize; 3] = [48, 64, 160];

fn wad_with_contents() -> (InstallableWad, Stream, TitleMetadata) {
    let (mut wad, mut stream, mut title_metadata) = empty_wad();
    let ticket = ticket();
    for (i, size) in SIZES.iter().enumerate() {
        wad.modify_content()
            .set_cryptography(&ticket, CryptographicMethod::Wii)
            .set_id(0x100 + i as u32)
            .set_index(i as u16)
            .set_kind(TitleMetadataContentEntryKind::Normal)
            .add(&mut wad, &mut stream, &plaintext(i as u8, *size), &mut title_metadata)
            .unwrap();
    }
    (wad, stream, title_metadata)
}

fn read_content(
    wad: &InstallableWad,
    stream: &Stream,
    title_metadata: &TitleMetadata,
    position: usize,
) -> Vec<u8> {
    let stream = Stream::new(stream.as_slice().to_vec());
    let mut view = wad
        .decrypted_content_view(
            stream,
            &ticket(),
            title_metadata,
            CryptographicMethod::Wii,
            title_metadata.select_with_physical_position(position),
        )
        .unwrap();
    let mut data = vec![0; title_metadata.content_chunk_entries[position].size as usize];
    assert_eq!(view.read(&mut data), Ok(data.len()));
    data
}

#[test]
fn sections_and_contents_stand_on_the_boundary() {
    let (wad, mut stream, title_metadata) = wad_with_contents();
    assert_eq!(wad.certificate_chain_size, chain().size());
    assert_eq!(wad.ticket_size, ticket().size());
    assert_eq!(wad.title_metadata_size, title_metadata.size());
    assert_eq!(wad.title_metadata_size, 100 + 384 + 3 * 36);
    assert_eq!(wad.content_size, 48 + 64 + 160);

    wad.seek_certificate_chain(&mut stream).unwrap();
    assert_eq!(stream.stream_position(), 64);
    wad.seek_ticket(&mut stream).unwrap();
    let ticket_offset = 64 + chain().size() as u64;
    assert_eq!(stream.stream_position(), ticket_offset);
    wad.seek_title_metadata(&mut stream).unwrap();
    // 292 + 384 bytes of ticket, brought to the boundary.
    let title_metadata_offset = ticket_offset + 704;
    assert_eq!(stream.stream_position(), title_metadata_offset);
    // 592 bytes of title metadata, brought to the boundary.
    let contents_offset = title_metadata_offset + 640;
    for (position, offset) in [(0, 0), (1, 64), (2, 128)] {
        wad.seek_content(
            &mut stream,
            &title_metadata,
            title_metadata.select_with_physical_position(position),
        )
        .unwrap();
        assert_eq!(stream.stream_position(), contents_offset + offset);
        assert_eq!(stream.stream_position() % 64, 0);
        assert_eq!(wad.content_offset(&title_metadata, position), Some(contents_offset + offset));
    }
    assert_eq!(stream.len(), contents_offset + 128 + 192);
    assert_eq!(InstallableWad::align_u64(592), 640);
}

#[test]
fn wad_is_read_back() {
    let (wad, mut stream, title_metadata) = wad_with_contents();
    stream.seek(SeekFrom::Start(0)).unwrap();
    assert_eq!(Wad::new(&mut stream), Ok(Wad::Installable(wad)));
    stream.seek(SeekFrom::Start(0)).unwrap();
    assert_eq!(Wad::try_new_installable(&mut stream), Ok(wad));
    assert_eq!(stream.stream_position(), 32);

    assert_eq!(wad.certificate_chain(&mut stream), Ok(chain()));
    assert_eq!(wad.ticket(&mut stream), Ok(ticket()));
    assert_eq!(wad.title_metadata(&mut stream), Ok(title_metadata.clone()));

    for (position, size) in SIZES.iter().enumerate() {
        let plain = plaintext(position as u8, *size);
        assert_eq!(read_content(&wad, &stream, &title_metadata, position), plain);
        let entry = title_metadata.content_chunk_entries[position];
        assert_eq!(entry.size, *size as u64);
        assert_eq!(
            entry.hash,
            TitleMetadataContentEntryHashKind::Version0(sha1::Sha1::digest(&plain).into())
        );
        assert_eq!(entry.hash, content_hash(false, &plain));
    }
    assert_eq!(
        content_hash(true, b"abc"),
        TitleMetadataContentEntryHashKind::Version1(sha2::Sha256::digest(b"abc").into())
    );

    // The header: 32, the letters `Is`, the version, the sizes.
    let bytes = stream.as_slice();
    assert_eq!(bytes[0..8], [0, 0, 0, 32, 0x49, 0x73, 0, 0]);
    assert_eq!(bytes[8..12], chain().size().to_be_bytes());
    assert_eq!(bytes[24..28], 272u32.to_be_bytes());
    assert!(bytes[32..64].iter().all(|byte| *byte == 0));
}

#[test]
fn views_reach_over_their_section() {
    let (wad, stream, title_metadata) = wad_with_contents();
    let mut view = wad.ticket_view(stream).unwrap();
    assert_eq!(view.len(), ticket().size() as usize);
    let mut bytes = vec![0; 1000];
    assert_eq!(view.read(&mut bytes), Ok(676));
    let mut expected = vec![];
    ticket().serialize_into(&mut expected);
    assert_eq!(bytes[..676], expected);

    let view = wad.title_metadata_view(view.into_inner()).unwrap();
    assert_eq!(view.len(), 592);
    let view = wad.take_certificate_chain(view.into_inner()).unwrap();
    assert_eq!(view.len(), chain().size() as usize);

    let mut view = wad
        .encrypted_content_view(view.into_inner(), &title_metadata, title_metadata.select_last())
        .unwrap();
    assert_eq!(view.len(), 160);
    let mut cipher = vec![0; 200];
    assert_eq!(view.read(&mut cipher), Ok(160));
    assert_eq!(
        cipher[..160],
        encrypt_content(&ticket(), CryptographicMethod::Wii, 2, &plaintext(2, 160)).unwrap()
    );
    assert_ne!(cipher[..160], plaintext(2, 160));
}

#[test]
fn unknown_wads_are_refused() {
    let (_, stream, _) = wad_with_contents();
    let good = stream.into_inner();
    let parse = |change: &dyn Fn(&mut Vec<u8>)| {
        let mut bytes = good.clone();
        change(&mut bytes);
        Wad::new(&mut Stream::new(bytes))
    };
    assert_eq!(parse(&|bytes| bytes[3] = 0x21), Err(WadError::UnknownWadFormatError));
    // A boot2 WAD is an installable WAD too.
    assert_eq!(
        parse(&|bytes| bytes[4..6].copy_from_slice(b"ib")).map(|wad| match wad {
            Wad::Installable(wad) => Some(wad.kind),
            Wad::BackUp => None,
        }),
        Ok(Some(InstallableWadKind::Boot2))
    );
    assert_eq!(
        parse(&|bytes| bytes[4..6].copy_from_slice(b"xy")),
        Err(WadError::UnknownWadFormatError)
    );
    assert_eq!(parse(&|bytes| bytes[7] = 1), Err(WadError::UnknownWadFormatError));
    assert_eq!(
        parse(&|bytes| bytes.truncate(7)),
        Err(WadError::IoError(StreamError::UnexpectedEof))
    );
    assert_eq!(
        parse(&|bytes| bytes.truncate(31)),
        Err(WadError::InstallableWadParseError(InstallableWadError::IoError(
            StreamError::UnexpectedEof
        )))
    );

    let header = |change: &dyn Fn(&mut Vec<u8>)| {
        let mut bytes = good.clone();
        change(&mut bytes);
        InstallableWad::new(&mut Stream::new(bytes))
    };
    assert_eq!(
        header(&|bytes| bytes[4..6].copy_from_slice(b"ib")).unwrap().kind,
        InstallableWadKind::Boot2
    );
    assert_eq!(
        header(&|bytes| bytes[4..6].copy_from_slice(b"xy")),
        Err(InstallableWadError::UnknownInstallableWadTypeError(*b"xy"))
    );
    assert_eq!(
        header(&|bytes| bytes[7] = 1),
        Err(InstallableWadError::UnknownFormatVersion(1))
    );
}

#[test]
fn written_header_of_either_kind_is_told_for_an_installable_wad() {
    for kind in [InstallableWadKind::Normal, InstallableWadKind::Boot2] {
        let wad = InstallableWad {
            header_size: 32,
            kind,
            certificate_chain_size: 0x0A00,
            ticket_size: 0x02A4,
            title_metadata_size: 0x0208,
            content_size: 0x0012_3450,
            footer_size: 0,
        };
        let mut stream = Stream::new(vec![]);
        wad.dump(&mut stream).unwrap();
        assert_eq!(stream.len(), 64);
        stream.seek(SeekFrom::Start(0)).unwrap();
        assert_eq!(Wad::try_new_installable(&mut stream), Ok(wad));
        assert_eq!(stream.stream_position(), 32);
        stream.seek(SeekFrom::Start(0)).unwrap();
        assert_eq!(Wad::new(&mut stream), Ok(Wad::Installable(wad)));
    }
}

#[test]
fn header_is_read_back() {
    let wad = InstallableWad {
        header_size: 32,
        kind: InstallableWadKind::Boot2,
        certificate_chain_size: 1,
        ticket_size: 2,
        title_metadata_size: 3,
        content_size: 4,
        footer_size: 5,
    };
    let mut stream = Stream::new(vec![]);
    wad.dump(&mut stream).unwrap();
    assert_eq!(stream.stream_position(), 64);
    assert_eq!(stream.as_slice()[4..6], *b"ib");
    stream.seek(SeekFrom::Start(0)).unwrap();
    assert_eq!(InstallableWad::new(&mut stream), Ok(wad));
}

#[test]
fn remove_then_add_of_the_last_content_restores_the_wad() {
    let (mut wad, mut stream, mut title_metadata) = wad_with_contents();
    let before = stream.as_slice().to_vec();
    let before_wad = wad;
    let before_title_metadata = title_metadata.clone();
    let ticket = ticket();

    let selector = title_metadata.select_last();
    wad.modify_content().remove(&mut wad, &mut stream, selector, &mut title_metadata).unwrap();
    assert_eq!(title_metadata.content_chunk_entries.len(), 2);
    assert_eq!(wad.content_size, 48 + 64);
    assert_ne!(stream.as_slice(), before);

    wad.modify_content()
        .set_cryptography(&ticket, CryptographicMethod::Wii)
        .set_id(0x102)
        .set_index(2)
        .set_kind(TitleMetadataContentEntryKind::Normal)
        .add(&mut wad, &mut stream, &plaintext(2, 160), &mut title_metadata)
        .unwrap();
    assert_eq!(stream.as_slice(), before);
    assert_eq!(wad, before_wad);
    assert_eq!(title_metadata, before_title_metadata);
}

#[test]
fn replace_with_the_same_plaintext_changes_nothing() {
    for position in 0..3 {
        let (mut wad, mut stream, mut title_metadata) = wad_with_contents();
        let before = stream.as_slice().to_vec();
        let before_title_metadata = title_metadata.clone();
        let ticket = ticket();
        let selector = title_metadata.select_with_physical_position(position);
        wad.modify_content()
            .set_cryptography(&ticket, CryptographicMethod::Wii)
            .replace(
                &mut wad,
                &mut stream,
                &plaintext(position as u8, SIZES[position]),
                selector,
                &mut title_metadata,
            )
            .unwrap();
        assert_eq!(stream.as_slice(), before);
        assert_eq!(title_metadata, before_title_metadata);
    }
}

#[test]
fn replace_moves_the_contents_behind() {
    let (mut wad, mut stream, mut title_metadata) = wad_with_contents();
    let ticket = ticket();
    let new_plain = plaintext(9, 16 * 9);
    let selector = title_metadata.select_with_id(0x100);
    wad.modify_content()
        .set_cryptography(&ticket, CryptographicMethod::Wii)
        .set_index(7)
        .set_kind(TitleMetadataContentEntryKind::Dlc)
        .replace(&mut wad, &mut stream, &new_plain, selector, &mut title_metadata)
        .unwrap();

    let entry = title_metadata.content_chunk_entries[0];
    assert_eq!(entry.id, 0x100);
    assert_eq!(entry.index, 7);
    assert_eq!(entry.kind, TitleMetadataContentEntryKind::Dlc);
    assert_eq!(entry.size, 144);
    assert_eq!(entry.hash, content_hash(false, &new_plain));
    assert_eq!(wad.content_size, 144 + 64 + 160);
    assert_eq!(wad.title_metadata(&mut stream), Ok(title_metadata.clone()));
    stream.seek(SeekFrom::Start(0)).unwrap();
    assert_eq!(Wad::try_new_installable(&mut stream), Ok(wad));

    // The new content is encrypted under its new index, and the others are
    // as they were, two boundaries further.
    assert_eq!(read_content(&wad, &stream, &title_metadata, 0), new_plain);
    assert_eq!(read_content(&wad, &stream, &title_metadata, 1), plaintext(1, 64));
    assert_eq!(read_content(&wad, &stream, &title_metadata, 2), plaintext(2, 160));
    assert_eq!(
        wad.content_offset(&title_metadata, 1).unwrap() - wad.content_offset(&title_metadata, 0).unwrap(),
        192
    );
}

#[test]
fn remove_moves_the_contents_behind_up() {
    let (mut wad, mut stream, mut title_metadata) = wad_with_contents();
    let len = stream.len();
    let selector = title_metadata.select_with_index(0);
    wad.modify_content()
        .trim_if_file(true)
        .remove(&mut wad, &mut stream, selector, &mut title_metadata)
        .unwrap();

    assert_eq!(title_metadata.content_chunk_entries.len(), 2);
    assert_eq!(title_metadata.content_chunk_entries[0].id, 0x101);
    assert_eq!(wad.content_size, 64 + 160);
    assert_eq!(wad.title_metadata_size, 100 + 384 + 2 * 36);
    assert_eq!(wad.title_metadata(&mut stream), Ok(title_metadata.clone()));
    assert_eq!(read_content(&wad, &stream, &title_metadata, 0), plaintext(1, 64));
    assert_eq!(read_content(&wad, &stream, &title_metadata, 1), plaintext(2, 160));
    // The title metadata is a boundary shorter, and so is the first content
    // that left.
    assert_eq!(stream.len(), len - 64 - 64);

    // Without the cut the stream keeps its length.
    let (mut wad, mut stream, mut title_metadata) = wad_with_contents();
    let selector = title_metadata.select_with_index(0);
    wad.modify_content().remove(&mut wad, &mut stream, selector, &mut title_metadata).unwrap();
    assert_eq!(stream.len(), len);
    assert_eq!(read_content(&wad, &stream, &title_metadata, 1), plaintext(2, 160));
}

#[test]
fn safe_writes_keep_the_contents() {
    let (mut wad, mut stream, title_metadata) = wad_with_contents();
    let mut bigger = ticket();
    bigger.version_1_extension = Some(PreSwitchTicketV1 {
        sections: vec![PreSwitchTicketV1Section {
            records: PreSwitchTicketV1Records::ContentConsumption(vec![
                PreSwitchTicketV1RecordContentConsumption {
                    content_index: 0,
                    limit_code: 1,
                    limit_value: 2,
                };
                20
            ]),
            flags: 0,
        }],
        flags: 0,
    });
    let contents_offset = wad.content_offset(&title_metadata, 0).unwrap();
    wad.write_ticket_safe(&mut stream, &bigger, &title_metadata).unwrap();
    assert_eq!(wad.ticket_size, 676 + 20 + 20 + 160);
    assert_eq!(wad.content_offset(&title_metadata, 0), Some(contents_offset + 192));
    assert_eq!(wad.ticket(&mut stream), Ok(bigger.clone()));
    assert_eq!(wad.title_metadata(&mut stream), Ok(title_metadata.clone()));
    for (position, size) in SIZES.iter().enumerate() {
        assert_eq!(
            read_content(&wad, &stream, &title_metadata, position),
            plaintext(position as u8, *size)
        );
    }
    stream.seek(SeekFrom::Start(0)).unwrap();
    assert_eq!(Wad::try_new_installable(&mut stream), Ok(wad));

    // Back to the smaller ticket, with the stream cut behind the contents.
    let (_, fresh, _) = wad_with_contents();
    wad.write_ticket_safe_file(&mut stream, &ticket(), &title_metadata).unwrap();
    assert_eq!(stream.as_slice(), fresh.as_slice());

    // A smaller chain.
    let mut smaller = chain();
    smaller.certificates.truncate(1);
    wad.write_certificate_chain_safe_file(&mut stream, &smaller, &ticket(), &title_metadata)
        .unwrap();
    assert_eq!(wad.certificate_chain_size, 1024);
    assert_eq!(stream.len(), fresh.len() - 768 - 576);
    for (position, size) in SIZES.iter().enumerate() {
        assert_eq!(
            read_content(&wad, &stream, &title_metadata, position),
            plaintext(position as u8, *size)
        );
    }

    // Another title metadata of the same contents.
    let mut renamed = title_metadata.clone();
    renamed.title_version = 2;
    renamed.content_chunk_entries[1].id = 0x777;
    wad.write_title_metadata_safe_file(&mut stream, &renamed).unwrap();
    assert_eq!(wad.title_metadata(&mut stream), Ok(renamed.clone()));
    assert_eq!(read_content(&wad, &stream, &renamed, 2), plaintext(2, 160));
}

#[test]
fn raw_writes_leave_what_follows() {
    let (mut wad, mut stream, title_metadata) = wad_with_contents();
    let before = stream.as_slice().to_vec();
    let mut other = ticket();
    other.title_version = 9;
    wad.write_ticket_raw(&other, &mut stream).unwrap();
    assert_eq!(stream.stream_position(), 64);
    assert_eq!(wad.ticket(&mut stream), Ok(other));
    let ticket_offset = 64 + chain().size() as usize;
    assert_eq!(stream.as_slice()[..ticket_offset], before[..ticket_offset]);
    assert_eq!(stream.as_slice()[ticket_offset + 704..], before[ticket_offset + 704..]);
    assert_eq!(wad.title_metadata(&mut stream), Ok(title_metadata));

    let mut renamed = chain();
    renamed.certificates[0].identity = String::from("XS");
    wad.write_certificate_chain_raw(&renamed, &mut stream).unwrap();
    assert_eq!(wad.certificate_chain(&mut stream), Ok(renamed));

    let mut title_metadata = wad.title_metadata(&mut stream).unwrap();
    title_metadata.group_id = 7;
    wad.write_title_metadata_raw(&title_metadata, &mut stream).unwrap();
    assert_eq!(wad.title_metadata(&mut stream), Ok(title_metadata));
}

#[test]
fn editor_errors() {
    let (mut wad, mut stream, mut title_metadata) = wad_with_contents();
    let before = stream.as_slice().to_vec();
    let ticket = ticket();
    let data = plaintext(5, 32);

    let builder = wad.modify_content();
    assert_eq!(
        builder.add(&mut wad, &mut stream, &data, &mut title_metadata),
        Err(InstallableWadError::ModifyContentMissingSetting(ModifyContentSetting::Id))
    );
    let builder = builder.set_id(1);
    assert_eq!(
        builder.add(&mut wad, &mut stream, &data, &mut title_metadata),
        Err(InstallableWadError::ModifyContentMissingSetting(ModifyContentSetting::Index))
    );
    let builder = builder.set_index(1);
    assert_eq!(
        builder.add(&mut wad, &mut stream, &data, &mut title_metadata),
        Err(InstallableWadError::ModifyContentMissingSetting(ModifyContentSetting::Kind))
    );
    let builder = builder.set_kind(TitleMetadataContentEntryKind::Normal);
    assert_eq!(
        builder.add(&mut wad, &mut stream, &data, &mut title_metadata),
        Err(InstallableWadError::ModifyContentMissingSetting(ModifyContentSetting::Cryptography))
    );
    let selector = title_metadata.select_first();
    assert_eq!(
        builder.replace(&mut wad, &mut stream, &data, selector, &mut title_metadata),
        Err(InstallableWadError::ModifyContentMissingSetting(ModifyContentSetting::Cryptography))
    );
    let builder = builder.set_cryptography(&ticket, CryptographicMethod::Wii);
    let selector = title_metadata.select_with_id(9);
    assert_eq!(
        builder.replace(&mut wad, &mut stream, &data, selector, &mut title_metadata),
        Err(InstallableWadError::TitleMetadataError(TitleMetadataError::ContentNotFound()))
    );
    assert_eq!(
        builder.remove(&mut wad, &mut stream, selector, &mut title_metadata),
        Err(InstallableWadError::TitleMetadataError(TitleMetadataError::ContentNotFound()))
    );
    assert_eq!(stream.as_slice(), before);

    assert_eq!(
        wad.seek_content(&mut stream, &title_metadata, title_metadata.select_with_physical_position(3)),
        Err(InstallableWadError::TitleMetadataEntryNotFoundError)
    );
    assert_eq!(
        wad.seek_content(&mut stream, &title_metadata, title_metadata.select_with_index(3)),
        Err(InstallableWadError::TitleMetadataError(TitleMetadataError::ContentNotFound()))
    );

    // A plaintext that is no whole number of blocks.
    assert_eq!(
        builder.add(&mut wad, &mut stream, &plaintext(5, 33), &mut title_metadata),
        Err(InstallableWadError::IoError(StreamError::Cipher))
    );

    // A ticket that names no common key.
    let (mut wad, mut stream, mut title_metadata) = wad_with_contents();
    let mut unknown = ticket.clone();
    unknown.common_key_kind_index = 5;
    let builder = builder.set_cryptography(&unknown, CryptographicMethod::Wii);
    assert_eq!(
        builder.add(&mut wad, &mut stream, &data, &mut title_metadata),
        Err(InstallableWadError::TicketError(PreSwitchTicketError::CommonKeyError(
            CommonKeyKindError::UnknownCommonKeyIndex(5)
        )))
    );
    assert_eq!(
        wad.decrypted_content_view(
            stream,
            &unknown,
            &title_metadata,
            CryptographicMethod::Wii,
            title_metadata.select_first()
        )
        .err(),
        Some(InstallableWadError::TicketError(PreSwitchTicketError::CommonKeyError(
            CommonKeyKindError::UnknownCommonKeyIndex(5)
        )))
    );
}

#[test]
fn first_content_goes_behind_the_title_metadata() {
    let (mut wad, mut stream, mut title_metadata) = empty_wad();
    assert_eq!(wad.content_size, 0);
    let end = stream.len();
    assert_eq!(end % 64, 0);
    assert_eq!(wad.content_offset(&title_metadata, 0), Some(end));
    let ticket = ticket();
    wad.modify_content()
        .set_cryptography(&ticket, CryptographicMethod::Wii)
        .set_id(1)
        .set_index(0)
        .set_kind(TitleMetadataContentEntryKind::Shared)
        .add(&mut wad, &mut stream, &plaintext(1, 16), &mut title_metadata)
        .unwrap();
    assert_eq!(read_content(&wad, &stream, &title_metadata, 0), plaintext(1, 16));
    assert_eq!(wad.content_size, 16);

    let selector = title_metadata.select_first();
    wad.modify_content()
        .trim_if_file(true)
        .remove(&mut wad, &mut stream, selector, &mut title_metadata)
        .unwrap();
    assert_eq!(wad.content_size, 0);
    assert_eq!(stream.len(), end);
    assert_eq!(wad.title_metadata(&mut stream), Ok(title_metadata));
}
