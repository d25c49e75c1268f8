use aes::cipher::{KeyIvInit, StreamCipher};
use hmac::Mac;
use niiebla::icebrk::{
    master_key_of_code, v0_master_key_of, v3_master_key_of_code, V1Keys, V2KeyBlob, V2Keys,
    V3Keys,
};
use niiebla::{
    calculate_v0_master_key, calculate_v1_master_key, calculate_v2_master_key,
    calculate_v3_master_key, Platform, V1Error, V2Error, V3Error,
};

const INQUIRY_NUMBER: u32 = 84293062;
const DAY: u8 = 5;
const MONTH: u8 = 8;

#[test]
fn wii_platform() {
    assert_eq!(
        calculate_v0_master_key(Platform::Wii, INQUIRY_NUMBER, DAY, MONTH),
        66150
    );
}

#[test]
fn dsi_platform() {
    assert_eq!(
        calculate_v0_master_key(Platform::Dsi, INQUIRY_NUMBER, DAY, MONTH),
        66150
    );
}

#[test]
fn wiiu_platform() {
    assert_eq!(
        calculate_v0_master_key(Platform::WiiU, INQUIRY_NUMBER, DAY, MONTH),
        87902
    );
}

#[test]
fn the_3ds_platform() {
    assert_eq!(
        calculate_v0_master_key(Platform::The3ds, INQUIRY_NUMBER, DAY, MONTH),
        87902
    );
}

#[test]
fn v0_takes_the_last_four_digits_only() {
    assert_eq!(
        calculate_v0_master_key(Platform::Wii, 3062, DAY, MONTH),
        calculate_v0_master_key(Platform::Wii, INQUIRY_NUMBER, DAY, MONTH)
    );
    assert_ne!(
        calculate_v0_master_key(Platform::Wii, INQUIRY_NUMBER, DAY + 1, MONTH),
        calculate_v0_master_key(Platform::Wii, INQUIRY_NUMBER, DAY, MONTH)
    );
}

#[test]
fn v0_master_key_of_a_checksum() {
    assert_eq!(v0_master_key_of(0, 0x14C1), 5313);
    assert_eq!(v0_master_key_of(123_456_789, 0x1657), 62508);
    // The sum is taken in 32 bits.
    assert_eq!(v0_master_key_of(u32::MAX, 0x14C1), 5312);
}

#[test]
fn master_key_of_a_code_in_both_byte_orders() {
    let mut code = [0u8; 32];
    code[0] = 0x01;
    code[1] = 0x02;
    code[2] = 0x03;
    code[3] = 0x04;
    code[4] = 0xFF;
    assert_eq!(master_key_of_code(&code, true), 0x0102_0304 % 100000);
    assert_eq!(master_key_of_code(&code, false), 0x0403_0201 % 100000);
}

#[test]
fn v3_master_key_of_a_code_counts_48_bits() {
    let mut code = [0u8; 32];
    code[..8].copy_from_slice(&[0x11, 0x22, 0x33, 0x44, 0x55, 0x66, 0x77, 0x88]);
    assert_eq!(v3_master_key_of_code(&code), 0x6655_4433_2211 % 100_000_000);
    assert_eq!(v3_master_key_of_code(&[0xFF; 32]), 0xFFFF_FFFF_FFFF % 100_000_000);
}

fn hmac_sha256(key: &[u8], data: &[u8]) -> [u8; 32] {
    let mut mac = hmac::Hmac::<sha2::Sha256>::new_from_slice(key).unwrap();
    mac.update(data);
    mac.finalize().into_bytes().into()
}

fn v1_keys() -> V1Keys {
    V1Keys { region_00: [0x10; 32], region_01: [0x11; 32], region_02: [0x12; 32] }
}

#[test]
fn v1_takes_the_key_of_the_region() {
    let keys = v1_keys();
    for (inquiry, key) in [
        (123456789u64, [0x10u8; 32]),
        (1123456789, [0x11; 32]),
        (2123456789, [0x12; 32]),
    ] {
        let input = format!("{MONTH:0>2}{DAY:0>2}{inquiry:0>10}");
        let code = hmac_sha256(&key, input.as_bytes());
        let expected = u32::from_le_bytes([code[0], code[1], code[2], code[3]]) % 100000;
        assert_eq!(calculate_v1_master_key(&keys, inquiry, DAY, MONTH), Ok(expected));
    }
}

#[test]
fn v1_refuses_an_unknown_region() {
    assert_eq!(
        calculate_v1_master_key(&v1_keys(), 3123456789, DAY, MONTH),
        Err(V1Error::UnknownRegion(3))
    );
    assert_eq!(
        calculate_v1_master_key(&v1_keys(), 9999999999, 31, 12),
        Err(V1Error::UnknownRegion(9))
    );
}

fn v3_keys() -> V3Keys {
    V3Keys {
        version_0a: [0x0A; 32],
        version_0b: [0x0B; 32],
        version_0c: [0x0C; 32],
        version_0d: [0x0D; 32],
    }
}

#[test]
fn v3_takes_the_key_of_the_version() {
    let keys = v3_keys();
    for (inquiry, key) in [
        (1034567890u64, [0x0Au8; 32]),
        (1134567890, [0x0B; 32]),
        (1234567890, [0x0C; 32]),
        (1334567890, [0x0D; 32]),
    ] {
        let input = format!("{inquiry:0>10}");
        let code = hmac_sha256(&key, input.as_bytes());
        let mut word = [0u8; 8];
        word.copy_from_slice(&code[..8]);
        let expected = (u64::from_le_bytes(word) & 0x0000_FFFF_FFFF_FFFF) % 100000000;
        assert_eq!(calculate_v3_master_key(&keys, inquiry), Ok(expected));
    }
}

#[test]
fn v3_refuses_an_unknown_version() {
    assert_eq!(
        calculate_v3_master_key(&v3_keys(), 9900000000),
        Err(V3Error::UnknownVersion(0x63))
    );
    assert_eq!(calculate_v3_master_key(&v3_keys(), 12), Err(V3Error::UnknownVersion(0)));
    assert_eq!(
        calculate_v3_master_key(&v3_keys(), 1434567890),
        Err(V3Error::UnknownVersion(14))
    );
}

fn blob(region: u8, version: u8) -> Vec<u8> {
    (0..64u8).map(|i| i ^ region.wrapping_mul(31) ^ version.wrapping_mul(7)).collect()
}

fn v2_keys() -> V2Keys {
    let mut the_3ds_hmac_keys = vec![];
    for (region, versions) in [
        (0u8, 0x0Au8..=0x11u8),
        (1, 0x0A..=0x2B),
        (2, 0x0A..=0x2B),
        (5, 0x12..=0x2A),
        (9, 0x12..=0x2B),
    ] {
        for version in versions {
            the_3ds_hmac_keys.push(V2KeyBlob { region, version, data: blob(region, version) });
        }
    }
    V2Keys {
        the_3ds_aes_key_region_00_and_09: [0x20; 16],
        the_3ds_aes_key_region_01: [0x21; 16],
        the_3ds_aes_key_region_02: [0x22; 16],
        the_3ds_aes_key_region_05: [0x25; 16],
        wii_u_aes_key_region_01: [0x31; 16],
        wii_u_aes_key_region_02: [0x32; 16],
        wii_u_aes_key_region_03: [0x33; 16],
        the_3ds_hmac_keys,
        wii_u_hmac_key_region_01: blob(101, 0),
        wii_u_hmac_key_region_02: blob(102, 0),
        wii_u_hmac_key_region_03: blob(103, 0),
    }
}

fn expected_v2(aes_key: [u8; 16], blob: &[u8], inquiry: u64, big_endian: bool) -> u32 {
    let mut counter = [0u8; 16];
    counter.copy_from_slice(&blob[16..32]);
    let mut key = [0u8; 32];
    key.copy_from_slice(&blob[32..64]);
    let mut cipher = ctr::Ctr128BE::<aes::Aes128>::new(&aes_key.into(), &counter.into());
    cipher.apply_keystream(&mut key);
    let input = format!("{MONTH:0>2}{DAY:0>2}{inquiry:0>10}");
    let code = hmac_sha256(&key, input.as_bytes());
    let word = [code[0], code[1], code[2], code[3]];
    (if big_endian { u32::from_be_bytes(word) } else { u32::from_le_bytes(word) }) % 100000
}

#[test]
fn v2_keys_are_complete_with_every_known_blob() {
    let mut keys = v2_keys();
    assert!(keys.is_complete());
    assert_eq!(keys.the_3ds_hmac_keys.len(), 127);
    assert_eq!(keys.find_blob(5, 0x2A), Some(8 + 34 + 34 + 24));
    assert_eq!(keys.find_blob(5, 0x2B), None);
    keys.the_3ds_hmac_keys[3].data.truncate(63);
    assert!(!keys.is_complete());
    let mut keys = v2_keys();
    keys.the_3ds_hmac_keys.remove(100);
    assert!(!keys.is_complete());
    let mut keys = v2_keys();
    keys.wii_u_hmac_key_region_02.clear();
    assert!(!keys.is_complete());
}

#[test]
fn v2_unwraps_the_key_of_the_region_and_the_version() {
    let keys = v2_keys();
    // 3DS, region 1, version 0x1A.
    assert_eq!(
        calculate_v2_master_key(&keys, Platform::The3ds, 1264567890, DAY, MONTH),
        Ok(expected_v2([0x21; 16], &blob(1, 0x1A), 1264567890, false))
    );
    // 3DS, region 9, version 0x12: the key of the regions 0 and 9.
    assert_eq!(
        calculate_v2_master_key(&keys, Platform::The3ds, 9184567890, DAY, MONTH),
        Ok(expected_v2([0x20; 16], &blob(9, 0x12), 9184567890, false))
    );
    // 3DS, region 0, version 0x11.
    assert_eq!(
        calculate_v2_master_key(&keys, Platform::The3ds, 174567890, DAY, MONTH),
        Ok(expected_v2([0x20; 16], &blob(0, 0x11), 174567890, false))
    );
    // Wii U, region 3, whatever the version: the most significant byte
    // comes first.
    assert_eq!(
        calculate_v2_master_key(&keys, Platform::WiiU, 3994567890, DAY, MONTH),
        Ok(expected_v2([0x33; 16], &blob(103, 0), 3994567890, true))
    );
}

#[test]
fn v2_refuses_unknown_regions_and_versions() {
    let keys = v2_keys();
    assert_eq!(
        calculate_v2_master_key(&keys, Platform::WiiU, 123456789, DAY, MONTH),
        Err(V2Error::UnknownRegion(0))
    );
    assert_eq!(
        calculate_v2_master_key(&keys, Platform::WiiU, 4123456789, DAY, MONTH),
        Err(V2Error::UnknownRegion(4))
    );
    assert_eq!(
        calculate_v2_master_key(&keys, Platform::The3ds, 3123456789, DAY, MONTH),
        Err(V2Error::UnknownRegion(3))
    );
    assert_eq!(
        calculate_v2_master_key(&keys, Platform::The3ds, 184567890, DAY, MONTH),
        Err(V2Error::UnknownRegionOrVersion(0, 18))
    );
    assert_eq!(
        calculate_v2_master_key(&keys, Platform::The3ds, 5434567890, DAY, MONTH),
        Err(V2Error::UnknownRegionOrVersion(5, 43))
    );
    assert_eq!(
        calculate_v2_master_key(&keys, Platform::The3ds, 9094567890, DAY, MONTH),
        Err(V2Error::UnknownRegionOrVersion(9, 9))
    );
}
