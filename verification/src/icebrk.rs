//! The algorithms that Nintendo consoles use to derive the master key of
//! the parental control from an inquiry number and a date.
//!
//! The algorithms from the second on rest on keys that Nintendo ships with
//! its consoles. None of them is part of this library: the caller hands
//! them in.

use vstd::prelude::*;
use crate::bytes::{array_at, be_u32_at, le_u32_at, le_u64_at};
use crate::crypto::{
    aes128_ctr_applied, aes128_ctr_apply, crc32_checksum, crc32_of, hmac_sha256, hmac_sha256_of,
};
use crate::text::{push_decimal, spec_decimal_padded};

verus! {

broadcast use vstd::array::group_array_axioms;

/// Generic enum for a few platforms by Nintendo.
#[derive(Debug, Clone, Copy, PartialEq, Eq, Structural)]
pub enum Platform {
    /// The Nintendo Wii platform.
    Wii,
    /// The Nintendo DSi platform.
    Dsi,
    /// The Nintendo 3DS platform.
    The3ds,
    /// The Nintendo Wii U platform.
    WiiU,
    /// The Nintendo Switch platform
    Switch,
}

/// The initial value of the checksum of the first algorithm.
pub const CRC_INIT_VALUE: u32 = 0xFFFFFFFF;

/// The final xor of the checksum of the first algorithm.
pub const CRC_XOROUT: u32 = 0xAAAA;

/// The polynomial of the checksum on the Wii and the DSi.
pub const CRC_POLYNOMIAL_WII_AND_DSI: u32 = 0x04C11DB7;

/// The polynomial of the checksum on the Wii U and the 3DS.
pub const CRC_POLYNOMIAL_WIIU_AND_3DS: u32 = 0x04C65DB7;

/// What is added to the checksum on the Wii and the DSi.
pub const CRC_ADDOUT_WII_AND_DSI: u32 = 0x14C1;

/// What is added to the checksum on the Wii U and the 3DS.
pub const CRC_ADDOUT_WIIU_AND_3DS: u32 = 0x1657;

/// The greatest inquiry number of the first algorithm: eight digits.
pub const MAX_INQUIRY_NUMBER_V0: u32 = 99_999_999;

/// The greatest inquiry number of the later algorithms: ten digits.
pub const MAX_INQUIRY_NUMBER: u64 = 9_999_999_999;

/// Whether a day and a month can stand in a date.
pub open spec fn valid_date(day: u8, month: u8) -> bool {
    1 <= day <= 31 && 1 <= month <= 12
}

/// The polynomial and the addend of the first algorithm on a platform.
pub open spec fn spec_crc(platform: Platform) -> (u32, u32) {
    match platform {
        Platform::Wii | Platform::Dsi => (CRC_POLYNOMIAL_WII_AND_DSI, CRC_ADDOUT_WII_AND_DSI),
        _ => (CRC_POLYNOMIAL_WIIU_AND_3DS, CRC_ADDOUT_WIIU_AND_3DS),
    }
}

/// The polynomial and the addend of the first algorithm on a platform.
pub fn get_crc(platform: Platform) -> (crc: (u32, u32))
    requires
        platform != Platform::Switch,
    ensures
        crc == spec_crc(platform),
{
    match platform {
        Platform::Wii | Platform::Dsi => (CRC_POLYNOMIAL_WII_AND_DSI, CRC_ADDOUT_WII_AND_DSI),
        _ => (CRC_POLYNOMIAL_WIIU_AND_3DS, CRC_ADDOUT_WIIU_AND_3DS),
    }
}

/// The text that the first algorithm takes the checksum of: the month and
/// the day with two digits each, and the last four digits of the inquiry
/// number.
pub open spec fn spec_v0_input(inquiry_number: u32, day: u8, month: u8) -> Seq<u8> {
    spec_decimal_padded(month as nat, 2) + spec_decimal_padded(day as nat, 2)
        + spec_decimal_padded((inquiry_number % 10000) as nat, 4)
}

/// The master key that the first algorithm makes of a checksum: the
/// checksum and the addend, added up in 32 bits, modulo 100000.
pub open spec fn spec_v0_master_key_of(checksum: u32, addout: u32) -> u32 {
    (((checksum + addout) % 0x1_0000_0000) % 100000) as u32
}

/// The master key of the first algorithm.
pub open spec fn spec_v0_master_key(platform: Platform, inquiry_number: u32, day: u8, month: u8) -> u32 {
    spec_v0_master_key_of(
        crc32_of(
            spec_crc(platform).0,
            CRC_INIT_VALUE,
            true,
            true,
            CRC_XOROUT,
            spec_v0_input(inquiry_number, day, month),
        ),
        spec_crc(platform).1,
    )
}

/// The master key that the first algorithm makes of a checksum.
pub fn v0_master_key_of(checksum: u32, addout: u32) -> (master_key: u32)
    ensures
        master_key == spec_v0_master_key_of(checksum, addout),
        master_key < 100000,
{
    let sum = (checksum as u64 + addout as u64) % 0x1_0000_0000;
    (sum % 100000) as u32
}

/// Calculate the master key for the parental control using the v0
/// algorithm. The inquiry number has no more than 8 digits, and the day and
/// the month can stand in a date.
///
/// The master key is shown with leading zeros, with 5 digits in all.
///
/// Only works on Wii, DSi, 3DS (from 1.0.0 to 6.3.0) and Wii U (from 1.0.0 to
/// 4.1.0): the Switch has no such algorithm.
pub fn calculate_v0_master_key(platform: Platform, inquiry_number: u32, day: u8, month: u8) -> (master_key:
    u32)
    requires
        platform != Platform::Switch,
        inquiry_number <= MAX_INQUIRY_NUMBER_V0,
        valid_date(day, month),
    ensures
        master_key == spec_v0_master_key(platform, inquiry_number, day, month),
        master_key < 100000,
{
    let (polynomial, addout) = get_crc(platform);
    let mut input: Vec<u8> = Vec::new();
    push_decimal(&mut input, month as u64, 2);
    push_decimal(&mut input, day as u64, 2);
    push_decimal(&mut input, (inquiry_number % 10000) as u64, 4);
    assert(input@ =~= spec_v0_input(inquiry_number, day, month));
    let checksum = if polynomial == CRC_POLYNOMIAL_WII_AND_DSI {
        crc32_checksum::<CRC_POLYNOMIAL_WII_AND_DSI, CRC_INIT_VALUE, true, true, CRC_XOROUT>(
            input.as_slice(),
        )
    } else {
        crc32_checksum::<CRC_POLYNOMIAL_WIIU_AND_3DS, CRC_INIT_VALUE, true, true, CRC_XOROUT>(
            input.as_slice(),
        )
    };
    v0_master_key_of(checksum, addout)
}

/// The text that the second and the third algorithm take the code of: the
/// month and the day with two digits each, and the inquiry number with ten.
pub open spec fn spec_shared_input(inquiry_number: u64, day: u8, month: u8) -> Seq<u8> {
    spec_decimal_padded(month as nat, 2) + spec_decimal_padded(day as nat, 2)
        + spec_decimal_padded(inquiry_number as nat, 10)
}

/// The master key that the second and the third algorithm make of a code:
/// its first four bytes as a number, most significant byte first on the Wii
/// U and last elsewhere, modulo 100000.
pub open spec fn spec_master_key_of_code(code: Seq<u8>, big_endian: bool) -> u32 {
    ((if big_endian {
        be_u32_at(code, 0)
    } else {
        le_u32_at(code, 0)
    }) % 100000) as u32
}

/// The master key that the second and the third algorithm make of a code.
pub fn master_key_of_code(code: &[u8; 32], big_endian: bool) -> (master_key: u32)
    ensures
        master_key == spec_master_key_of_code(code@, big_endian),
        master_key < 100000,
{
    let output = if big_endian {
        crate::bytes::decode_be_u32(code.as_slice(), 0)
    } else {
        crate::bytes::decode_le_u32(code.as_slice(), 0)
    };
    output % 100000
}

/// The master key of the second and the third algorithm under a key.
pub open spec fn spec_shared_master_key(
    hmac_key: Seq<u8>,
    inquiry_number: u64,
    day: u8,
    month: u8,
    big_endian: bool,
) -> u32 {
    spec_master_key_of_code(
        hmac_sha256_of(hmac_key, spec_shared_input(inquiry_number, day, month)),
        big_endian,
    )
}

/// The part that the second and the third algorithm share: the HMAC-SHA-256
/// code of the date and the inquiry number under the key, and the master
/// key of that code.
pub fn calculate_master_key_shared_v1_and_v2(
    hmac_key: &[u8; 32],
    inquiry_number: u64,
    day: u8,
    month: u8,
    big_endian: bool,
) -> (master_key: u32)
    ensures
        master_key == spec_shared_master_key(hmac_key@, inquiry_number, day, month, big_endian),
        master_key < 100000,
{
    let mut input: Vec<u8> = Vec::new();
    push_decimal(&mut input, month as u64, 2);
    push_decimal(&mut input, day as u64, 2);
    push_decimal(&mut input, inquiry_number, 10);
    assert(input@ =~= spec_shared_input(inquiry_number, day, month));
    let code = hmac_sha256(hmac_key.as_slice(), input.as_slice()).unwrap();
    master_key_of_code(&code, big_endian)
}

/// Why the second algorithm found no key.
#[derive(Debug, Clone, Copy, PartialEq, Eq, Structural)]
pub enum V1Error {
    /// The inquiry number has an unknown region encoded.
    UnknownRegion(u8),
}

/// The keys of the second algorithm: one for each region of the 3DS that a
/// key is known for.
#[derive(Debug, Clone, Copy, PartialEq, Eq)]
pub struct V1Keys {
    /// The key of the region 0.
    pub region_00: [u8; 32],
    /// The key of the region 1.
    pub region_01: [u8; 32],
    /// The key of the region 2.
    pub region_02: [u8; 32],
}

impl V1Keys {
    /// The key of a region; none above 2.
    pub open spec fn spec_key(self, region: int) -> Option<Seq<u8>> {
        if region == 0 {
            Some(self.region_00@)
        } else if region == 1 {
            Some(self.region_01@)
        } else if region == 2 {
            Some(self.region_02@)
        } else {
            None
        }
    }
}

/// The region that an inquiry number encodes: its first digit of ten.
pub open spec fn spec_region(inquiry_number: u64) -> int {
    inquiry_number as int / 1_000_000_000
}

/// The master key of the second algorithm, or the region that no key is
/// known for.
pub open spec fn spec_v1_master_key(keys: V1Keys, inquiry_number: u64, day: u8, month: u8) -> Result<
    u32,
    V1Error,
> {
    match keys.spec_key(spec_region(inquiry_number)) {
        None => Err(V1Error::UnknownRegion(spec_region(inquiry_number) as u8)),
        Some(key) => Ok(spec_shared_master_key(key, inquiry_number, day, month, false)),
    }
}

/// Calculate the master key for the parental control using the v1
/// algorithm. The inquiry number has no more than 10 digits, and the day
/// and the month can stand in a date.
///
/// The master key is shown with leading zeros, with 5 digits in all.
///
/// Only works on 3DS (from 7.0.0 to 7.1.0). Keys are known for the regions
/// 0, 1 and 2.
pub fn calculate_v1_master_key(keys: &V1Keys, inquiry_number: u64, day: u8, month: u8) -> (result:
    Result<u32, V1Error>)
    requires
        inquiry_number <= MAX_INQUIRY_NUMBER,
        valid_date(day, month),
    ensures
        result == spec_v1_master_key(*keys, inquiry_number, day, month),
        result is Ok ==> result->Ok_0 < 100000,
{
    let region = inquiry_number / 1_000_000_000;
    let hmac_key = if region == 0 {
        &keys.region_00
    } else if region == 1 {
        &keys.region_01
    } else if region == 2 {
        &keys.region_02
    } else {
        return Err(V1Error::UnknownRegion(region as u8));
    };
    Ok(calculate_master_key_shared_v1_and_v2(hmac_key, inquiry_number, day, month, false))
}

/// Why the third algorithm found no key.
#[derive(Debug, Clone, Copy, PartialEq, Eq, Structural)]
pub enum V2Error {
    /// The inquiry number has an unknown region encoded.
    UnknownRegion(u64),
    /// The inquiry number has a region and a version encoded that no key is
    /// known for together.
    UnknownRegionOrVersion(u64, u64),
}

/// The version that an inquiry number encodes for the third algorithm: its
/// second and third digit of ten.
pub open spec fn spec_version_v2(inquiry_number: u64) -> int {
    (inquiry_number as int / 10_000_000) % 100
}

/// Whether an AES key of the third algorithm is known for a region of a
/// platform.
pub open spec fn known_region(platform: Platform, region: int) -> bool {
    match platform {
        Platform::WiiU => region == 1 || region == 2 || region == 3,
        Platform::The3ds => region == 0 || region == 9 || region == 1 || region == 2 || region
            == 5,
        _ => false,
    }
}

/// Whether an encrypted HMAC key of the third algorithm is known for a
/// region and a version of the 3DS.
pub open spec fn known_the_3ds_version(region: int, version: int) -> bool {
    if region == 0 {
        0x0A <= version <= 0x11
    } else if region == 1 || region == 2 {
        0x0A <= version <= 0x2B
    } else if region == 5 {
        0x12 <= version <= 0x2A
    } else if region == 9 {
        0x12 <= version <= 0x2B
    } else {
        false
    }
}

/// An encrypted HMAC key of the third algorithm for the 3DS, with the region
/// and the version that it belongs to.
#[derive(Debug, Clone, PartialEq, Eq)]
pub struct V2KeyBlob {
    /// The region.
    pub region: u8,
    /// The version.
    pub version: u8,
    /// The blob: the counter in its bytes 16 to 32, and the encrypted key
    /// in its bytes 32 to 64.
    pub data: Vec<u8>,
}

/// The keys of the third algorithm.
#[derive(Debug, Clone, PartialEq, Eq)]
pub struct V2Keys {
    /// The AES key of the regions 0 and 9 of the 3DS.
    pub the_3ds_aes_key_region_00_and_09: [u8; 16],
    /// The AES key of the region 1 of the 3DS.
    pub the_3ds_aes_key_region_01: [u8; 16],
    /// The AES key of the region 2 of the 3DS.
    pub the_3ds_aes_key_region_02: [u8; 16],
    /// The AES key of the region 5 of the 3DS.
    pub the_3ds_aes_key_region_05: [u8; 16],
    /// The AES key of the region 1 of the Wii U.
    pub wii_u_aes_key_region_01: [u8; 16],
    /// The AES key of the region 2 of the Wii U.
    pub wii_u_aes_key_region_02: [u8; 16],
    /// The AES key of the region 3 of the Wii U.
    pub wii_u_aes_key_region_03: [u8; 16],
    /// The encrypted HMAC keys of the 3DS.
    pub the_3ds_hmac_keys: Vec<V2KeyBlob>,
    /// The encrypted HMAC key of the region 1 of the Wii U.
    pub wii_u_hmac_key_region_01: Vec<u8>,
    /// The encrypted HMAC key of the region 2 of the Wii U.
    pub wii_u_hmac_key_region_02: Vec<u8>,
    /// The encrypted HMAC key of the region 3 of the Wii U.
    pub wii_u_hmac_key_region_03: Vec<u8>,
}

/// The position of the first blob from `from` on for a region and a version,
/// if there is one.
pub open spec fn spec_find_blob(blobs: Seq<V2KeyBlob>, region: int, version: int, from: int) -> Option<
    int,
>
    decreases blobs.len() - from,
{
    if from < 0 || from >= blobs.len() {
        None
    } else if blobs[from].region == region && blobs[from].version == version {
        Some(from)
    } else {
        spec_find_blob(blobs, region, version, from + 1)
    }
}

impl V2Keys {
    /// The AES key of a region of a platform that a key is known for.
    pub open spec fn spec_aes_key(self, platform: Platform, region: int) -> Seq<u8> {
        if platform == Platform::WiiU {
            if region == 1 {
                self.wii_u_aes_key_region_01@
            } else if region == 2 {
                self.wii_u_aes_key_region_02@
            } else {
                self.wii_u_aes_key_region_03@
            }
        } else {
            if region == 0 || region == 9 {
                self.the_3ds_aes_key_region_00_and_09@
            } else if region == 1 {
                self.the_3ds_aes_key_region_01@
            } else if region == 2 {
                self.the_3ds_aes_key_region_02@
            } else {
                self.the_3ds_aes_key_region_05@
            }
        }
    }

    /// The encrypted HMAC key of a region and a version of a platform, where
    /// the keys hold one.
    pub open spec fn spec_blob(self, platform: Platform, region: int, version: int) -> Option<
        Seq<u8>,
    > {
        if platform == Platform::WiiU {
            if region == 1 {
                Some(self.wii_u_hmac_key_region_01@)
            } else if region == 2 {
                Some(self.wii_u_hmac_key_region_02@)
            } else {
                Some(self.wii_u_hmac_key_region_03@)
            }
        } else {
            match spec_find_blob(self.the_3ds_hmac_keys@, region, version, 0) {
                None => None,
                Some(position) => Some(self.the_3ds_hmac_keys@[position].data@),
            }
        }
    }

    /// The keys hold a blob of 64 bytes or more for every region of the Wii
    /// U and for every region and version of the 3DS that a key is known
    /// for.
    pub open spec fn wf(self) -> bool {
        &&& self.wii_u_hmac_key_region_01@.len() >= 64
        &&& self.wii_u_hmac_key_region_02@.len() >= 64
        &&& self.wii_u_hmac_key_region_03@.len() >= 64
        &&& forall|region: int, version: int|
            known_the_3ds_version(region, version) ==> {
                &&& (#[trigger] self.spec_blob(Platform::The3ds, region, version)) is Some
                &&& self.spec_blob(Platform::The3ds, region, version).unwrap().len() >= 64
            }
    }

    /// Whether the keys are complete: see `wf`.
    #[verifier::loop_isolation(false)]
    pub fn is_complete(&self) -> (complete: bool)
        ensures
            complete == self.wf(),
    {
        if self.wii_u_hmac_key_region_01.len() < 64 || self.wii_u_hmac_key_region_02.len() < 64
            || self.wii_u_hmac_key_region_03.len() < 64 {
            return false;
        }
        let mut region: u8 = 0;
        while region < 10
            invariant
                region <= 10,
                forall|r: int, v: int|
                    0 <= r < region && known_the_3ds_version(r, v) ==> {
                        &&& (#[trigger] self.spec_blob(Platform::The3ds, r, v)) is Some
                        &&& self.spec_blob(Platform::The3ds, r, v).unwrap().len() >= 64
                    },
            decreases 10 - region,
        {
            let mut version: u8 = 0;
            while version < 100
                invariant
                    version <= 100,
                    region < 10,
                    forall|v: int|
                        0 <= v < version && known_the_3ds_version(region as int, v) ==> {
                            &&& (#[trigger] self.spec_blob(Platform::The3ds, region as int, v)) is Some
                            &&& self.spec_blob(Platform::The3ds, region as int, v).unwrap().len()
                                >= 64
                        },
                decreases 100 - version,
            {
                if is_known_the_3ds_version(region as u64, version as u64) {
                    let ghost blob = self.spec_blob(Platform::The3ds, region as int, version as int);
                    match self.find_blob(region, version) {
                        Some(position) => {
                            if self.the_3ds_hmac_keys[position].data.len() < 64 {
                                assert(blob is Some && blob.unwrap().len() < 64);
                                return false;
                            }
                        },
                        None => {
                            assert(blob is None);
                            return false;
                        },
                    }
                }
                version += 1;
            }
            assert forall|r: int, v: int|
                0 <= r < region + 1 && known_the_3ds_version(r, v) implies {
                &&& (#[trigger] self.spec_blob(Platform::The3ds, r, v)) is Some
                &&& self.spec_blob(Platform::The3ds, r, v).unwrap().len() >= 64
            } by {
                if r == region {
                    assert(0 <= v < 100);
                }
            }
            region += 1;
        }
        assert forall|r: int, v: int| known_the_3ds_version(r, v) implies {
            &&& (#[trigger] self.spec_blob(Platform::The3ds, r, v)) is Some
            &&& self.spec_blob(Platform::The3ds, r, v).unwrap().len() >= 64
        } by {
            assert(0 <= r < 10);
        }
        true
    }

    /// The position of the first blob for a region and a version.
    pub fn find_blob(&self, region: u8, version: u8) -> (position: Option<usize>)
        ensures
            match position {
                Some(found) => {
                    &&& spec_find_blob(
                        self.the_3ds_hmac_keys@,
                        region as int,
                        version as int,
                        0,
                    ) == Some(found as int)
                    &&& found < self.the_3ds_hmac_keys@.len()
                },
                None => spec_find_blob(
                    self.the_3ds_hmac_keys@,
                    region as int,
                    version as int,
                    0,
                ) is None,
            },
    {
        let mut i: usize = 0;
        while i < self.the_3ds_hmac_keys.len()
            invariant
                i <= self.the_3ds_hmac_keys@.len(),
                spec_find_blob(self.the_3ds_hmac_keys@, region as int, version as int, 0)
                    == spec_find_blob(
                    self.the_3ds_hmac_keys@,
                    region as int,
                    version as int,
                    i as int,
                ),
            decreases self.the_3ds_hmac_keys@.len() - i,
        {
            if self.the_3ds_hmac_keys[i].region == region && self.the_3ds_hmac_keys[i].version
                == version {
                return Some(i);
            }
            i += 1;
        }
        None
    }
}

/// Whether an encrypted HMAC key of the third algorithm is known for a
/// region and a version of the 3DS.
pub fn is_known_the_3ds_version(region: u64, version: u64) -> (known: bool)
    ensures
        known == known_the_3ds_version(region as int, version as int),
{
    if region == 0 {
        0x0A <= version && version <= 0x11
    } else if region == 1 || region == 2 {
        0x0A <= version && version <= 0x2B
    } else if region == 5 {
        0x12 <= version && version <= 0x2A
    } else if region == 9 {
        0x12 <= version && version <= 0x2B
    } else {
        false
    }
}

/// The HMAC key that a blob holds, decrypted with an AES key: the bytes 32
/// to 64 of the blob, with the keystream that starts at the counter in its
/// bytes 16 to 32 applied.
pub open spec fn spec_unwrapped_key(aes_key: Seq<u8>, blob: Seq<u8>) -> Seq<u8> {
    aes128_ctr_applied(aes_key, blob.subrange(16, 32), blob.subrange(32, 64))
}

/// The master key of the third algorithm, or the region, or the region and
/// the version, that no key is known for.
pub open spec fn spec_v2_master_key(
    keys: V2Keys,
    platform: Platform,
    inquiry_number: u64,
    day: u8,
    month: u8,
) -> Result<u32, V2Error> {
    let region = spec_region(inquiry_number);
    let version = spec_version_v2(inquiry_number);
    if !known_region(platform, region) {
        Err(V2Error::UnknownRegion(region as u64))
    } else if platform == Platform::The3ds && !known_the_3ds_version(region, version) {
        Err(V2Error::UnknownRegionOrVersion(region as u64, version as u64))
    } else {
        Ok(
            spec_shared_master_key(
                spec_unwrapped_key(
                    keys.spec_aes_key(platform, region),
                    keys.spec_blob(platform, region, version).unwrap(),
                ),
                inquiry_number,
                day,
                month,
                platform == Platform::WiiU,
            ),
        )
    }
}

/// Calculate the master key for the parental control using the v2
/// algorithm. The inquiry number has no more than 10 digits, and the day
/// and the month can stand in a date; the keys are complete.
///
/// The master key is shown with leading zeros, with 5 digits in all.
///
/// Only works on 3DS (from 7.2.0 to 11.15.0) and Wii U (from 5.0.0 to 5.5.5):
/// no other platform has such an algorithm.
pub fn calculate_v2_master_key(
    keys: &V2Keys,
    platform: Platform,
    inquiry_number: u64,
    day: u8,
    month: u8,
) -> (result: Result<u32, V2Error>)
    requires
        platform == Platform::The3ds || platform == Platform::WiiU,
        inquiry_number <= MAX_INQUIRY_NUMBER,
        valid_date(day, month),
        keys.wf(),
    ensures
        result == spec_v2_master_key(*keys, platform, inquiry_number, day, month),
        result is Ok ==> result->Ok_0 < 100000,
{
    let region = inquiry_number / 1_000_000_000;
    let version = (inquiry_number / 10_000_000) % 100;
    let aes_key: &[u8; 16] = match platform {
        Platform::WiiU => {
            if region == 1 {
                &keys.wii_u_aes_key_region_01
            } else if region == 2 {
                &keys.wii_u_aes_key_region_02
            } else if region == 3 {
                &keys.wii_u_aes_key_region_03
            } else {
                return Err(V2Error::UnknownRegion(region));
            }
        },
        _ => {
            if region == 0 || region == 9 {
                &keys.the_3ds_aes_key_region_00_and_09
            } else if region == 1 {
                &keys.the_3ds_aes_key_region_01
            } else if region == 2 {
                &keys.the_3ds_aes_key_region_02
            } else if region == 5 {
                &keys.the_3ds_aes_key_region_05
            } else {
                return Err(V2Error::UnknownRegion(region));
            }
        },
    };
    let hmac_enc: &Vec<u8> = match platform {
        Platform::WiiU => {
            if region == 1 {
                &keys.wii_u_hmac_key_region_01
            } else if region == 2 {
                &keys.wii_u_hmac_key_region_02
            } else {
                &keys.wii_u_hmac_key_region_03
            }
        },
        _ => {
            if !is_known_the_3ds_version(region, version) {
                return Err(V2Error::UnknownRegionOrVersion(region, version));
            }
            assert(keys.spec_blob(Platform::The3ds, region as int, version as int) is Some);
            let position = keys.find_blob(region as u8, version as u8).unwrap();
            &keys.the_3ds_hmac_keys[position].data
        },
    };
    assert(hmac_enc@ == keys.spec_blob(platform, region as int, version as int).unwrap());
    let aes_counter = array_at::<16>(hmac_enc.as_slice(), 16);
    let encrypted_key = array_at::<32>(hmac_enc.as_slice(), 32);
    let unwrapped = aes128_ctr_apply(aes_key, &aes_counter, encrypted_key.as_slice());
    let hmac_key = array_at::<32>(unwrapped.as_slice(), 0);
    assert(hmac_key@ =~= unwrapped@);
    Ok(
        calculate_master_key_shared_v1_and_v2(
            &hmac_key,
            inquiry_number,
            day,
            month,
            platform == Platform::WiiU,
        ),
    )
}

/// Why the fourth algorithm found no key.
#[derive(Debug, Clone, Copy, PartialEq, Eq, Structural)]
pub enum V3Error {
    /// The inquiry number has an unknown version encoded.
    UnknownVersion(u8),
}

/// The keys of the fourth algorithm: one for each version of the Switch
/// that a key is known for.
#[derive(Debug, Clone, Copy, PartialEq, Eq)]
pub struct V3Keys {
    /// The key of the version 0x0A.
    pub version_0a: [u8; 32],
    /// The key of the version 0x0B.
    pub version_0b: [u8; 32],
    /// The key of the version 0x0C.
    pub version_0c: [u8; 32],
    /// The key of the version 0x0D.
    pub version_0d: [u8; 32],
}

impl V3Keys {
    /// The key of a version; none for a version that is none of 0x0A to
    /// 0x0D.
    pub open spec fn spec_key(self, version: int) -> Option<Seq<u8>> {
        if version == 0x0A {
            Some(self.version_0a@)
        } else if version == 0x0B {
            Some(self.version_0b@)
        } else if version == 0x0C {
            Some(self.version_0c@)
        } else if version == 0x0D {
            Some(self.version_0d@)
        } else {
            None
        }
    }
}

/// The version that an inquiry number encodes for the fourth algorithm: its
/// first and second digit of ten.
pub open spec fn spec_version_v3(inquiry_number: u64) -> int {
    (inquiry_number as int / 100_000_000) % 100
}

/// The master key that the fourth algorithm makes of a code: its first
/// eight bytes as a number, least significant byte first, of which the low
/// 48 bits count, modulo 100000000.
pub open spec fn spec_v3_master_key_of_code(code: Seq<u8>) -> u64 {
    ((le_u64_at(code, 0) % 0x1_0000_0000_0000) % 100_000_000) as u64
}

/// The master key that the fourth algorithm makes of a code.
pub fn v3_master_key_of_code(code: &[u8; 32]) -> (master_key: u64)
    ensures
        master_key == spec_v3_master_key_of_code(code@),
        master_key < 100_000_000,
{
    let word = crate::bytes::decode_le_u64(code.as_slice(), 0);
    let output = word % 0x1_0000_0000_0000;
    output % 100_000_000
}

/// The master key of the fourth algorithm, or the version that no key is
/// known for.
pub open spec fn spec_v3_master_key(keys: V3Keys, inquiry_number: u64) -> Result<u64, V3Error> {
    match keys.spec_key(spec_version_v3(inquiry_number)) {
        None => Err(V3Error::UnknownVersion(spec_version_v3(inquiry_number) as u8)),
        Some(key) => Ok(
            spec_v3_master_key_of_code(
                hmac_sha256_of(key, spec_decimal_padded(inquiry_number as nat, 10)),
            ),
        ),
    }
}

/// Calculate the master key for the parental control using the v3
/// algorithm. The inquiry number has no more than 10 digits.
///
/// The master key is shown with leading zeros, with 8 digits in all.
///
/// Only works on Switch (from 1.0.0 to 7.0.1).
pub fn calculate_v3_master_key(keys: &V3Keys, inquiry_number: u64) -> (result: Result<
    u64,
    V3Error,
>)
    requires
        inquiry_number <= MAX_INQUIRY_NUMBER,
    ensures
        result == spec_v3_master_key(*keys, inquiry_number),
        result is Ok ==> result->Ok_0 < 100_000_000,
{
    let version = (inquiry_number / 100_000_000) % 100;
    let hmac_key = if version == 0x0A {
        &keys.version_0a
    } else if version == 0x0B {
        &keys.version_0b
    } else if version == 0x0C {
        &keys.version_0c
    } else if version == 0x0D {
        &keys.version_0d
    } else {
        return Err(V3Error::UnknownVersion(version as u8));
    };
    let mut input: Vec<u8> = Vec::new();
    push_decimal(&mut input, inquiry_number, 10);
    let code = hmac_sha256(hmac_key.as_slice(), input.as_slice()).unwrap();
    Ok(v3_master_key_of_code(&code))
}

} // verus!
