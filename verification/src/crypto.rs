//! The ciphers, digests and checksums that the formats rest on.
//!
//! None of them is computed here: each function of this module hands its
//! arguments to the crate that implements the primitive, and what comes back
//! is known to the rest of the library by name only.

use vstd::prelude::*;
use aes::cipher::block_padding::NoPadding;
use aes::cipher::{BlockDecryptMut, BlockEncryptMut, KeyIvInit, StreamCipher};
use hmac::Mac;
use sha2::Digest;

verus! {

/// The length of an AES block, of an AES-128 key and of an initialisation
/// vector.
pub const AES_BLOCK: usize = 16;

/// The padding check of a block cipher refused the data.
#[verifier::external_type_specification]
#[verifier::external_body]
pub struct ExUnpadError(block_padding::UnpadError);

/// The data handed to a block cipher is no whole number of blocks.
#[verifier::external_type_specification]
#[verifier::external_body]
pub struct ExPadError(aes::cipher::inout::PadError);

/// The plaintext of `data` under AES-128 in CBC mode without padding.
pub uninterp spec fn aes128_cbc_decrypted(key: Seq<u8>, iv: Seq<u8>, data: Seq<u8>) -> Seq<u8>;

/// The ciphertext of `data` under AES-128 in CBC mode without padding.
pub uninterp spec fn aes128_cbc_encrypted(key: Seq<u8>, iv: Seq<u8>, data: Seq<u8>) -> Seq<u8>;

/// `data` after the keystream of AES-128 in CTR mode, with a big-endian
/// counter of 128 bits that starts at `counter`, was applied to it.
pub uninterp spec fn aes128_ctr_applied(key: Seq<u8>, counter: Seq<u8>, data: Seq<u8>) -> Seq<u8>;

/// The SHA-1 digest of `data`.
pub uninterp spec fn sha1_of(data: Seq<u8>) -> Seq<u8>;

/// The SHA-256 digest of `data`.
pub uninterp spec fn sha256_of(data: Seq<u8>) -> Seq<u8>;

/// The HMAC-SHA-256 code of `data` under `key`.
pub uninterp spec fn hmac_sha256_of(key: Seq<u8>, data: Seq<u8>) -> Seq<u8>;

/// The CRC of 32 bits of `data` for the given polynomial, initial value,
/// reflection of input and output, and final xor.
pub uninterp spec fn crc32_of(
    poly: u32,
    init: u32,
    refin: bool,
    refout: bool,
    xorout: u32,
    data: Seq<u8>,
) -> u32;

/// `decrypt_padded_b2b_mut` of `cbc::Decryptor<aes::Aes128>` with
/// `NoPadding`: it fails if and only if `data` is no whole number of blocks.
/// Otherwise the result is the plaintext, as long as `data`, and encrypting
/// it under the same key and vector gives `data` again.
#[verifier::external_body]
pub(crate) fn aes128_cbc_decrypt(key: &[u8; 16], iv: &[u8; 16], data: &[u8]) -> (result: Result<
    Vec<u8>,
    block_padding::UnpadError,
>)
    ensures
        result is Ok <==> data@.len() % 16 == 0,
        result is Ok ==> result.unwrap()@ == aes128_cbc_decrypted(key@, iv@, data@),
        result is Ok ==> result.unwrap()@.len() == data@.len(),
        result is Ok ==> aes128_cbc_encrypted(key@, iv@, result.unwrap()@) == data@,
{
    let mut out = vec![0u8; data.len()];
    let cipher = cbc::Decryptor::<aes::Aes128>::new(key.into(), iv.into());
    match cipher.decrypt_padded_b2b_mut::<NoPadding>(data, &mut out) {
        Ok(_) => Ok(out),
        Err(error) => Err(error),
    }
}

/// `encrypt_padded_b2b_mut` of `cbc::Encryptor<aes::Aes128>` with
/// `NoPadding`: it fails if and only if `data` is no whole number of blocks.
/// Otherwise the result is the ciphertext, as long as `data`, and decrypting
/// it under the same key and vector gives `data` again.
#[verifier::external_body]
pub(crate) fn aes128_cbc_encrypt(key: &[u8; 16], iv: &[u8; 16], data: &[u8]) -> (result: Result<
    Vec<u8>,
    aes::cipher::inout::PadError,
>)
    ensures
        result is Ok <==> data@.len() % 16 == 0,
        result is Ok ==> result.unwrap()@ == aes128_cbc_encrypted(key@, iv@, data@),
        result is Ok ==> result.unwrap()@.len() == data@.len(),
        result is Ok ==> aes128_cbc_decrypted(key@, iv@, result.unwrap()@) == data@,
{
    let mut out = vec![0u8; data.len()];
    let cipher = cbc::Encryptor::<aes::Aes128>::new(key.into(), iv.into());
    match cipher.encrypt_padded_b2b_mut::<NoPadding>(data, &mut out) {
        Ok(_) => Ok(out),
        Err(error) => Err(error),
    }
}

/// `apply_keystream` of a fresh `ctr::Ctr128BE<aes::Aes128>`: the data with
/// the keystream applied, as long as the data.
#[verifier::external_body]
pub(crate) fn aes128_ctr_apply(key: &[u8; 16], counter: &[u8; 16], data: &[u8]) -> (result: Vec<
    u8,
>)
    ensures
        result@ == aes128_ctr_applied(key@, counter@, data@),
        result@.len() == data@.len(),
{
    let mut out = data.to_vec();
    let mut cipher = ctr::Ctr128BE::<aes::Aes128>::new(key.into(), counter.into());
    cipher.apply_keystream(&mut out);
    out
}

/// `Sha1::digest` of the crate `sha1`: the digest, of 20 bytes.
#[verifier::external_body]
pub(crate) fn sha1_digest(data: &[u8]) -> (digest: [u8; 20])
    ensures
        digest@ == sha1_of(data@),
{
    sha1::Sha1::digest(data).into()
}

/// `Sha256::digest` of the crate `sha2`: the digest, of 32 bytes.
#[verifier::external_body]
pub(crate) fn sha256_digest(data: &[u8]) -> (digest: [u8; 32])
    ensures
        digest@ == sha256_of(data@),
{
    sha2::Sha256::digest(data).into()
}

/// `new_from_slice`, `update` and `finalize` of `hmac::Hmac<sha2::Sha256>`:
/// a key of any length is taken, and the code has 32 bytes.
#[verifier::external_body]
pub(crate) fn hmac_sha256(key: &[u8], data: &[u8]) -> (code: Option<[u8; 32]>)
    ensures
        code is Some,
        code.unwrap()@ == hmac_sha256_of(key@, data@),
{
    match hmac::Hmac::<sha2::Sha256>::new_from_slice(key) {
        Ok(mut mac) => {
            mac.update(data);
            Some(mac.finalize().into_bytes().into())
        },
        Err(_) => None,
    }
}

/// `checksum` of a `crc::Crc<u32>` made for the given parameters: the
/// polynomial, the initial value, whether input and output are reflected,
/// and the final xor. They are parameters of the function itself, so that
/// the record of them that the crate asks for lives as long as the program.
#[verifier::external_body]
pub(crate) fn crc32_checksum<
    const POLY: u32,
    const INIT: u32,
    const REFIN: bool,
    const REFOUT: bool,
    const XOROUT: u32,
>(data: &[u8]) -> (checksum: u32)
    ensures
        checksum == crc32_of(POLY, INIT, REFIN, REFOUT, XOROUT, data@),
{
    crc::Crc::<u32>::new(
        &crc::Algorithm::<u32> {
            width: 32,
            poly: POLY,
            init: INIT,
            refin: REFIN,
            refout: REFOUT,
            xorout: XOROUT,
            check: 0,
            residue: 0,
        },
    ).checksum(data)
}

} // verus!
