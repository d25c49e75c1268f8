//! The certificate chains that Nintendo stores beside signed data.

use vstd::prelude::*;
use vstd::utf8::encode_utf8;
use crate::align::{ceil_align, lemma_ceil_align};
use crate::bytes::{
    array_of, be_u32_at, lemma_array_of_view, lemma_be_u32_round_trip,
    lemma_until_nul_of_padded, nul_free, padded, push_bytes, push_padded, push_u32_be,
    push_zeros, u32_be_bytes, zeros,
};
use crate::extensions::{spec_null_terminated, wrote_all, StringEx, Utf8Error};
use crate::signed_blob_header::{
    SignedBlobHeader, SignedBlobHeaderError, SignedBlobHeaderView, BLOB_BOUNDARY,
};
use crate::stream::{Stream, StreamError};

verus! {

broadcast use vstd::array::group_array_axioms;

/// The width of the field that holds the identity of a certificate.
pub const IDENTITY_WIDTH: usize = 64;

/// The most certificates that a chain can hold with a size that fits 32
/// bits.
pub const MAX_CERTIFICATES: usize = 0x20_0000;

/// A set of certificates.
#[derive(Debug, Clone, PartialEq, Eq)]
pub struct CertificateChain {
    /// The set of cetificates.
    pub certificates: Vec<Certificate>,
}

/// Why a certificate chain could not be read.
#[derive(Debug, Clone, Copy, PartialEq, Eq, Structural)]
pub enum CertificateChainError {
    /// The stream failed.
    IoError(StreamError),
    /// The tag of a signature is unknown.
    UnknownSignatureKind(u32),
    /// The tag of a key is none of the three known ones.
    UnknownKeyKind(u32),
    /// The identity of a certificate is not UTF-8.
    FromUtf8Error(Utf8Error),
    /// The signed blob header of a certificate could not be read.
    SignedBlobHeaderError(SignedBlobHeaderError),
}

/// A single certificate.
#[derive(Debug, Clone, PartialEq, Eq)]
pub struct Certificate {
    /// Header with data to prove the authenticity that this data
    /// has being created by an authorized entity.
    pub signed_blob_header: SignedBlobHeader,
    /// The name of the certificate.
    pub identity: String,
    /// The key stored inside the certificate.
    pub key: CertificateKey,
}

/// What a `Certificate` holds.
pub struct CertificateView {
    /// The signed blob header.
    pub signed_blob_header: SignedBlobHeaderView,
    /// The name of the certificate.
    pub identity: Seq<char>,
    /// The key stored inside the certificate.
    pub key: CertificateKey,
}

/// The public key stored inside a certificate.
#[derive(Debug, Clone, PartialEq, Eq)]
pub struct CertificateKey {
    /// The ID of the certificate.
    pub id: u32,
    /// The public key data itself.
    pub value: CertificateKeyValue,
}

/// The public key data stored inside a certificate.
#[derive(Debug, Clone, PartialEq, Eq)]
pub enum CertificateKeyValue {
    /// The key is stored as RSA-4096 data.
    Rsa4096(Box<[u8; 516]>),
    /// The key is stored as RSA-2048 data.
    Rsa2048(Box<[u8; 260]>),
    /// The key is stored as ECCB223 data.
    EccB223(Box<[u8; 60]>),
}

/// The length of the key that a tag announces; none for an unknown tag.
pub open spec fn key_len(tag: u32) -> Option<int> {
    if tag == 0 {
        Some(516)
    } else if tag == 1 {
        Some(260)
    } else if tag == 2 {
        Some(60)
    } else {
        None
    }
}

/// The key with a known tag and the given bytes.
pub open spec fn key_of(tag: u32, data: Seq<u8>) -> CertificateKeyValue {
    if tag == 0 {
        CertificateKeyValue::Rsa4096(Box::new(array_of::<516>(data)))
    } else if tag == 1 {
        CertificateKeyValue::Rsa2048(Box::new(array_of::<260>(data)))
    } else {
        CertificateKeyValue::EccB223(Box::new(array_of::<60>(data)))
    }
}

impl CertificateKeyValue {
    /// The tag that the key is stored under.
    pub open spec fn spec_tag(self) -> u32 {
        match self {
            CertificateKeyValue::Rsa4096(_) => 0,
            CertificateKeyValue::Rsa2048(_) => 1,
            CertificateKeyValue::EccB223(_) => 2,
        }
    }

    /// The bytes of the key.
    pub open spec fn spec_data(self) -> Seq<u8> {
        match self {
            CertificateKeyValue::Rsa4096(data) => data@,
            CertificateKeyValue::Rsa2048(data) => data@,
            CertificateKeyValue::EccB223(data) => data@,
        }
    }

    /// The number of bytes of the key.
    pub open spec fn spec_len(self) -> int {
        self.spec_data().len() as int
    }

    /// A key is the one that its tag and its bytes make, and its tag
    /// announces its length.
    pub proof fn lemma_of_parts(self)
        ensures
            key_len(self.spec_tag()) == Some(self.spec_len()),
            key_of(self.spec_tag(), self.spec_data()) == self,
    {
        match self {
            CertificateKeyValue::Rsa4096(data) => lemma_array_of_view::<516>(*data),
            CertificateKeyValue::Rsa2048(data) => lemma_array_of_view::<260>(*data),
            CertificateKeyValue::EccB223(data) => lemma_array_of_view::<60>(*data),
        }
    }

    /// Read the key that `identifier` announces.
    pub fn new(identifier: u32, stream: &mut Stream) -> (result: Result<
        Self,
        CertificateChainError,
    >)
        ensures
            final(stream).same_content(old(stream)),
            match key_len(identifier) {
                None => result == Err::<Self, CertificateChainError>(
                    CertificateChainError::UnknownKeyKind(identifier),
                ),
                Some(len) => if old(stream).can_read(len) {
                    &&& result == Ok::<Self, CertificateChainError>(
                        key_of(identifier, old(stream).window(len)),
                    )
                    &&& final(stream).pos() == old(stream).pos() + len
                } else {
                    result == Err::<Self, CertificateChainError>(
                        CertificateChainError::IoError(StreamError::UnexpectedEof),
                    )
                },
            },
    {
        if identifier == 0 {
            match stream.read_array::<516>() {
                Ok(data) => Ok(CertificateKeyValue::Rsa4096(Box::new(data))),
                Err(error) => Err(CertificateChainError::IoError(error)),
            }
        } else if identifier == 1 {
            match stream.read_array::<260>() {
                Ok(data) => Ok(CertificateKeyValue::Rsa2048(Box::new(data))),
                Err(error) => Err(CertificateChainError::IoError(error)),
            }
        } else if identifier == 2 {
            match stream.read_array::<60>() {
                Ok(data) => Ok(CertificateKeyValue::EccB223(Box::new(data))),
                Err(error) => Err(CertificateChainError::IoError(error)),
            }
        } else {
            Err(CertificateChainError::UnknownKeyKind(identifier))
        }
    }

    /// Append the tag of the key.
    pub fn dump_kind_identifier(&self, out: &mut Vec<u8>)
        ensures
            final(out)@ == old(out)@ + u32_be_bytes(self.spec_tag()),
    {
        push_u32_be(
            out,
            match self {
                CertificateKeyValue::Rsa4096(_) => 0,
                CertificateKeyValue::Rsa2048(_) => 1,
                CertificateKeyValue::EccB223(_) => 2,
            },
        );
    }

    /// Append the bytes of the key.
    pub fn dump_value(&self, out: &mut Vec<u8>)
        ensures
            final(out)@ == old(out)@ + self.spec_data(),
    {
        match self {
            CertificateKeyValue::Rsa4096(value) => push_bytes(out, value.as_slice()),
            CertificateKeyValue::Rsa2048(value) => push_bytes(out, value.as_slice()),
            CertificateKeyValue::EccB223(value) => push_bytes(out, value.as_slice()),
        }
    }

    fn data_len(&self) -> (len: u32)
        ensures
            len == self.spec_len(),
            len <= 516,
    {
        match self {
            CertificateKeyValue::Rsa4096(_) => 516,
            CertificateKeyValue::Rsa2048(_) => 260,
            CertificateKeyValue::EccB223(_) => 60,
        }
    }
}

impl View for Certificate {
    type V = CertificateView;

    open spec fn view(&self) -> CertificateView {
        CertificateView {
            signed_blob_header: self.signed_blob_header@,
            identity: self.identity@,
            key: self.key,
        }
    }
}

impl CertificateView {
    /// The header is well formed, and the identity fits its field and holds
    /// no zero byte.
    pub open spec fn wf(self) -> bool {
        &&& self.signed_blob_header.wf()
        &&& encode_utf8(self.identity).len() <= IDENTITY_WIDTH
        &&& nul_free(encode_utf8(self.identity))
    }

    /// The number of bytes up to the end of the key.
    pub open spec fn spec_content_size(self) -> int {
        self.signed_blob_header.spec_size() + 72 + self.key.value.spec_len()
    }

    /// The size of the certificate in bytes: its content, aligned.
    pub open spec fn spec_size(self) -> int {
        ceil_align(self.spec_content_size(), BLOB_BOUNDARY as int)
    }

    /// The bytes up to the end of the key: the header, the tag of the key,
    /// the identity in its field, the id of the key, and the key.
    pub open spec fn spec_content(self) -> Seq<u8> {
        self.signed_blob_header.spec_serialize() + u32_be_bytes(self.key.value.spec_tag())
            + padded(encode_utf8(self.identity), IDENTITY_WIDTH as int) + u32_be_bytes(self.key.id)
            + self.key.value.spec_data()
    }

    /// The bytes of the certificate: its content and zeros up to the
    /// boundary.
    pub open spec fn spec_serialize(self) -> Seq<u8> {
        self.spec_content() + zeros(self.spec_size() - self.spec_content_size())
    }

    /// The certificate that stands at `pos` in `bytes` and the position
    /// behind its key, or why there is none.
    pub open spec fn spec_parse(bytes: Seq<u8>, pos: int) -> Result<
        (CertificateView, int),
        CertificateChainError,
    > {
        match SignedBlobHeaderView::spec_parse(bytes, pos) {
            Err(error) => Err(CertificateChainError::SignedBlobHeaderError(error)),
            Ok((signed_blob_header, at)) => {
                if at + 68 > bytes.len() {
                    Err(CertificateChainError::IoError(StreamError::UnexpectedEof))
                } else {
                    let tag = be_u32_at(bytes, at);
                    match spec_null_terminated(bytes.subrange(at + 4, at + 68)) {
                        None => Err(CertificateChainError::FromUtf8Error(Utf8Error)),
                        Some(identity) => {
                            if at + 72 > bytes.len() {
                                Err(CertificateChainError::IoError(StreamError::UnexpectedEof))
                            } else {
                                match key_len(tag) {
                                    None => Err(CertificateChainError::UnknownKeyKind(tag)),
                                    Some(len) => {
                                        if at + 72 + len > bytes.len() {
                                            Err(
                                                CertificateChainError::IoError(
                                                    StreamError::UnexpectedEof,
                                                ),
                                            )
                                        } else {
                                            Ok(
                                                (
                                                    CertificateView {
                                                        signed_blob_header,
                                                        identity,
                                                        key: CertificateKey {
                                                            id: be_u32_at(bytes, at + 68),
                                                            value: key_of(
                                                                tag,
                                                                bytes.subrange(
                                                                    at + 72,
                                                                    at + 72 + len,
                                                                ),
                                                            ),
                                                        },
                                                    },
                                                    at + 72 + len,
                                                ),
                                            )
                                        }
                                    },
                                }
                            }
                        },
                    }
                }
            },
        }
    }

    /// The bytes of a well-formed certificate are as many as its size says,
    /// a multiple of the boundary.
    pub proof fn lemma_size(self)
        ensures
            self.spec_size() % 64 == 0,
            self.spec_content_size() <= self.spec_size() < self.spec_content_size() + 64,
            132 <= self.spec_size() <= 1280,
            self.wf() ==> self.spec_content().len() == self.spec_content_size(),
            self.wf() ==> self.spec_serialize().len() == self.spec_size(),
    {
        self.signed_blob_header.lemma_size();
        self.key.value.lemma_of_parts();
        lemma_ceil_align(self.spec_content_size(), 64);
    }

    /// A certificate that was read is well formed.
    pub proof fn lemma_parsed_is_well_formed(bytes: Seq<u8>, pos: int)
        requires
            0 <= pos,
            Self::spec_parse(bytes, pos) is Ok,
        ensures
            Self::spec_parse(bytes, pos).unwrap().0.wf(),
    {
        SignedBlobHeaderView::lemma_parsed_is_well_formed(bytes, pos);
        let at = SignedBlobHeaderView::spec_parse(bytes, pos).unwrap().1;
        crate::extensions::lemma_null_terminated_fits(bytes.subrange(at + 4, at + 68));
    }

    /// A well-formed certificate is read back from its bytes, wherever they
    /// stand and whatever follows them; so writing what was read from the
    /// bytes of a certificate gives those bytes again.
    pub proof fn lemma_parse_serialize(self, bytes: Seq<u8>, pos: int)
        requires
            self.wf(),
            0 <= pos,
            pos + self.spec_content_size() <= bytes.len(),
            bytes.subrange(pos, pos + self.spec_content_size()) == self.spec_content(),
        ensures
            Self::spec_parse(bytes, pos) == Ok::<(CertificateView, int), CertificateChainError>(
                (self, pos + self.spec_content_size()),
            ),
            Self::spec_parse(bytes, pos).unwrap().0.spec_content() == bytes.subrange(
                pos,
                pos + self.spec_content_size(),
            ),
    {
        self.lemma_size();
        self.signed_blob_header.lemma_size();
        self.key.value.lemma_of_parts();
        let header = self.signed_blob_header;
        let image = self.spec_content();
        let at = pos + header.spec_size();
        let text = encode_utf8(self.identity);
        let len = self.key.value.spec_len();
        assert forall|i: int| 0 <= i < image.len() implies bytes[pos + i] == image[i] by {
            assert(bytes.subrange(pos, pos + self.spec_content_size())[i] == bytes[pos + i]);
        }
        assert(bytes.subrange(pos, pos + header.spec_size()) =~= header.spec_serialize()) by {
            assert forall|i: int| 0 <= i < header.spec_size() implies bytes.subrange(
                pos,
                pos + header.spec_size(),
            )[i] == header.spec_serialize()[i] by {
                assert(image[i] == header.spec_serialize()[i]);
            }
        }
        header.lemma_parse_serialize(bytes, pos);
        assert(bytes.subrange(at, at + 4) =~= u32_be_bytes(self.key.value.spec_tag())) by {
            assert forall|i: int| 0 <= i < 4 implies bytes.subrange(at, at + 4)[i] == u32_be_bytes(
                self.key.value.spec_tag(),
            )[i] by {
                assert(image[header.spec_size() + i] == u32_be_bytes(self.key.value.spec_tag())[i]);
            }
        }
        lemma_be_u32_round_trip(bytes, at, self.key.value.spec_tag());
        let field = bytes.subrange(at + 4, at + 68);
        assert(field =~= padded(text, IDENTITY_WIDTH as int)) by {
            assert forall|i: int| 0 <= i < IDENTITY_WIDTH implies field[i] == padded(
                text,
                IDENTITY_WIDTH as int,
            )[i] by {
                assert(image[header.spec_size() + 4 + i] == padded(text, IDENTITY_WIDTH as int)[i]);
            }
        }
        lemma_until_nul_of_padded(text, IDENTITY_WIDTH as int);
        vstd::utf8::encode_utf8_valid_utf8(self.identity);
        vstd::utf8::encode_utf8_decode_utf8(self.identity);
        assert(bytes.subrange(at + 68, at + 72) =~= u32_be_bytes(self.key.id)) by {
            assert forall|i: int| 0 <= i < 4 implies bytes.subrange(at + 68, at + 72)[i]
                == u32_be_bytes(self.key.id)[i] by {
                assert(image[header.spec_size() + 68 + i] == u32_be_bytes(self.key.id)[i]);
            }
        }
        lemma_be_u32_round_trip(bytes, at + 68, self.key.id);
        assert(bytes.subrange(at + 72, at + 72 + len) =~= self.key.value.spec_data()) by {
            assert forall|i: int| 0 <= i < len implies bytes.subrange(at + 72, at + 72 + len)[i]
                == self.key.value.spec_data()[i] by {
                assert(image[header.spec_size() + 72 + i] == self.key.value.spec_data()[i]);
            }
        }
    }
}

impl Certificate {
    /// The header is well formed, and the identity fits its field and holds
    /// no zero byte.
    pub open spec fn wf(&self) -> bool {
        self@.wf()
    }

    /// Whether the certificate is well formed, so that it can be written.
    pub fn is_well_formed(&self) -> (well_formed: bool)
        ensures
            well_formed == self.wf(),
    {
        self.signed_blob_header.is_well_formed() && crate::bytes::fits_field(
            self.identity.as_str().as_bytes(),
            IDENTITY_WIDTH,
        )
    }

    /// Create a new certificate by parsing a stream: the signed blob header,
    /// the tag of the key, the identity, the id of the key and the key.
    pub fn new(stream: &mut Stream) -> (result: Result<Self, CertificateChainError>)
        requires
            old(stream).wf(),
        ensures
            final(stream).same_content(old(stream)),
            match CertificateView::spec_parse(old(stream).bytes(), old(stream).pos() as int) {
                Ok((certificate, end)) => {
                    &&& result is Ok
                    &&& result.unwrap()@ == certificate
                    &&& result.unwrap().wf()
                    &&& final(stream).pos() == end
                },
                Err(error) => result == Err::<Self, CertificateChainError>(error),
            },
    {
        proof {
            if CertificateView::spec_parse(stream.bytes(), stream.pos() as int) is Ok {
                CertificateView::lemma_parsed_is_well_formed(stream.bytes(), stream.pos() as int);
            }
        }
        let signed_blob_header = match SignedBlobHeader::new(stream) {
            Ok(signed_blob_header) => signed_blob_header,
            Err(error) => return Err(CertificateChainError::SignedBlobHeaderError(error)),
        };
        let key_value_kind_identifier = match stream.read_u32_be() {
            Ok(identifier) => identifier,
            Err(error) => return Err(CertificateChainError::IoError(error)),
        };
        let field = match stream.read_array::<64>() {
            Ok(field) => field,
            Err(error) => return Err(CertificateChainError::IoError(error)),
        };
        let identity = match String::from_null_terminated_bytes(field.as_slice()) {
            Ok(identity) => identity,
            Err(error) => return Err(CertificateChainError::FromUtf8Error(error)),
        };
        let id = match stream.read_u32_be() {
            Ok(id) => id,
            Err(error) => return Err(CertificateChainError::IoError(error)),
        };
        let value = match CertificateKeyValue::new(key_value_kind_identifier, stream) {
            Ok(value) => value,
            Err(error) => return Err(error),
        };
        Ok(Certificate { signed_blob_header, identity, key: CertificateKey { id, value } })
    }

    /// Append the bytes of the certificate, with the zeros that bring it to
    /// the boundary.
    pub fn serialize_into(&self, out: &mut Vec<u8>)
        requires
            self.wf(),
        ensures
            final(out)@ == old(out)@ + self@.spec_serialize(),
            self@.spec_serialize().len() == self@.spec_size(),
    {
        let ghost before = out@;
        proof {
            self@.lemma_size();
            self.signed_blob_header@.lemma_size();
        }
        self.signed_blob_header.serialize_into(out);
        self.key.value.dump_kind_identifier(out);
        push_padded(out, self.identity.as_str().as_bytes(), IDENTITY_WIDTH);
        push_u32_be(out, self.key.id);
        self.key.value.dump_value(out);
        assert(out@ =~= before + self@.spec_content());
        let content: u64 = self.signed_blob_header.size() as u64 + 72
            + self.key.value.data_len() as u64;
        let aligned = crate::align::align_to_boundary(content, BLOB_BOUNDARY);
        push_zeros(out, (aligned - content) as usize);
        assert(out@ =~= before + self@.spec_serialize());
    }

    /// Write the certificate at the position of the stream, with the zeros
    /// that bring it to the boundary.
    pub fn dump(&self, stream: &mut Stream) -> (result: Result<(), StreamError>)
        requires
            old(stream).wf(),
            self.wf(),
        ensures
            final(stream).wf(),
            wrote_all(*old(stream), *final(stream), self@.spec_serialize(), result),
            result is Ok ==> (final(stream).pos() - old(stream).pos()) % 64 == 0,
    {
        proof {
            self@.lemma_size();
        }
        let mut bytes: Vec<u8> = Vec::new();
        self.serialize_into(&mut bytes);
        assert(bytes@ =~= self@.spec_serialize());
        stream.write_all(bytes.as_slice())
    }

    /// Get the size of the certificate in bytes.
    pub fn size(&self) -> (size: u32)
        ensures
            size == self@.spec_size(),
            size % 64 == 0,
            size <= 1280,
    {
        proof {
            self@.lemma_size();
            self.signed_blob_header@.lemma_size();
        }
        let content: u64 = self.signed_blob_header.size() as u64 + 72
            + self.key.value.data_len() as u64;
        crate::align::align_to_boundary(content, BLOB_BOUNDARY) as u32
    }
}

/// What the certificates of a chain hold, in their order.
pub open spec fn certificate_views(certificates: Seq<Certificate>) -> Seq<CertificateView> {
    Seq::new(certificates.len(), |i: int| certificates[i]@)
}

/// The sizes of the first `count` certificates, added up.
pub open spec fn spec_chain_size(certificates: Seq<CertificateView>, count: int) -> int
    decreases count,
{
    if count <= 0 {
        0
    } else {
        spec_chain_size(certificates, count - 1) + certificates[count - 1].spec_size()
    }
}

/// The bytes of the first `count` certificates, one behind the other.
pub open spec fn spec_chain_serialize(certificates: Seq<CertificateView>, count: int) -> Seq<u8>
    decreases count,
{
    if count <= 0 {
        Seq::empty()
    } else {
        spec_chain_serialize(certificates, count - 1) + certificates[count - 1].spec_serialize()
    }
}

/// The chain of `remaining` more certificates from `pos` on, behind the
/// certificates `read` that were read before, and the position behind it.
/// Each certificate is followed by a gap up to the next multiple of 64 bytes
/// from `pin`, where the chain begins.
pub open spec fn spec_chain_parse(
    bytes: Seq<u8>,
    pin: int,
    pos: int,
    remaining: nat,
    read: Seq<CertificateView>,
) -> Result<(Seq<CertificateView>, int), CertificateChainError>
    decreases remaining,
{
    if remaining == 0 {
        Ok((read, pos))
    } else {
        match CertificateView::spec_parse(bytes, pos) {
            Err(error) => Err(error),
            Ok((certificate, end)) => spec_chain_parse(
                bytes,
                pin,
                pin + ceil_align(end - pin, BLOB_BOUNDARY as int),
                (remaining - 1) as nat,
                read.push(certificate),
            ),
        }
    }
}

/// Every certificate is well formed.
pub open spec fn certificates_wf(certificates: Seq<CertificateView>) -> bool {
    forall|i: int| 0 <= i < certificates.len() ==> (#[trigger] certificates[i]).wf()
}

/// The size of a chain is a multiple of the boundary, within what each
/// certificate can take, and so is the number of its bytes.
pub proof fn lemma_chain_size(certificates: Seq<CertificateView>, count: int)
    requires
        0 <= count <= certificates.len(),
    ensures
        spec_chain_size(certificates, count) % 64 == 0,
        132 * count <= spec_chain_size(certificates, count) <= 1280 * count,
        certificates_wf(certificates) ==> spec_chain_serialize(certificates, count).len()
            == spec_chain_size(certificates, count),
    decreases count,
{
    if count > 0 {
        lemma_chain_size(certificates, count - 1);
        let last = certificates[count - 1];
        last.lemma_size();
        let before = spec_chain_size(certificates, count - 1);
        let size = last.spec_size();
        assert(spec_chain_size(certificates, count) == before + size);
        assert((before + size) % 64 == 0) by (nonlinear_arith)
            requires
                before % 64 == 0,
                size % 64 == 0,
        ;
        if certificates_wf(certificates) {
            assert(last.wf());
            let bytes = spec_chain_serialize(certificates, count - 1);
            assert(spec_chain_serialize(certificates, count) == bytes + last.spec_serialize());
            assert((bytes + last.spec_serialize()).len() == bytes.len()
                + last.spec_serialize().len());
        }
    }
}

/// A chain of well-formed certificates is read back from its bytes, where
/// the bytes of its certificates from `done` on stand at `pos`.
#[verifier::rlimit(50)]
pub proof fn lemma_chain_parse_serialize(
    certificates: Seq<CertificateView>,
    bytes: Seq<u8>,
    pin: int,
    done: int,
)
    requires
        certificates_wf(certificates),
        0 <= done <= certificates.len(),
        0 <= pin,
        pin + spec_chain_size(certificates, certificates.len() as int) <= bytes.len(),
        bytes.subrange(pin, pin + spec_chain_size(certificates, certificates.len() as int))
            == spec_chain_serialize(certificates, certificates.len() as int),
    ensures
        spec_chain_parse(
            bytes,
            pin,
            pin + spec_chain_size(certificates, done),
            (certificates.len() - done) as nat,
            certificates.subrange(0, done),
        ) == Ok::<(Seq<CertificateView>, int), CertificateChainError>(
            (certificates, pin + spec_chain_size(certificates, certificates.len() as int)),
        ),
    decreases certificates.len() - done,
{
    let total = certificates.len() as int;
    if done == total {
        assert(certificates.subrange(0, done) =~= certificates);
    } else {
        let certificate = certificates[done];
        let before = spec_chain_size(certificates, done);
        lemma_chain_size(certificates, done);
        lemma_certificate_in_chain(certificates, bytes, pin, done);
        certificate.lemma_parse_serialize(bytes, pin + before);
        lemma_aligned_end(before, certificate.spec_content_size(), certificate.spec_size());
        lemma_chain_parse_step(
            bytes,
            pin,
            pin + before,
            (total - done) as nat,
            certificates.subrange(0, done),
            certificate,
            pin + before + certificate.spec_content_size(),
        );
        assert(certificates.subrange(0, done).push(certificate) =~= certificates.subrange(
            0,
            done + 1,
        ));
        lemma_chain_parse_serialize(certificates, bytes, pin, done + 1);
    }
}

/// The certificates of a chain that was read are well formed, and there are
/// as many as were asked for, behind those that were read before.
pub proof fn lemma_chain_parsed_is_well_formed(
    bytes: Seq<u8>,
    pin: int,
    pos: int,
    remaining: nat,
    read: Seq<CertificateView>,
)
    requires
        0 <= pin <= pos,
        certificates_wf(read),
        spec_chain_parse(bytes, pin, pos, remaining, read) is Ok,
    ensures
        certificates_wf(spec_chain_parse(bytes, pin, pos, remaining, read).unwrap().0),
        spec_chain_parse(bytes, pin, pos, remaining, read).unwrap().0.len() == read.len()
            + remaining,
    decreases remaining,
{
    if remaining > 0 {
        CertificateView::lemma_parsed_is_well_formed(bytes, pos);
        let parsed = CertificateView::spec_parse(bytes, pos).unwrap();
        let more = read.push(parsed.0);
        assert(certificates_wf(more)) by {
            assert forall|i: int| 0 <= i < more.len() implies (#[trigger] more[i]).wf() by {
                if i < read.len() {
                    assert(more[i] == read[i]);
                }
            }
        }
        assert(pos <= parsed.1) by {
            let at = SignedBlobHeaderView::spec_parse(bytes, pos).unwrap().1;
            assert(pos <= at);
        }
        lemma_ceil_align(parsed.1 - pin, 64);
        lemma_chain_parsed_is_well_formed(
            bytes,
            pin,
            pin + ceil_align(parsed.1 - pin, BLOB_BOUNDARY as int),
            (remaining - 1) as nat,
            more,
        );
    }
}

/// A chain of well-formed certificates is read back from its bytes,
/// wherever they stand and whatever follows them; so writing what was read
/// from the bytes of a chain gives those bytes again.
pub proof fn lemma_chain_round_trip(certificates: Seq<CertificateView>, bytes: Seq<u8>, pin: int)
    requires
        certificates_wf(certificates),
        0 <= pin,
        pin + spec_chain_size(certificates, certificates.len() as int) <= bytes.len(),
        bytes.subrange(pin, pin + spec_chain_size(certificates, certificates.len() as int))
            == spec_chain_serialize(certificates, certificates.len() as int),
    ensures
        spec_chain_parse(bytes, pin, pin, certificates.len(), Seq::empty()) == Ok::<
            (Seq<CertificateView>, int),
            CertificateChainError,
        >((certificates, pin + spec_chain_size(certificates, certificates.len() as int))),
        ({
            let read = spec_chain_parse(bytes, pin, pin, certificates.len(), Seq::empty()).unwrap().0;
            spec_chain_serialize(read, read.len() as int) == bytes.subrange(
                pin,
                pin + spec_chain_size(certificates, certificates.len() as int),
            )
        }),
{
    lemma_chain_parse_serialize(certificates, bytes, pin, 0);
    assert(certificates.subrange(0, 0) =~= Seq::<CertificateView>::empty());
}

/// Reading a chain is reading one certificate and then the rest of the
/// chain from the aligned position behind it.
pub proof fn lemma_chain_parse_step(
    bytes: Seq<u8>,
    pin: int,
    pos: int,
    remaining: nat,
    read: Seq<CertificateView>,
    certificate: CertificateView,
    end: int,
)
    requires
        remaining > 0,
        CertificateView::spec_parse(bytes, pos) == Ok::<
            (CertificateView, int),
            CertificateChainError,
        >((certificate, end)),
    ensures
        spec_chain_parse(bytes, pin, pos, remaining, read) == spec_chain_parse(
            bytes,
            pin,
            pin + ceil_align(end - pin, BLOB_BOUNDARY as int),
            (remaining - 1) as nat,
            read.push(certificate),
        ),
{
}

/// Where the bytes of a chain stand at `pin`, the content of each of its
/// certificates stands behind the certificates before it.
pub proof fn lemma_certificate_in_chain(
    certificates: Seq<CertificateView>,
    bytes: Seq<u8>,
    pin: int,
    index: int,
)
    requires
        certificates_wf(certificates),
        0 <= index < certificates.len(),
        0 <= pin,
        pin + spec_chain_size(certificates, certificates.len() as int) <= bytes.len(),
        bytes.subrange(pin, pin + spec_chain_size(certificates, certificates.len() as int))
            == spec_chain_serialize(certificates, certificates.len() as int),
    ensures
        pin + spec_chain_size(certificates, index) + certificates[index].spec_content_size()
            <= bytes.len(),
        bytes.subrange(
            pin + spec_chain_size(certificates, index),
            pin + spec_chain_size(certificates, index) + certificates[index].spec_content_size(),
        ) == certificates[index].spec_content(),
{
    let total = certificates.len() as int;
    let certificate = certificates[index];
    let before = spec_chain_size(certificates, index);
    let size = certificate.spec_size();
    let content_size = certificate.spec_content_size();
    lemma_chain_segment(certificates, index, total);
    lemma_chain_size(certificates, index);
    lemma_chain_size(certificates, total);
    certificate.lemma_size();
    let whole = spec_chain_serialize(certificates, total);
    crate::bytes::lemma_embedded_part(bytes, pin, whole, before, content_size);
    crate::bytes::lemma_subrange_of_subrange(whole, before, before + size, 0, content_size);
    crate::bytes::lemma_parts_of_concat(
        certificate.spec_content(),
        zeros(size - content_size),
    );
}

/// Behind an aligned offset, aligning the end of a part gives the offset
/// plus the aligned size of the part.
pub proof fn lemma_aligned_end(offset: int, content: int, size: int)
    requires
        0 <= offset,
        0 <= content,
        offset % 64 == 0,
        size == ceil_align(content, 64),
    ensures
        ceil_align(offset + content, 64) == offset + size,
{
    lemma_ceil_align(content, 64);
    lemma_ceil_align(offset + content, 64);
    let r = ceil_align(offset + content, 64);
    assert(r == offset + size) by (nonlinear_arith)
        requires
            offset % 64 == 0,
            size % 64 == 0,
            r % 64 == 0,
            content <= size < content + 64,
            offset + content <= r < offset + content + 64,
    ;
}

/// The bytes of one certificate of a chain stand in the bytes of the chain
/// behind those of the certificates before it.
#[verifier::rlimit(50)]
pub proof fn lemma_chain_segment(certificates: Seq<CertificateView>, index: int, total: int)
    requires
        0 <= index < total <= certificates.len(),
        certificates_wf(certificates),
    ensures
        spec_chain_size(certificates, index) + certificates[index].spec_size() <= spec_chain_size(
            certificates,
            total,
        ),
        spec_chain_serialize(certificates, total).subrange(
            spec_chain_size(certificates, index),
            spec_chain_size(certificates, index) + certificates[index].spec_size(),
        ) == certificates[index].spec_serialize(),
{
    lemma_chain_prefix(certificates, index + 1, total);
    lemma_chain_size(certificates, index);
    lemma_chain_size(certificates, index + 1);
    lemma_chain_size(certificates, total);
    certificates[index].lemma_size();
    let whole = spec_chain_serialize(certificates, total);
    let upto = spec_chain_serialize(certificates, index + 1);
    let before = spec_chain_size(certificates, index);
    assert(upto == spec_chain_serialize(certificates, index) + certificates[index].spec_serialize());
    assert(whole.subrange(before, before + certificates[index].spec_size())
        =~= certificates[index].spec_serialize()) by {
        assert forall|i: int| 0 <= i < certificates[index].spec_size() implies whole[before + i]
            == certificates[index].spec_serialize()[i] by {
            assert(upto[before + i] == whole.subrange(0, spec_chain_size(certificates, index + 1))[
                before + i
            ]);
        }
    }
}

/// The bytes of the first certificates of a chain stand first in the bytes
/// of more of them.
pub proof fn lemma_chain_prefix(certificates: Seq<CertificateView>, count: int, total: int)
    requires
        0 <= count <= total <= certificates.len(),
        certificates_wf(certificates),
    ensures
        spec_chain_serialize(certificates, count) == spec_chain_serialize(
            certificates,
            total,
        ).subrange(0, spec_chain_size(certificates, count)),
        spec_chain_size(certificates, count) <= spec_chain_size(certificates, total),
    decreases total - count,
{
    lemma_chain_size(certificates, count);
    lemma_chain_size(certificates, total);
    if count == total {
        assert(spec_chain_serialize(certificates, total).subrange(
            0,
            spec_chain_size(certificates, count),
        ) =~= spec_chain_serialize(certificates, count));
    } else {
        lemma_chain_prefix(certificates, count, total - 1);
        lemma_chain_size(certificates, total - 1);
        assert(spec_chain_serialize(certificates, total).subrange(
            0,
            spec_chain_size(certificates, count),
        ) =~= spec_chain_serialize(certificates, total - 1).subrange(
            0,
            spec_chain_size(certificates, count),
        ));
    }
}

impl View for CertificateChain {
    type V = Seq<CertificateView>;

    open spec fn view(&self) -> Seq<CertificateView> {
        certificate_views(self.certificates@)
    }
}

impl CertificateChain {
    /// Every certificate is well formed, and there are no more than
    /// `MAX_CERTIFICATES` of them.
    pub open spec fn wf(&self) -> bool {
        &&& certificates_wf(self@)
        &&& self@.len() <= MAX_CERTIFICATES
    }

    /// The size of the chain in bytes.
    pub open spec fn spec_size(&self) -> int {
        spec_chain_size(self@, self@.len() as int)
    }

    /// The bytes of the chain.
    pub open spec fn spec_serialize(&self) -> Seq<u8> {
        spec_chain_serialize(self@, self@.len() as int)
    }

    /// Whether the chain is well formed, so that it can be written.
    pub fn is_well_formed(&self) -> (well_formed: bool)
        ensures
            well_formed == self.wf(),
    {
        if self.certificates.len() > MAX_CERTIFICATES {
            return false;
        }
        let mut i: usize = 0;
        while i < self.certificates.len()
            invariant
                i <= self.certificates@.len(),
                self@.len() == self.certificates@.len(),
                forall|j: int| 0 <= j < i ==> (#[trigger] self@[j]).wf(),
            decreases self.certificates@.len() - i,
        {
            assert(self@[i as int] == self.certificates@[i as int]@);
            if !self.certificates[i].is_well_formed() {
                return false;
            }
            i += 1;
        }
        true
    }

    /// Create a new certificate chain by parsing `number_of_certificates`
    /// certificates; behind each, the stream moves on to the next multiple of
    /// 64 bytes from where the chain began.
    pub fn new(stream: &mut Stream, number_of_certificates: usize) -> (result: Result<
        Self,
        CertificateChainError,
    >)
        requires
            old(stream).wf(),
        ensures
            final(stream).same_content(old(stream)),
            match spec_chain_parse(
                old(stream).bytes(),
                old(stream).pos() as int,
                old(stream).pos() as int,
                number_of_certificates as nat,
                Seq::empty(),
            ) {
                Ok((certificates, end)) => {
                    &&& result is Ok
                    &&& result.unwrap()@ == certificates
                    &&& number_of_certificates <= MAX_CERTIFICATES ==> result.unwrap().wf()
                    &&& final(stream).pos() == end
                },
                Err(error) => result == Err::<Self, CertificateChainError>(error),
            },
    {
        proof {
            let read = spec_chain_parse(
                stream.bytes(),
                stream.pos() as int,
                stream.pos() as int,
                number_of_certificates as nat,
                Seq::empty(),
            );
            if read is Ok {
                lemma_chain_parsed_is_well_formed(
                    stream.bytes(),
                    stream.pos() as int,
                    stream.pos() as int,
                    number_of_certificates as nat,
                    Seq::empty(),
                );
            }
        }
        let pin = stream.stream_position();
        let mut certificates: Vec<Certificate> = Vec::new();
        let mut i: usize = 0;
        assert(certificate_views(certificates@) =~= Seq::empty());
        while i < number_of_certificates
            invariant
                i <= number_of_certificates,
                stream.wf(),
                stream.same_content(old(stream)),
                pin == old(stream).pos(),
                pin <= stream.pos(),
                spec_chain_parse(
                    old(stream).bytes(),
                    pin as int,
                    pin as int,
                    number_of_certificates as nat,
                    Seq::empty(),
                ) == spec_chain_parse(
                    old(stream).bytes(),
                    pin as int,
                    stream.pos() as int,
                    (number_of_certificates - i) as nat,
                    certificate_views(certificates@),
                ),
            decreases number_of_certificates - i,
        {
            let ghost before = certificate_views(certificates@);
            let certificate = match Certificate::new(stream) {
                Ok(certificate) => certificate,
                Err(error) => return Err(error),
            };
            proof {
                lemma_parse_end(old(stream).bytes(), stream.pos() as int, certificate@);
                lemma_ceil_align(stream.pos() - pin, 64);
            }
            certificates.push(certificate);
            assert(certificate_views(certificates@) =~= before.push(certificate@));
            match stream.align_position_from(pin, BLOB_BOUNDARY) {
                Ok(()) => {},
                Err(error) => return Err(CertificateChainError::IoError(error)),
            }
            i += 1;
        }
        Ok(CertificateChain { certificates })
    }

    /// Append the bytes of the chain.
    pub fn serialize_into(&self, out: &mut Vec<u8>)
        requires
            self.wf(),
        ensures
            final(out)@ == old(out)@ + self.spec_serialize(),
            self.spec_serialize().len() == self.spec_size(),
    {
        let ghost before = out@;
        let mut i: usize = 0;
        while i < self.certificates.len()
            invariant
                i <= self.certificates@.len(),
                self.wf(),
                out@ == before + spec_chain_serialize(self@, i as int),
            decreases self.certificates@.len() - i,
        {
            assert(self@[i as int] == self.certificates@[i as int]@);
            assert(self@[i as int].wf());
            self.certificates[i].serialize_into(out);
            i += 1;
            assert(out@ =~= before + spec_chain_serialize(self@, i as int));
        }
        proof {
            lemma_chain_size(self@, self@.len() as int);
        }
    }

    /// Dump the certificate chain into a stream.
    pub fn dump(&self, stream: &mut Stream) -> (result: Result<(), StreamError>)
        requires
            old(stream).wf(),
            self.wf(),
        ensures
            final(stream).wf(),
            wrote_all(*old(stream), *final(stream), self.spec_serialize(), result),
            result is Ok ==> (final(stream).pos() - old(stream).pos()) % 64 == 0,
    {
        proof {
            lemma_chain_size(self@, self@.len() as int);
        }
        let mut bytes: Vec<u8> = Vec::new();
        self.serialize_into(&mut bytes);
        assert(bytes@ =~= self.spec_serialize());
        stream.write_all(bytes.as_slice())
    }

    /// Get the size of the certificate chain in bytes.
    pub fn size(&self) -> (size: u32)
        requires
            self@.len() <= MAX_CERTIFICATES,
        ensures
            size == self.spec_size(),
            size % 64 == 0,
    {
        let mut size: u32 = 0;
        let mut i: usize = 0;
        while i < self.certificates.len()
            invariant
                i <= self.certificates@.len(),
                self@.len() <= MAX_CERTIFICATES,
                self@.len() == self.certificates@.len(),
                size == spec_chain_size(self@, i as int),
                size <= 1280 * i,
            decreases self.certificates@.len() - i,
        {
            assert(self@[i as int] == self.certificates@[i as int]@);
            size = size + self.certificates[i].size();
            i += 1;
        }
        proof {
            lemma_chain_size(self@, self@.len() as int);
        }
        size
    }
}

/// A certificate that was read ends behind where it began, and within the
/// bytes.
pub proof fn lemma_parse_end(bytes: Seq<u8>, end: int, certificate: CertificateView)
    requires
        exists|pos: int|
            0 <= pos && #[trigger] CertificateView::spec_parse(bytes, pos) == Ok::<
                (CertificateView, int),
                CertificateChainError,
            >((certificate, end)),
    ensures
        end <= bytes.len(),
{
    let pos = choose|pos: int|
        0 <= pos && #[trigger] CertificateView::spec_parse(bytes, pos) == Ok::<
            (CertificateView, int),
            CertificateChainError,
        >((certificate, end));
    assert(CertificateView::spec_parse(bytes, pos) is Ok);
}

} // verus!
