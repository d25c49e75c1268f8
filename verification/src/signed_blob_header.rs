//! The header that Nintendo places in front of signed data.

use vstd::prelude::*;
use vstd::utf8::{decode_utf8, encode_utf8, valid_utf8};
use crate::align::{ceil_align, lemma_ceil_align};
use crate::bytes::{
    array_of, be_u32_at, lemma_array_of, lemma_array_of_view, lemma_be_u32_round_trip,
    lemma_until_nul_of_padded, nul_free, padded, push_bytes, push_padded, push_u32_be,
    push_zeros, u32_be_bytes, zeros,
};
use crate::extensions::{spec_null_terminated, wrote_all, StringEx, Utf8Error};
use crate::stream::{Stream, StreamError};

verus! {

broadcast use vstd::array::group_array_axioms;

/// The boundary that the parts of a signed blob are aligned to.
pub const BLOB_BOUNDARY: u64 = 64;

/// The width of the field that holds the issuer.
pub const ISSUER_WIDTH: usize = 64;

/// Blob placed at the start of some binary data to denote the entity that
/// issued them.
#[derive(Debug, Clone, PartialEq, Eq)]
pub struct SignedBlobHeader {
    /// Signature of the blob.
    pub signature: SignedBlobHeaderSignature,
    /// Issuer of the signature.
    pub issuer: String,
}

/// What a `SignedBlobHeader` holds.
pub struct SignedBlobHeaderView {
    /// Signature of the blob.
    pub signature: SignedBlobHeaderSignature,
    /// Issuer of the signature.
    pub issuer: Seq<char>,
}

/// Why a signed blob header could not be read.
#[derive(Debug, Clone, Copy, PartialEq, Eq, Structural)]
pub enum SignedBlobHeaderError {
    /// The stream failed.
    IoError(StreamError),
    /// The tag of the signature is none of the seven known ones.
    UnknownSignatureKind(u32),
    /// The issuer is not UTF-8.
    Utf8Error(Utf8Error),
}

/// Signature in different cryptography formats.
#[derive(Debug, Clone, PartialEq, Eq)]
pub enum SignedBlobHeaderSignature {
    /// RSA-4096 PKCS#1 v1.5 with SHA-1.
    Rsa4096Sha1(Box<[u8; 512]>),
    /// RSA-2048 PKCS#1 v1.5 with SHA-1.
    Rsa2048Sha1(Box<[u8; 256]>),
    /// ECDSA with SHA-1.
    EcdsaSha1(Box<[u8; 60]>),
    /// RSA-4096 PKCS#1 v1.5 with SHA-256.
    Rsa4096Sha256(Box<[u8; 512]>),
    /// RSA-2048 PKCS#1 v1.5 with SHA-256.
    Rsa2048Sha256(Box<[u8; 256]>),
    /// ECDSA with SHA-256.
    EcdsaSha256(Box<[u8; 60]>),
    /// HMAC-SHA1-160
    HmacSha1(Box<[u8; 20]>),
}

/// The length of the signature that a tag announces; none for an unknown
/// tag.
pub open spec fn signature_len(tag: u32) -> Option<int> {
    if tag == 0x010000 || tag == 0x010003 {
        Some(512)
    } else if tag == 0x010001 || tag == 0x010004 {
        Some(256)
    } else if tag == 0x010002 || tag == 0x010005 {
        Some(60)
    } else if tag == 0x010006 {
        Some(20)
    } else {
        None
    }
}

/// The signature with a known tag and the bytes that follow it.
pub open spec fn signature_of(tag: u32, data: Seq<u8>) -> SignedBlobHeaderSignature {
    if tag == 0x010000 {
        SignedBlobHeaderSignature::Rsa4096Sha1(Box::new(array_of::<512>(data)))
    } else if tag == 0x010001 {
        SignedBlobHeaderSignature::Rsa2048Sha1(Box::new(array_of::<256>(data)))
    } else if tag == 0x010002 {
        SignedBlobHeaderSignature::EcdsaSha1(Box::new(array_of::<60>(data)))
    } else if tag == 0x010003 {
        SignedBlobHeaderSignature::Rsa4096Sha256(Box::new(array_of::<512>(data)))
    } else if tag == 0x010004 {
        SignedBlobHeaderSignature::Rsa2048Sha256(Box::new(array_of::<256>(data)))
    } else if tag == 0x010005 {
        SignedBlobHeaderSignature::EcdsaSha256(Box::new(array_of::<60>(data)))
    } else {
        SignedBlobHeaderSignature::HmacSha1(Box::new(array_of::<20>(data)))
    }
}

impl SignedBlobHeaderSignature {
    /// The tag that the signature is stored under.
    pub open spec fn spec_tag(self) -> u32 {
        match self {
            SignedBlobHeaderSignature::Rsa4096Sha1(_) => 0x010000,
            SignedBlobHeaderSignature::Rsa2048Sha1(_) => 0x010001,
            SignedBlobHeaderSignature::EcdsaSha1(_) => 0x010002,
            SignedBlobHeaderSignature::Rsa4096Sha256(_) => 0x010003,
            SignedBlobHeaderSignature::Rsa2048Sha256(_) => 0x010004,
            SignedBlobHeaderSignature::EcdsaSha256(_) => 0x010005,
            SignedBlobHeaderSignature::HmacSha1(_) => 0x010006,
        }
    }

    /// The bytes of the signature.
    pub open spec fn spec_data(self) -> Seq<u8> {
        match self {
            SignedBlobHeaderSignature::Rsa4096Sha1(data) => data@,
            SignedBlobHeaderSignature::Rsa2048Sha1(data) => data@,
            SignedBlobHeaderSignature::EcdsaSha1(data) => data@,
            SignedBlobHeaderSignature::Rsa4096Sha256(data) => data@,
            SignedBlobHeaderSignature::Rsa2048Sha256(data) => data@,
            SignedBlobHeaderSignature::EcdsaSha256(data) => data@,
            SignedBlobHeaderSignature::HmacSha1(data) => data@,
        }
    }

    /// The number of bytes of the signature.
    pub open spec fn spec_len(self) -> int {
        self.spec_data().len() as int
    }

    /// The tag and the bytes of the signature, as they are stored.
    pub open spec fn spec_serialize(self) -> Seq<u8> {
        u32_be_bytes(self.spec_tag()) + self.spec_data()
    }

    /// A signature is the one that its tag and its bytes make, and its tag
    /// announces its length.
    pub proof fn lemma_of_parts(self)
        ensures
            signature_len(self.spec_tag()) == Some(self.spec_data().len() as int),
            signature_of(self.spec_tag(), self.spec_data()) == self,
    {
        match self {
            SignedBlobHeaderSignature::Rsa4096Sha1(data) => lemma_array_of_view::<512>(*data),
            SignedBlobHeaderSignature::Rsa2048Sha1(data) => lemma_array_of_view::<256>(*data),
            SignedBlobHeaderSignature::EcdsaSha1(data) => lemma_array_of_view::<60>(*data),
            SignedBlobHeaderSignature::Rsa4096Sha256(data) => lemma_array_of_view::<512>(*data),
            SignedBlobHeaderSignature::Rsa2048Sha256(data) => lemma_array_of_view::<256>(*data),
            SignedBlobHeaderSignature::EcdsaSha256(data) => lemma_array_of_view::<60>(*data),
            SignedBlobHeaderSignature::HmacSha1(data) => lemma_array_of_view::<20>(*data),
        }
    }

    /// Read the tag and the signature that it announces.
    fn new(stream: &mut Stream) -> (result: Result<Self, SignedBlobHeaderError>)
        requires
            old(stream).wf(),
        ensures
            final(stream).same_content(old(stream)),
            ({
                let bytes = old(stream).bytes();
                let pos = old(stream).pos() as int;
                if pos + 4 > bytes.len() {
                    result == Err::<Self, SignedBlobHeaderError>(
                        SignedBlobHeaderError::IoError(StreamError::UnexpectedEof),
                    )
                } else {
                    let tag = be_u32_at(bytes, pos);
                    match signature_len(tag) {
                        None => result == Err::<Self, SignedBlobHeaderError>(
                            SignedBlobHeaderError::UnknownSignatureKind(tag),
                        ),
                        Some(len) => if pos + 4 + len > bytes.len() {
                            result == Err::<Self, SignedBlobHeaderError>(
                                SignedBlobHeaderError::IoError(StreamError::UnexpectedEof),
                            )
                        } else {
                            &&& result == Ok::<Self, SignedBlobHeaderError>(
                                signature_of(tag, bytes.subrange(pos + 4, pos + 4 + len)),
                            )
                            &&& final(stream).pos() == pos + 4 + len
                        },
                    }
                }
            }),
    {
        let tag = match stream.read_u32_be() {
            Ok(tag) => tag,
            Err(error) => return Err(SignedBlobHeaderError::IoError(error)),
        };
        if tag == 0x010000 {
            match stream.read_array::<512>() {
                Ok(data) => Ok(SignedBlobHeaderSignature::Rsa4096Sha1(Box::new(data))),
                Err(error) => Err(SignedBlobHeaderError::IoError(error)),
            }
        } else if tag == 0x010001 {
            match stream.read_array::<256>() {
                Ok(data) => Ok(SignedBlobHeaderSignature::Rsa2048Sha1(Box::new(data))),
                Err(error) => Err(SignedBlobHeaderError::IoError(error)),
            }
        } else if tag == 0x010002 {
            match stream.read_array::<60>() {
                Ok(data) => Ok(SignedBlobHeaderSignature::EcdsaSha1(Box::new(data))),
                Err(error) => Err(SignedBlobHeaderError::IoError(error)),
            }
        } else if tag == 0x010003 {
            match stream.read_array::<512>() {
                Ok(data) => Ok(SignedBlobHeaderSignature::Rsa4096Sha256(Box::new(data))),
                Err(error) => Err(SignedBlobHeaderError::IoError(error)),
            }
        } else if tag == 0x010004 {
            match stream.read_array::<256>() {
                Ok(data) => Ok(SignedBlobHeaderSignature::Rsa2048Sha256(Box::new(data))),
                Err(error) => Err(SignedBlobHeaderError::IoError(error)),
            }
        } else if tag == 0x010005 {
            match stream.read_array::<60>() {
                Ok(data) => Ok(SignedBlobHeaderSignature::EcdsaSha256(Box::new(data))),
                Err(error) => Err(SignedBlobHeaderError::IoError(error)),
            }
        } else if tag == 0x010006 {
            match stream.read_array::<20>() {
                Ok(data) => Ok(SignedBlobHeaderSignature::HmacSha1(Box::new(data))),
                Err(error) => Err(SignedBlobHeaderError::IoError(error)),
            }
        } else {
            Err(SignedBlobHeaderError::UnknownSignatureKind(tag))
        }
    }

    /// Append the tag and the bytes of the signature.
    fn dump(&self, out: &mut Vec<u8>)
        ensures
            final(out)@ == old(out)@ + self.spec_serialize(),
    {
        let ghost before = out@;
        match self {
            SignedBlobHeaderSignature::Rsa4096Sha1(data) => {
                push_u32_be(out, 0x010000);
                push_bytes(out, data.as_slice());
            },
            SignedBlobHeaderSignature::Rsa2048Sha1(data) => {
                push_u32_be(out, 0x010001);
                push_bytes(out, data.as_slice());
            },
            SignedBlobHeaderSignature::EcdsaSha1(data) => {
                push_u32_be(out, 0x010002);
                push_bytes(out, data.as_slice());
            },
            SignedBlobHeaderSignature::Rsa4096Sha256(data) => {
                push_u32_be(out, 0x010003);
                push_bytes(out, data.as_slice());
            },
            SignedBlobHeaderSignature::Rsa2048Sha256(data) => {
                push_u32_be(out, 0x010004);
                push_bytes(out, data.as_slice());
            },
            SignedBlobHeaderSignature::EcdsaSha256(data) => {
                push_u32_be(out, 0x010005);
                push_bytes(out, data.as_slice());
            },
            SignedBlobHeaderSignature::HmacSha1(data) => {
                push_u32_be(out, 0x010006);
                push_bytes(out, data.as_slice());
            },
        }
        assert(out@ =~= before + self.spec_serialize());
    }

    /// The length of the signature in bytes, without its tag.
    fn data_len(&self) -> (len: u32)
        ensures
            len == self.spec_data().len(),
            len <= 512,
    {
        match self {
            SignedBlobHeaderSignature::Rsa4096Sha1(_)
            | SignedBlobHeaderSignature::Rsa4096Sha256(_) => 512,
            SignedBlobHeaderSignature::Rsa2048Sha1(_)
            | SignedBlobHeaderSignature::Rsa2048Sha256(_) => 256,
            SignedBlobHeaderSignature::EcdsaSha1(_) | SignedBlobHeaderSignature::EcdsaSha256(_) => 60,
            SignedBlobHeaderSignature::HmacSha1(_) => 20,
        }
    }
}

impl View for SignedBlobHeader {
    type V = SignedBlobHeaderView;

    open spec fn view(&self) -> SignedBlobHeaderView {
        SignedBlobHeaderView { signature: self.signature, issuer: self.issuer@ }
    }
}

impl SignedBlobHeaderView {
    /// The issuer fits its field and holds no zero byte: only such a header
    /// is read back as it was written.
    pub open spec fn wf(self) -> bool {
        &&& encode_utf8(self.issuer).len() <= ISSUER_WIDTH
        &&& nul_free(encode_utf8(self.issuer))
    }

    /// The offset of the issuer from the start of the header: the tag and
    /// the signature, aligned.
    pub open spec fn spec_issuer_offset(self) -> int {
        ceil_align(4 + self.signature.spec_len(), BLOB_BOUNDARY as int)
    }

    /// The size of the header in bytes.
    pub open spec fn spec_size(self) -> int {
        ceil_align(self.signature.spec_len() + 68, BLOB_BOUNDARY as int)
    }

    /// The bytes of the header: the signature, zeros up to the boundary, and
    /// the issuer in its field.
    pub open spec fn spec_serialize(self) -> Seq<u8> {
        self.signature.spec_serialize() + zeros(
            self.spec_issuer_offset() - 4 - self.signature.spec_len(),
        ) + padded(encode_utf8(self.issuer), ISSUER_WIDTH as int)
    }

    /// The header that stands at `pos` in `bytes` and the position behind it,
    /// or why there is none.
    pub open spec fn spec_parse(bytes: Seq<u8>, pos: int) -> Result<
        (SignedBlobHeaderView, int),
        SignedBlobHeaderError,
    > {
        if pos + 4 > bytes.len() {
            Err(SignedBlobHeaderError::IoError(StreamError::UnexpectedEof))
        } else {
            let tag = be_u32_at(bytes, pos);
            match signature_len(tag) {
                None => Err(SignedBlobHeaderError::UnknownSignatureKind(tag)),
                Some(len) => {
                    let issuer_at = pos + ceil_align(4 + len, BLOB_BOUNDARY as int);
                    if pos + 4 + len > bytes.len() || issuer_at + ISSUER_WIDTH > bytes.len() {
                        Err(SignedBlobHeaderError::IoError(StreamError::UnexpectedEof))
                    } else {
                        match spec_null_terminated(
                            bytes.subrange(issuer_at, issuer_at + ISSUER_WIDTH),
                        ) {
                            None => Err(SignedBlobHeaderError::Utf8Error(Utf8Error)),
                            Some(issuer) => Ok(
                                (
                                    SignedBlobHeaderView {
                                        signature: signature_of(
                                            tag,
                                            bytes.subrange(pos + 4, pos + 4 + len),
                                        ),
                                        issuer,
                                    },
                                    issuer_at + ISSUER_WIDTH,
                                ),
                            ),
                        }
                    }
                },
            }
        }
    }

    /// The issuer stands behind the aligned signature, and the header ends
    /// behind the issuer, on the boundary.
    pub proof fn lemma_size(self)
        ensures
            self.spec_size() == self.spec_issuer_offset() + ISSUER_WIDTH,
            self.spec_size() % 64 == 0,
            4 + self.signature.spec_len() <= self.spec_issuer_offset(),
            self.spec_size() <= 640,
            self.wf() ==> self.spec_serialize().len() == self.spec_size(),
    {
        self.signature.lemma_of_parts();
        let len = self.signature.spec_data().len() as int;
        lemma_ceil_align(4 + len, 64);
        lemma_ceil_align(len + 68, 64);
        assert(ceil_align(len + 68, 64) == ceil_align(4 + len, 64) + 64) by {
            let a = ceil_align(4 + len, 64);
            let b = ceil_align(len + 68, 64);
            assert(a % 64 == 0 && b % 64 == 0);
            assert(4 + len <= a < 4 + len + 64);
            assert(68 + len <= b < 68 + len + 64);
            assert((a + 64) % 64 == 0);
            assert(b == a + 64) by (nonlinear_arith)
                requires
                    a % 64 == 0,
                    b % 64 == 0,
                    68 + len <= b < 68 + len + 64,
                    68 + len <= a + 64 < 68 + len + 64,
            ;
        }
    }

    /// A header that was read is well formed.
    pub proof fn lemma_parsed_is_well_formed(bytes: Seq<u8>, pos: int)
        requires
            0 <= pos,
            Self::spec_parse(bytes, pos) is Ok,
        ensures
            Self::spec_parse(bytes, pos).unwrap().0.wf(),
    {
        let tag = be_u32_at(bytes, pos);
        let len = signature_len(tag).unwrap();
        let issuer_at = pos + ceil_align(4 + len, BLOB_BOUNDARY as int);
        lemma_ceil_align(4 + len, 64);
        crate::extensions::lemma_null_terminated_fits(
            bytes.subrange(issuer_at, issuer_at + ISSUER_WIDTH),
        );
    }

    /// A well-formed header is read back from its bytes, wherever they stand
    /// and whatever follows them; so writing what was read from the bytes of
    /// a header gives those bytes again.
    pub proof fn lemma_parse_serialize(self, bytes: Seq<u8>, pos: int)
        requires
            self.wf(),
            0 <= pos,
            pos + self.spec_size() <= bytes.len(),
            bytes.subrange(pos, pos + self.spec_size()) == self.spec_serialize(),
        ensures
            Self::spec_parse(bytes, pos) == Ok::<(SignedBlobHeaderView, int), SignedBlobHeaderError>(
                (self, pos + self.spec_size()),
            ),
            Self::spec_parse(bytes, pos).unwrap().0.spec_serialize() == bytes.subrange(
                pos,
                pos + self.spec_size(),
            ),
    {
        self.lemma_size();
        self.signature.lemma_of_parts();
        let tag = self.signature.spec_tag();
        let data = self.signature.spec_data();
        let len = data.len() as int;
        let image = self.spec_serialize();
        let issuer_at = pos + self.spec_issuer_offset();
        let text = encode_utf8(self.issuer);
        assert forall|i: int| 0 <= i < image.len() implies bytes[pos + i] == image[i] by {
            assert(bytes.subrange(pos, pos + self.spec_size())[i] == bytes[pos + i]);
        }
        assert(bytes.subrange(pos, pos + 4) =~= u32_be_bytes(tag)) by {
            assert forall|i: int| 0 <= i < 4 implies bytes.subrange(pos, pos + 4)[i]
                == u32_be_bytes(tag)[i] by {
                assert(image[i] == u32_be_bytes(tag)[i]);
            }
        }
        lemma_be_u32_round_trip(bytes, pos, tag);
        assert(bytes.subrange(pos + 4, pos + 4 + len) =~= data) by {
            assert forall|i: int| 0 <= i < len implies bytes.subrange(pos + 4, pos + 4 + len)[i]
                == data[i] by {
                assert(image[4 + i] == data[i]);
            }
        }
        let field = bytes.subrange(issuer_at, issuer_at + ISSUER_WIDTH);
        assert(field =~= padded(text, ISSUER_WIDTH as int)) by {
            assert forall|i: int| 0 <= i < ISSUER_WIDTH implies field[i] == padded(
                text,
                ISSUER_WIDTH as int,
            )[i] by {
                assert(image[self.spec_issuer_offset() + i] == padded(text, ISSUER_WIDTH as int)[i]);
            }
        }
        lemma_until_nul_of_padded(text, ISSUER_WIDTH as int);
        vstd::utf8::encode_utf8_valid_utf8(self.issuer);
        vstd::utf8::encode_utf8_decode_utf8(self.issuer);
    }
}

impl SignedBlobHeader {
    /// The issuer fits its field and holds no zero byte.
    pub open spec fn wf(&self) -> bool {
        self@.wf()
    }

    /// Whether the header is well formed, so that it can be written.
    pub fn is_well_formed(&self) -> (well_formed: bool)
        ensures
            well_formed == self.wf(),
    {
        crate::bytes::fits_field(self.issuer.as_str().as_bytes(), ISSUER_WIDTH)
    }

    /// Create a new [SignedBlobHeader] by parsing a stream: the tag, the
    /// signature, a gap up to the boundary of 64 bytes, and the issuer. The
    /// bytes in the gap are not looked at.
    pub fn new(stream: &mut Stream) -> (result: Result<Self, SignedBlobHeaderError>)
        requires
            old(stream).wf(),
        ensures
            final(stream).same_content(old(stream)),
            match SignedBlobHeaderView::spec_parse(old(stream).bytes(), old(stream).pos() as int) {
                Ok((header, end)) => {
                    &&& result is Ok
                    &&& result.unwrap()@ == header
                    &&& result.unwrap().wf()
                    &&& final(stream).pos() == end
                },
                Err(error) => result == Err::<Self, SignedBlobHeaderError>(error),
            },
    {
        proof {
            if SignedBlobHeaderView::spec_parse(stream.bytes(), stream.pos() as int) is Ok {
                SignedBlobHeaderView::lemma_parsed_is_well_formed(
                    stream.bytes(),
                    stream.pos() as int,
                );
            }
        }
        let pin = stream.stream_position();
        let signature = match SignedBlobHeaderSignature::new(stream) {
            Ok(signature) => signature,
            Err(error) => return Err(error),
        };
        proof {
            signature.lemma_of_parts();
            lemma_ceil_align(4 + signature.spec_len(), 64);
        }
        match stream.align_position_from(pin, BLOB_BOUNDARY) {
            Ok(()) => {},
            Err(error) => return Err(SignedBlobHeaderError::IoError(error)),
        }
        let field = match stream.read_array::<64>() {
            Ok(field) => field,
            Err(error) => return Err(SignedBlobHeaderError::IoError(error)),
        };
        match String::from_null_terminated_bytes(field.as_slice()) {
            Ok(issuer) => Ok(SignedBlobHeader { signature, issuer }),
            Err(error) => Err(SignedBlobHeaderError::Utf8Error(error)),
        }
    }

    /// Append the bytes of the header.
    pub fn serialize_into(&self, out: &mut Vec<u8>)
        requires
            self.wf(),
        ensures
            final(out)@ == old(out)@ + self@.spec_serialize(),
            self@.spec_serialize().len() == self@.spec_size(),
    {
        let ghost before = out@;
        proof {
            self@.lemma_size();
            lemma_ceil_align(4 + self.signature.spec_len(), 64);
        }
        self.signature.dump(out);
        let written: u64 = 4 + self.signature.data_len() as u64;
        let aligned = crate::align::align_to_boundary(written, BLOB_BOUNDARY);
        push_zeros(out, (aligned - written) as usize);
        push_padded(out, self.issuer.as_str().as_bytes(), ISSUER_WIDTH);
        assert(out@ =~= before + self@.spec_serialize());
    }

    /// Write the header at the position of the stream.
    pub fn dump(&self, stream: &mut Stream) -> (result: Result<(), StreamError>)
        requires
            old(stream).wf(),
            self.wf(),
        ensures
            final(stream).wf(),
            wrote_all(*old(stream), *final(stream), self@.spec_serialize(), result),
            result is Ok ==> (final(stream).pos() - old(stream).pos()) % 64 == 0,
    {
        proof {
            self@.lemma_size();
        }
        let mut bytes: Vec<u8> = Vec::new();
        self.serialize_into(&mut bytes);
        assert(bytes@ =~= self@.spec_serialize());
        stream.write_all(bytes.as_slice())
    }

    /// Get the size of the signed blob header in bytes.
    pub fn size(&self) -> (size: u32)
        ensures
            size == self@.spec_size(),
            size % 64 == 0,
            size <= 640,
    {
        proof {
            self@.lemma_size();
            lemma_ceil_align(self.signature.spec_len() + 68, 64);
        }
        let size = self.signature.data_len() as u64 + 68;
        crate::align::align_to_boundary(size, BLOB_BOUNDARY) as u32
    }
}

} // verus!
