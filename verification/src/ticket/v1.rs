//! The extension that version 1 adds to a ticket.

use vstd::prelude::*;
use crate::bytes::{
    array_of, be_u16_at, be_u32_at, be_u64_at, push_bytes, push_u16_be, push_u32_be,
    push_u64_be, u16_be_bytes, u32_be_bytes, u64_be_bytes,
};
use crate::stream::{Stream, StreamError};
use crate::title_id::TitleId;

verus! {

broadcast use vstd::array::group_array_axioms;

/// The size of the header of the extension.
pub const HEADER_SIZE: u16 = 20;

/// The size of the header of a section.
pub const SECTION_HEADER_SIZE: u16 = 20;

/// Extra data available on V1 tickets.
#[derive(Debug, Clone, PartialEq, Eq)]
pub struct PreSwitchTicketV1 {
    /// The set of data sections present on the V1 ticket.
    pub sections: Vec<PreSwitchTicketV1Section>,
    /// Extra flags for the V1 ticket itself, its meaning is still unknown.
    pub flags: u32,
}

/// What a `PreSwitchTicketV1` holds.
pub struct PreSwitchTicketV1View {
    /// The sections.
    pub sections: Seq<PreSwitchTicketV1SectionView>,
    /// The flags of the extension.
    pub flags: u32,
}

/// Why the extension of a V1 ticket could not be read.
#[derive(Debug, Clone, Copy, PartialEq, Eq, Structural)]
pub enum PreSwitchTicketV1Error {
    /// The version of the extension is not 1.
    UnknownTicketV1Version(u16),
    /// The size of the header is not 20.
    UnknownTicketV1HeaderSize(u16),
    /// The size of the section headers is not 20.
    UnknownTicketV1SectionHeaderSize(u16),
    /// The kind of a section is none of the five known ones.
    UnknownTicketV1SectionKind(u16),
    /// The size that the header states is not the size of what was read.
    UnknownTicketV1TotalSize(u32),
    /// The size of a record is not the one of its kind.
    UnknownTicketV1RecordSize(u32),
    /// The stream failed.
    IoError(StreamError),
}

/// The data of a section inside a V1 ticket.
#[derive(Debug, Clone, PartialEq, Eq)]
pub struct PreSwitchTicketV1Section {
    /// The records inside the section.
    pub records: PreSwitchTicketV1Records,
    /// Extra flags for the V1 ticket section itself, its meaning is still unknown.
    pub flags: u16,
}

/// What a `PreSwitchTicketV1Section` holds.
pub struct PreSwitchTicketV1SectionView {
    /// The records inside the section.
    pub records: PreSwitchTicketV1RecordsView,
    /// The flags of the section.
    pub flags: u16,
}

/// The set of records a section can have. All records in a section are of
/// the same kind.
#[derive(Debug, Clone, PartialEq, Eq)]
pub enum PreSwitchTicketV1Records {
    /// A set of "permanent" records.
    Permanent(Vec<PreSwitchTicketV1RecordPermanent>),
    /// A set of "subscription" records.
    Subscription(Vec<PreSwitchTicketV1RecordSubscription>),
    /// A set of "content" records.
    Content(Vec<PreSwitchTicketV1RecordContent>),
    /// A set of "content consumption" records.
    ContentConsumption(Vec<PreSwitchTicketV1RecordContentConsumption>),
    /// A set of "access title" records.
    AccessTitle(Vec<PreSwitchTicketV1RecordAccessTitle>),
}

/// What a `PreSwitchTicketV1Records` holds.
pub enum PreSwitchTicketV1RecordsView {
    /// A set of "permanent" records.
    Permanent(Seq<PreSwitchTicketV1RecordPermanent>),
    /// A set of "subscription" records.
    Subscription(Seq<PreSwitchTicketV1RecordSubscription>),
    /// A set of "content" records.
    Content(Seq<PreSwitchTicketV1RecordContent>),
    /// A set of "content consumption" records.
    ContentConsumption(Seq<PreSwitchTicketV1RecordContentConsumption>),
    /// A set of "access title" records.
    AccessTitle(Seq<PreSwitchTicketV1RecordAccessTitle>),
}

/// A reference ID, its meaning and use are still unknown.
#[derive(Debug, Clone, Copy, PartialEq, Eq)]
pub struct PreSwitchTicketV1RefereceId {
    /// The ID value.
    pub id: [u8; 16],
    /// Attributes attached to the ID.
    pub attributes: u32,
}

/// A record of kind "permanent", its meaning is still unknown.
#[derive(Debug, Clone, Copy, PartialEq, Eq)]
pub struct PreSwitchTicketV1RecordPermanent {
    /// The reference ID attach to the record.
    pub reference_id: PreSwitchTicketV1RefereceId,
}

/// A record of kind "subscription", its meaning is still unknown.
#[derive(Debug, Clone, Copy, PartialEq, Eq)]
pub struct PreSwitchTicketV1RecordSubscription {
    /// The time for the record to expire (measured in UNIX time).
    pub expiration_time: u32,
    /// The reference ID attach to the record.
    pub reference_id: PreSwitchTicketV1RefereceId,
}

/// A record of kind "content", its meaning is still unknown.
#[derive(Debug, Clone, Copy, PartialEq, Eq)]
pub struct PreSwitchTicketV1RecordContent {
    /// The index offset of the content.
    pub offset_content_index: u32,
    /// The access mark.
    pub access_mask: [u8; 128],
}

/// A record of kind "content consumption", its meaning is still unknown.
#[derive(Debug, Clone, Copy, PartialEq, Eq)]
pub struct PreSwitchTicketV1RecordContentConsumption {
    /// The index of the content.
    pub content_index: u16,
    /// The kind of limit applied.
    pub limit_code: u16,
    /// The value attached to the limit kind.
    pub limit_value: u32,
}

/// A record of kind "access title", its meaning is still unknown.
#[derive(Debug, Clone, Copy, PartialEq, Eq)]
pub struct PreSwitchTicketV1RecordAccessTitle {
    /// The title ID whose access has been given.
    pub title_id: TitleId,
    /// The mask of title IDs.
    pub title_mask: u64,
}

/// A record of a section: a value of fixed width that is stored as it
/// stands.
pub trait PreSwitchTicketV1Record: Sized + Copy {
    /// The number of bytes of a record.
    spec fn spec_width() -> int;

    /// The record stored at offset `at` of `bytes`.
    spec fn spec_parse(bytes: Seq<u8>, at: int) -> Self;

    /// The bytes of the record.
    spec fn spec_serialize(self) -> Seq<u8>;

    /// A record is between 8 and 132 bytes wide, and its bytes are as many.
    proof fn lemma_width(self)
        ensures
            8 <= Self::spec_width() <= 132,
            self.spec_serialize().len() == Self::spec_width(),
    ;

    /// A record is read back from its bytes, wherever they stand.
    proof fn lemma_parse_serialize(self, bytes: Seq<u8>, at: int)
        requires
            0 <= at,
            at + Self::spec_width() <= bytes.len(),
            bytes.subrange(at, at + Self::spec_width()) == self.spec_serialize(),
        ensures
            Self::spec_parse(bytes, at) == self,
    ;

    /// The number of bytes of a record.
    fn width() -> (width: u32)
        ensures
            width == Self::spec_width(),
            8 <= width <= 132,
    ;

    /// Read one record.
    fn read(stream: &mut Stream) -> (result: Result<Self, StreamError>)
        ensures
            final(stream).same_content(old(stream)),
            old(stream).pos() + Self::spec_width() <= old(stream).size() ==> {
                &&& result == Ok::<Self, StreamError>(
                    Self::spec_parse(old(stream).bytes(), old(stream).pos() as int),
                )
                &&& final(stream).pos() == old(stream).pos() + Self::spec_width()
            },
            old(stream).pos() + Self::spec_width() > old(stream).size() ==> result == Err::<
                Self,
                StreamError,
            >(StreamError::UnexpectedEof),
    ;

    /// Append the bytes of the record.
    fn write(&self, out: &mut Vec<u8>)
        ensures
            final(out)@ == old(out)@ + self.spec_serialize(),
    ;
}

impl PreSwitchTicketV1RefereceId {
    /// The reference ID stored at offset `at` of `bytes`.
    pub open spec fn spec_parse(bytes: Seq<u8>, at: int) -> Self {
        PreSwitchTicketV1RefereceId {
            id: array_of::<16>(bytes.subrange(at, at + 16)),
            attributes: be_u32_at(bytes, at + 16),
        }
    }

    /// The twenty bytes of the reference ID.
    pub open spec fn spec_serialize(self) -> Seq<u8> {
        self.id@ + u32_be_bytes(self.attributes)
    }

    /// A reference ID is read back from its bytes, wherever they stand.
    pub proof fn lemma_parse_serialize(self, bytes: Seq<u8>, at: int)
        requires
            0 <= at,
            at + 20 <= bytes.len(),
            bytes.subrange(at, at + 20) == self.spec_serialize(),
        ensures
            Self::spec_parse(bytes, at) == self,
    {
        let image = self.spec_serialize();
        crate::bytes::lemma_embedded_part(bytes, at, image, 0, 16);
        crate::bytes::lemma_embedded_part(bytes, at, image, 16, 4);
        crate::bytes::lemma_parts_of_concat(self.id@, u32_be_bytes(self.attributes));
        crate::bytes::lemma_array_of_view::<16>(self.id);
        crate::bytes::lemma_be_u32_round_trip(bytes, at + 16, self.attributes);
    }

    /// Read a reference ID.
    pub fn new(stream: &mut Stream) -> (result: Result<Self, StreamError>)
        ensures
            final(stream).same_content(old(stream)),
            old(stream).pos() + 20 <= old(stream).size() ==> {
                &&& result == Ok::<Self, StreamError>(
                    Self::spec_parse(old(stream).bytes(), old(stream).pos() as int),
                )
                &&& final(stream).pos() == old(stream).pos() + 20
            },
            old(stream).pos() + 20 > old(stream).size() ==> result == Err::<Self, StreamError>(
                StreamError::UnexpectedEof,
            ),
    {
        let id = match stream.read_array::<16>() {
            Ok(id) => id,
            Err(error) => return Err(error),
        };
        let attributes = match stream.read_u32_be() {
            Ok(attributes) => attributes,
            Err(error) => return Err(error),
        };
        Ok(PreSwitchTicketV1RefereceId { id, attributes })
    }

    /// Append the bytes of the reference ID.
    pub fn dump(&self, out: &mut Vec<u8>)
        ensures
            final(out)@ == old(out)@ + self.spec_serialize(),
    {
        let ghost before = out@;
        push_bytes(out, self.id.as_slice());
        push_u32_be(out, self.attributes);
        assert(out@ =~= before + self.spec_serialize());
    }
}

impl PreSwitchTicketV1Record for PreSwitchTicketV1RecordPermanent {
    open spec fn spec_width() -> int {
        20
    }

    open spec fn spec_parse(bytes: Seq<u8>, at: int) -> Self {
        PreSwitchTicketV1RecordPermanent {
            reference_id: PreSwitchTicketV1RefereceId::spec_parse(bytes, at),
        }
    }

    open spec fn spec_serialize(self) -> Seq<u8> {
        self.reference_id.spec_serialize()
    }

    proof fn lemma_width(self) {
    }

    proof fn lemma_parse_serialize(self, bytes: Seq<u8>, at: int) {
        self.reference_id.lemma_parse_serialize(bytes, at);
    }

    fn width() -> (width: u32) {
        20
    }

    fn read(stream: &mut Stream) -> (result: Result<Self, StreamError>) {
        match PreSwitchTicketV1RefereceId::new(stream) {
            Ok(reference_id) => Ok(PreSwitchTicketV1RecordPermanent { reference_id }),
            Err(error) => Err(error),
        }
    }

    fn write(&self, out: &mut Vec<u8>) {
        self.reference_id.dump(out);
    }
}

impl PreSwitchTicketV1Record for PreSwitchTicketV1RecordSubscription {
    open spec fn spec_width() -> int {
        24
    }

    open spec fn spec_parse(bytes: Seq<u8>, at: int) -> Self {
        PreSwitchTicketV1RecordSubscription {
            expiration_time: be_u32_at(bytes, at),
            reference_id: PreSwitchTicketV1RefereceId::spec_parse(bytes, at + 4),
        }
    }

    open spec fn spec_serialize(self) -> Seq<u8> {
        u32_be_bytes(self.expiration_time) + self.reference_id.spec_serialize()
    }

    proof fn lemma_width(self) {
    }

    proof fn lemma_parse_serialize(self, bytes: Seq<u8>, at: int) {
        let image = self.spec_serialize();
        crate::bytes::lemma_embedded_part(bytes, at, image, 0, 4);
        crate::bytes::lemma_embedded_part(bytes, at, image, 4, 20);
        crate::bytes::lemma_parts_of_concat(
            u32_be_bytes(self.expiration_time),
            self.reference_id.spec_serialize(),
        );
        crate::bytes::lemma_be_u32_round_trip(bytes, at, self.expiration_time);
        self.reference_id.lemma_parse_serialize(bytes, at + 4);
    }

    fn width() -> (width: u32) {
        24
    }

    fn read(stream: &mut Stream) -> (result: Result<Self, StreamError>) {
        let expiration_time = match stream.read_u32_be() {
            Ok(expiration_time) => expiration_time,
            Err(error) => return Err(error),
        };
        match PreSwitchTicketV1RefereceId::new(stream) {
            Ok(reference_id) => Ok(
                PreSwitchTicketV1RecordSubscription { expiration_time, reference_id },
            ),
            Err(error) => Err(error),
        }
    }

    fn write(&self, out: &mut Vec<u8>) {
        let ghost before = out@;
        push_u32_be(out, self.expiration_time);
        self.reference_id.dump(out);
        assert(out@ =~= before + self.spec_serialize());
    }
}

impl PreSwitchTicketV1Record for PreSwitchTicketV1RecordContent {
    open spec fn spec_width() -> int {
        132
    }

    open spec fn spec_parse(bytes: Seq<u8>, at: int) -> Self {
        PreSwitchTicketV1RecordContent {
            offset_content_index: be_u32_at(bytes, at),
            access_mask: array_of::<128>(bytes.subrange(at + 4, at + 132)),
        }
    }

    open spec fn spec_serialize(self) -> Seq<u8> {
        u32_be_bytes(self.offset_content_index) + self.access_mask@
    }

    proof fn lemma_width(self) {
    }

    proof fn lemma_parse_serialize(self, bytes: Seq<u8>, at: int) {
        let image = self.spec_serialize();
        crate::bytes::lemma_embedded_part(bytes, at, image, 0, 4);
        crate::bytes::lemma_embedded_part(bytes, at, image, 4, 128);
        crate::bytes::lemma_parts_of_concat(
            u32_be_bytes(self.offset_content_index),
            self.access_mask@,
        );
        crate::bytes::lemma_be_u32_round_trip(bytes, at, self.offset_content_index);
        crate::bytes::lemma_array_of_view::<128>(self.access_mask);
    }

    fn width() -> (width: u32) {
        132
    }

    fn read(stream: &mut Stream) -> (result: Result<Self, StreamError>) {
        let offset_content_index = match stream.read_u32_be() {
            Ok(offset_content_index) => offset_content_index,
            Err(error) => return Err(error),
        };
        match stream.read_array::<128>() {
            Ok(access_mask) => Ok(
                PreSwitchTicketV1RecordContent { offset_content_index, access_mask },
            ),
            Err(error) => Err(error),
        }
    }

    fn write(&self, out: &mut Vec<u8>) {
        let ghost before = out@;
        push_u32_be(out, self.offset_content_index);
        push_bytes(out, self.access_mask.as_slice());
        assert(out@ =~= before + self.spec_serialize());
    }
}

impl PreSwitchTicketV1Record for PreSwitchTicketV1RecordContentConsumption {
    open spec fn spec_width() -> int {
        8
    }

    open spec fn spec_parse(bytes: Seq<u8>, at: int) -> Self {
        PreSwitchTicketV1RecordContentConsumption {
            content_index: be_u16_at(bytes, at),
            limit_code: be_u16_at(bytes, at + 2),
            limit_value: be_u32_at(bytes, at + 4),
        }
    }

    open spec fn spec_serialize(self) -> Seq<u8> {
        u16_be_bytes(self.content_index) + u16_be_bytes(self.limit_code) + u32_be_bytes(
            self.limit_value,
        )
    }

    proof fn lemma_width(self) {
    }

    proof fn lemma_parse_serialize(self, bytes: Seq<u8>, at: int) {
        let image = self.spec_serialize();
        crate::bytes::lemma_embedded_part(bytes, at, image, 0, 2);
        crate::bytes::lemma_embedded_part(bytes, at, image, 2, 2);
        crate::bytes::lemma_embedded_part(bytes, at, image, 4, 4);
        assert(image.subrange(0, 2) =~= u16_be_bytes(self.content_index));
        assert(image.subrange(2, 4) =~= u16_be_bytes(self.limit_code));
        assert(image.subrange(4, 8) =~= u32_be_bytes(self.limit_value));
        crate::bytes::lemma_be_u16_round_trip(bytes, at, self.content_index);
        crate::bytes::lemma_be_u16_round_trip(bytes, at + 2, self.limit_code);
        crate::bytes::lemma_be_u32_round_trip(bytes, at + 4, self.limit_value);
    }

    fn width() -> (width: u32) {
        8
    }

    fn read(stream: &mut Stream) -> (result: Result<Self, StreamError>) {
        let content_index = match stream.read_u16_be() {
            Ok(content_index) => content_index,
            Err(error) => return Err(error),
        };
        let limit_code = match stream.read_u16_be() {
            Ok(limit_code) => limit_code,
            Err(error) => return Err(error),
        };
        match stream.read_u32_be() {
            Ok(limit_value) => Ok(
                PreSwitchTicketV1RecordContentConsumption { content_index, limit_code, limit_value },
            ),
            Err(error) => Err(error),
        }
    }

    fn write(&self, out: &mut Vec<u8>) {
        let ghost before = out@;
        push_u16_be(out, self.content_index);
        push_u16_be(out, self.limit_code);
        push_u32_be(out, self.limit_value);
        assert(out@ =~= before + self.spec_serialize());
    }
}

impl PreSwitchTicketV1Record for PreSwitchTicketV1RecordAccessTitle {
    open spec fn spec_width() -> int {
        16
    }

    open spec fn spec_parse(bytes: Seq<u8>, at: int) -> Self {
        PreSwitchTicketV1RecordAccessTitle {
            title_id: TitleId(be_u64_at(bytes, at)),
            title_mask: be_u64_at(bytes, at + 8),
        }
    }

    open spec fn spec_serialize(self) -> Seq<u8> {
        u64_be_bytes(self.title_id.0) + u64_be_bytes(self.title_mask)
    }

    proof fn lemma_width(self) {
    }

    proof fn lemma_parse_serialize(self, bytes: Seq<u8>, at: int) {
        let image = self.spec_serialize();
        crate::bytes::lemma_embedded_part(bytes, at, image, 0, 8);
        crate::bytes::lemma_embedded_part(bytes, at, image, 8, 8);
        crate::bytes::lemma_parts_of_concat(
            u64_be_bytes(self.title_id.0),
            u64_be_bytes(self.title_mask),
        );
        crate::bytes::lemma_be_u64_round_trip(bytes, at, self.title_id.0);
        crate::bytes::lemma_be_u64_round_trip(bytes, at + 8, self.title_mask);
    }

    fn width() -> (width: u32) {
        16
    }

    fn read(stream: &mut Stream) -> (result: Result<Self, StreamError>) {
        let title_id = match stream.read_u64_be() {
            Ok(title_id) => TitleId::new(title_id),
            Err(error) => return Err(error),
        };
        match stream.read_u64_be() {
            Ok(title_mask) => Ok(PreSwitchTicketV1RecordAccessTitle { title_id, title_mask }),
            Err(error) => Err(error),
        }
    }

    fn write(&self, out: &mut Vec<u8>) {
        let ghost before = out@;
        push_u64_be(out, self.title_id.inner());
        push_u64_be(out, self.title_mask);
        assert(out@ =~= before + self.spec_serialize());
    }
}

/// Whether `count` records of `width` bytes stand in `len` bytes from `at`
/// on. No records stand anywhere.
pub open spec fn records_fit(len: int, at: int, count: int, width: int) -> bool {
    count == 0 || at + count * width <= len
}

/// The `count` records stored one behind the other from `at` on.
pub open spec fn spec_records<R: PreSwitchTicketV1Record>(
    bytes: Seq<u8>,
    at: int,
    count: int,
) -> Seq<R> {
    Seq::new(count as nat, |i: int| R::spec_parse(bytes, at + i * R::spec_width()))
}

/// The bytes of the first `count` records, one behind the other.
pub open spec fn spec_records_bytes<R: PreSwitchTicketV1Record>(
    records: Seq<R>,
    count: int,
) -> Seq<u8>
    decreases count,
{
    if count <= 0 {
        Seq::empty()
    } else {
        spec_records_bytes(records, count - 1) + records[count - 1].spec_serialize()
    }
}

/// The bytes of `count` records are `count` times the width of a record.
pub proof fn lemma_records_bytes_len<R: PreSwitchTicketV1Record>(records: Seq<R>, count: int)
    requires
        0 <= count <= records.len(),
    ensures
        spec_records_bytes(records, count).len() == count * R::spec_width(),
    decreases count,
{
    if count > 0 {
        lemma_records_bytes_len(records, count - 1);
        records[count - 1].lemma_width();
        let width = R::spec_width();
        let before = spec_records_bytes(records, count - 1);
        let last = records[count - 1].spec_serialize();
        assert(spec_records_bytes(records, count) == before + last);
        assert((before + last).len() == before.len() + last.len());
        assert(before.len() == (count - 1) * width);
        assert(last.len() == width);
        assert(count * width == (count - 1) * width + width) by (nonlinear_arith);
    } else {
        assert(count * R::spec_width() == 0) by (nonlinear_arith)
            requires
                count == 0,
        ;
    }
}

/// Read `count` records, one behind the other.
pub fn read_records<R: PreSwitchTicketV1Record>(stream: &mut Stream, count: u32) -> (result:
    Result<Vec<R>, StreamError>)
    ensures
        final(stream).same_content(old(stream)),
        records_fit(old(stream).size(), old(stream).pos() as int, count as int, R::spec_width())
            ==> {
            &&& result is Ok
            &&& result.unwrap()@ == spec_records::<R>(
                old(stream).bytes(),
                old(stream).pos() as int,
                count as int,
            )
            &&& final(stream).pos() == old(stream).pos() + count * R::spec_width()
        },
        !records_fit(old(stream).size(), old(stream).pos() as int, count as int, R::spec_width())
            ==> result == Err::<Vec<R>, StreamError>(StreamError::UnexpectedEof),
{
    let mut records: Vec<R> = Vec::new();
    let ghost start = stream.pos() as int;
    let ghost width = R::spec_width();
    let w = R::width();
    let mut i: u32 = 0;
    assert(records@ =~= spec_records::<R>(stream.bytes(), start, 0));
    assert(0 * width == 0) by (nonlinear_arith);
    while i < count
        invariant
            i <= count,
            w == width,
            8 <= width <= 132,
            width == R::spec_width(),
            stream.same_content(old(stream)),
            start == old(stream).pos(),
            stream.pos() == start + i * width,
            i > 0 ==> stream.pos() <= stream.size(),
            records@ == spec_records::<R>(old(stream).bytes(), start, i as int),
        decreases count - i,
    {
        assert((i + 1) * width == i * width + width) by (nonlinear_arith);
        let record = match R::read(stream) {
            Ok(record) => record,
            Err(error) => {
                assert(start + (i + 1) * width <= start + count * width) by (nonlinear_arith)
                    requires
                        i + 1 <= count,
                        width >= 0,
                ;
                return Err(error);
            },
        };
        let ghost before = records@;
        records.push(record);
        i += 1;
        assert(records@ =~= spec_records::<R>(old(stream).bytes(), start, i as int));
    }
    Ok(records)
}

/// Append the bytes of all records, one behind the other.
pub fn write_records<R: PreSwitchTicketV1Record>(records: &Vec<R>, out: &mut Vec<u8>)
    ensures
        final(out)@ == old(out)@ + spec_records_bytes(records@, records@.len() as int),
{
    let ghost before = out@;
    let mut i: usize = 0;
    while i < records.len()
        invariant
            i <= records@.len(),
            out@ == before + spec_records_bytes(records@, i as int),
        decreases records@.len() - i,
    {
        records[i].write(out);
        i += 1;
        assert(out@ =~= before + spec_records_bytes(records@, i as int));
    }
}

impl View for PreSwitchTicketV1Records {
    type V = PreSwitchTicketV1RecordsView;

    open spec fn view(&self) -> PreSwitchTicketV1RecordsView {
        match self {
            PreSwitchTicketV1Records::Permanent(data) => PreSwitchTicketV1RecordsView::Permanent(
                data@,
            ),
            PreSwitchTicketV1Records::Subscription(data) => PreSwitchTicketV1RecordsView::Subscription(
                data@,
            ),
            PreSwitchTicketV1Records::Content(data) => PreSwitchTicketV1RecordsView::Content(data@),
            PreSwitchTicketV1Records::ContentConsumption(
                data,
            ) => PreSwitchTicketV1RecordsView::ContentConsumption(data@),
            PreSwitchTicketV1Records::AccessTitle(data) => PreSwitchTicketV1RecordsView::AccessTitle(
                data@,
            ),
        }
    }
}

/// The width of the records of a section of a known kind; none for an
/// unknown kind.
pub open spec fn record_width(kind: u16) -> Option<int> {
    if kind == 1 {
        Some(20)
    } else if kind == 2 {
        Some(24)
    } else if kind == 3 {
        Some(132)
    } else if kind == 4 {
        Some(8)
    } else if kind == 5 {
        Some(16)
    } else {
        None
    }
}

/// The `count` records of a known kind stored from `at` on.
pub open spec fn spec_records_of(kind: u16, bytes: Seq<u8>, at: int, count: int) ->
    PreSwitchTicketV1RecordsView {
    if kind == 1 {
        PreSwitchTicketV1RecordsView::Permanent(spec_records(bytes, at, count))
    } else if kind == 2 {
        PreSwitchTicketV1RecordsView::Subscription(spec_records(bytes, at, count))
    } else if kind == 3 {
        PreSwitchTicketV1RecordsView::Content(spec_records(bytes, at, count))
    } else if kind == 4 {
        PreSwitchTicketV1RecordsView::ContentConsumption(spec_records(bytes, at, count))
    } else {
        PreSwitchTicketV1RecordsView::AccessTitle(spec_records(bytes, at, count))
    }
}

impl PreSwitchTicketV1RecordsView {
    /// The kind that a section with these records is stored under.
    pub open spec fn spec_kind(self) -> u16 {
        match self {
            PreSwitchTicketV1RecordsView::Permanent(_) => 1,
            PreSwitchTicketV1RecordsView::Subscription(_) => 2,
            PreSwitchTicketV1RecordsView::Content(_) => 3,
            PreSwitchTicketV1RecordsView::ContentConsumption(_) => 4,
            PreSwitchTicketV1RecordsView::AccessTitle(_) => 5,
        }
    }

    /// The number of records.
    pub open spec fn spec_len(self) -> int {
        match self {
            PreSwitchTicketV1RecordsView::Permanent(data) => data.len() as int,
            PreSwitchTicketV1RecordsView::Subscription(data) => data.len() as int,
            PreSwitchTicketV1RecordsView::Content(data) => data.len() as int,
            PreSwitchTicketV1RecordsView::ContentConsumption(data) => data.len() as int,
            PreSwitchTicketV1RecordsView::AccessTitle(data) => data.len() as int,
        }
    }

    /// The number of bytes of one record.
    pub open spec fn spec_size_of_one_record(self) -> int {
        match self {
            PreSwitchTicketV1RecordsView::Permanent(_) => 20,
            PreSwitchTicketV1RecordsView::Subscription(_) => 24,
            PreSwitchTicketV1RecordsView::Content(_) => 132,
            PreSwitchTicketV1RecordsView::ContentConsumption(_) => 8,
            PreSwitchTicketV1RecordsView::AccessTitle(_) => 16,
        }
    }

    /// The number of bytes of all records.
    pub open spec fn spec_size(self) -> int {
        self.spec_size_of_one_record() * self.spec_len()
    }

    /// The bytes of all records, one behind the other.
    pub open spec fn spec_serialize(self) -> Seq<u8> {
        match self {
            PreSwitchTicketV1RecordsView::Permanent(data) => spec_records_bytes(
                data,
                data.len() as int,
            ),
            PreSwitchTicketV1RecordsView::Subscription(data) => spec_records_bytes(
                data,
                data.len() as int,
            ),
            PreSwitchTicketV1RecordsView::Content(data) => spec_records_bytes(
                data,
                data.len() as int,
            ),
            PreSwitchTicketV1RecordsView::ContentConsumption(data) => spec_records_bytes(
                data,
                data.len() as int,
            ),
            PreSwitchTicketV1RecordsView::AccessTitle(data) => spec_records_bytes(
                data,
                data.len() as int,
            ),
        }
    }

    /// The bytes of the records are as many as their size says.
    pub proof fn lemma_size(self)
        ensures
            self.spec_serialize().len() == self.spec_size(),
            0 <= self.spec_size(),
            record_width(self.spec_kind()) == Some(self.spec_size_of_one_record()),
    {
        match self {
            PreSwitchTicketV1RecordsView::Permanent(data) => lemma_records_bytes_len(
                data,
                data.len() as int,
            ),
            PreSwitchTicketV1RecordsView::Subscription(data) => lemma_records_bytes_len(
                data,
                data.len() as int,
            ),
            PreSwitchTicketV1RecordsView::Content(data) => lemma_records_bytes_len(
                data,
                data.len() as int,
            ),
            PreSwitchTicketV1RecordsView::ContentConsumption(data) => lemma_records_bytes_len(
                data,
                data.len() as int,
            ),
            PreSwitchTicketV1RecordsView::AccessTitle(data) => lemma_records_bytes_len(
                data,
                data.len() as int,
            ),
        }
        assert(0 <= self.spec_size_of_one_record() * self.spec_len()) by (nonlinear_arith)
            requires
                0 <= self.spec_size_of_one_record(),
                0 <= self.spec_len(),
        ;
    }
}

impl PreSwitchTicketV1Records {
    /// The number of bytes of all records.
    pub fn size(&self) -> (size: u32)
        requires
            self@.spec_size() <= u32::MAX,
        ensures
            size == self@.spec_size(),
    {
        proof {
            assert(self@.spec_len() <= self@.spec_size()) by (nonlinear_arith)
                requires
                    self@.spec_size() == self@.spec_size_of_one_record() * self@.spec_len(),
                    self@.spec_size_of_one_record() >= 1,
                    self@.spec_len() >= 0,
            ;
        }
        self.size_of_one_record() * self.len()
    }

    /// The number of bytes of one record.
    pub fn size_of_one_record(&self) -> (size: u32)
        ensures
            size == self@.spec_size_of_one_record(),
            8 <= size <= 132,
    {
        match self {
            PreSwitchTicketV1Records::Permanent(_) => 16 + 4,
            PreSwitchTicketV1Records::Subscription(_) => 16 + 4 + 4,
            PreSwitchTicketV1Records::Content(_) => 128 + 4,
            PreSwitchTicketV1Records::ContentConsumption(_) => 2 + 2 + 4,
            PreSwitchTicketV1Records::AccessTitle(_) => 8 + 8,
        }
    }

    /// The number of records.
    pub fn len(&self) -> (len: u32)
        requires
            self@.spec_len() <= u32::MAX,
        ensures
            len == self@.spec_len(),
    {
        (match self {
            PreSwitchTicketV1Records::Permanent(data) => data.len(),
            PreSwitchTicketV1Records::Subscription(data) => data.len(),
            PreSwitchTicketV1Records::Content(data) => data.len(),
            PreSwitchTicketV1Records::ContentConsumption(data) => data.len(),
            PreSwitchTicketV1Records::AccessTitle(data) => data.len(),
        }) as u32
    }

    /// The number of bytes of all records, or `u64::MAX` where that is less.
    pub fn size_saturating(&self) -> (size: u64)
        ensures
            size == if self@.spec_size() <= u64::MAX {
                self@.spec_size()
            } else {
                u64::MAX as int
            },
    {
        let count = match self {
            PreSwitchTicketV1Records::Permanent(data) => data.len(),
            PreSwitchTicketV1Records::Subscription(data) => data.len(),
            PreSwitchTicketV1Records::Content(data) => data.len(),
            PreSwitchTicketV1Records::ContentConsumption(data) => data.len(),
            PreSwitchTicketV1Records::AccessTitle(data) => data.len(),
        };
        let width = self.size_of_one_record() as u64;
        assert(self@.spec_len() == count);
        if count as u64 > u64::MAX / width {
            assert(width * count > u64::MAX) by (nonlinear_arith)
                requires
                    count > u64::MAX / width,
                    width > 0,
            ;
            u64::MAX
        } else {
            assert(width * count <= u64::MAX) by (nonlinear_arith)
                requires
                    count <= u64::MAX / width,
                    width > 0,
            ;
            width * (count as u64)
        }
    }

    /// Append the bytes of all records.
    pub fn dump(&self, out: &mut Vec<u8>)
        ensures
            final(out)@ == old(out)@ + self@.spec_serialize(),
    {
        match self {
            PreSwitchTicketV1Records::Permanent(data) => write_records(data, out),
            PreSwitchTicketV1Records::Subscription(data) => write_records(data, out),
            PreSwitchTicketV1Records::Content(data) => write_records(data, out),
            PreSwitchTicketV1Records::ContentConsumption(data) => write_records(data, out),
            PreSwitchTicketV1Records::AccessTitle(data) => write_records(data, out),
        }
    }
}

impl View for PreSwitchTicketV1Section {
    type V = PreSwitchTicketV1SectionView;

    open spec fn view(&self) -> PreSwitchTicketV1SectionView {
        PreSwitchTicketV1SectionView { records: self.records@, flags: self.flags }
    }
}

/// What the sections of an extension hold, in their order.
pub open spec fn section_views(sections: Seq<PreSwitchTicketV1Section>) -> Seq<
    PreSwitchTicketV1SectionView,
> {
    Seq::new(sections.len(), |i: int| sections[i]@)
}

/// The section whose header stands at `at`, with its records, which stand
/// at the offset from `pin` that the header gives.
pub open spec fn spec_parse_section(bytes: Seq<u8>, pin: int, at: int) -> Result<
    PreSwitchTicketV1SectionView,
    PreSwitchTicketV1Error,
> {
    if at + 20 > bytes.len() {
        Err(PreSwitchTicketV1Error::IoError(StreamError::UnexpectedEof))
    } else {
        let offset = be_u32_at(bytes, at);
        let count = be_u32_at(bytes, at + 4);
        let kind = be_u16_at(bytes, at + 16);
        let flags = be_u16_at(bytes, at + 18);
        match record_width(kind) {
            None => Err(PreSwitchTicketV1Error::UnknownTicketV1SectionKind(kind)),
            Some(width) => {
                if !records_fit(bytes.len() as int, pin + offset, count as int, width) {
                    Err(PreSwitchTicketV1Error::IoError(StreamError::UnexpectedEof))
                } else {
                    Ok(
                        PreSwitchTicketV1SectionView {
                            records: spec_records_of(kind, bytes, pin + offset, count as int),
                            flags,
                        },
                    )
                }
            },
        }
    }
}

/// The `remaining` sections whose headers stand one behind the other from
/// `at` on, behind the sections `read` that were read before.
pub open spec fn spec_parse_sections(
    bytes: Seq<u8>,
    pin: int,
    at: int,
    remaining: nat,
    read: Seq<PreSwitchTicketV1SectionView>,
) -> Result<Seq<PreSwitchTicketV1SectionView>, PreSwitchTicketV1Error>
    decreases remaining,
{
    if remaining == 0 {
        Ok(read)
    } else {
        match spec_parse_section(bytes, pin, at) {
            Err(error) => Err(error),
            Ok(section) => spec_parse_sections(
                bytes,
                pin,
                at + 20,
                (remaining - 1) as nat,
                read.push(section),
            ),
        }
    }
}

/// The sizes of the records of the first `count` sections, added up.
pub open spec fn spec_records_total(sections: Seq<PreSwitchTicketV1SectionView>, count: int) -> int
    decreases count,
{
    if count <= 0 {
        0
    } else {
        spec_records_total(sections, count - 1) + sections[count - 1].records.spec_size()
    }
}

/// The records of the first `count` sections, one section behind the other.
pub open spec fn spec_all_records(sections: Seq<PreSwitchTicketV1SectionView>, count: int) -> Seq<
    u8,
>
    decreases count,
{
    if count <= 0 {
        Seq::empty()
    } else {
        spec_all_records(sections, count - 1) + sections[count - 1].records.spec_serialize()
    }
}

/// The header of the section at `index`: where its records stand, how many
/// they are and how wide, the size of the header, the kind and the flags.
pub open spec fn spec_section_header(
    sections: Seq<PreSwitchTicketV1SectionView>,
    index: int,
) -> Seq<u8> {
    let section = sections[index];
    u32_be_bytes((HEADER_SIZE + spec_records_total(sections, index)) as u32) + u32_be_bytes(
        section.records.spec_len() as u32,
    ) + u32_be_bytes(section.records.spec_size_of_one_record() as u32) + u32_be_bytes(
        SECTION_HEADER_SIZE as u32,
    ) + u16_be_bytes(section.records.spec_kind()) + u16_be_bytes(section.flags)
}

/// The headers of the first `count` sections, one behind the other.
pub open spec fn spec_section_headers(
    sections: Seq<PreSwitchTicketV1SectionView>,
    count: int,
) -> Seq<u8>
    decreases count,
{
    if count <= 0 {
        Seq::empty()
    } else {
        spec_section_headers(sections, count - 1) + spec_section_header(sections, count - 1)
    }
}

impl PreSwitchTicketV1View {
    /// The size of the extension in bytes: its header, the headers of its
    /// sections and all records.
    pub open spec fn spec_size(self) -> int {
        HEADER_SIZE + SECTION_HEADER_SIZE * self.sections.len() + spec_records_total(
            self.sections,
            self.sections.len() as int,
        )
    }

    /// The offset of the first section header: behind the header and all
    /// records.
    pub open spec fn spec_first_section_offset(self) -> int {
        HEADER_SIZE + spec_records_total(self.sections, self.sections.len() as int)
    }

    /// The numbers that the extension stores fit their fields: no more than
    /// 65535 sections, and a size that fits 32 bits.
    pub open spec fn wf(self) -> bool {
        &&& self.sections.len() <= 0xFFFF
        &&& self.spec_size() <= u32::MAX
    }

    /// The header of the extension.
    pub open spec fn spec_header(self) -> Seq<u8> {
        u16_be_bytes(1) + u16_be_bytes(HEADER_SIZE) + u32_be_bytes(self.spec_size() as u32)
            + u32_be_bytes(self.spec_first_section_offset() as u32) + u16_be_bytes(
            self.sections.len() as u16,
        ) + u16_be_bytes(SECTION_HEADER_SIZE) + u32_be_bytes(self.flags)
    }

    /// The bytes of the extension: its header, all records, and the headers
    /// of the sections.
    pub open spec fn spec_serialize(self) -> Seq<u8> {
        self.spec_header() + spec_all_records(self.sections, self.sections.len() as int)
            + spec_section_headers(self.sections, self.sections.len() as int)
    }

    /// The extension that stands at `pin` in `bytes` and the position behind
    /// the headers of its sections, or why there is none.
    pub open spec fn spec_parse(bytes: Seq<u8>, pin: int) -> Result<
        (PreSwitchTicketV1View, int),
        PreSwitchTicketV1Error,
    > {
        if pin + 2 > bytes.len() {
            Err(PreSwitchTicketV1Error::IoError(StreamError::UnexpectedEof))
        } else if be_u16_at(bytes, pin) != 1 {
            Err(PreSwitchTicketV1Error::UnknownTicketV1Version(be_u16_at(bytes, pin)))
        } else if pin + 4 > bytes.len() {
            Err(PreSwitchTicketV1Error::IoError(StreamError::UnexpectedEof))
        } else if be_u16_at(bytes, pin + 2) != HEADER_SIZE {
            Err(PreSwitchTicketV1Error::UnknownTicketV1HeaderSize(be_u16_at(bytes, pin + 2)))
        } else if pin + 16 > bytes.len() {
            Err(PreSwitchTicketV1Error::IoError(StreamError::UnexpectedEof))
        } else if be_u16_at(bytes, pin + 14) != SECTION_HEADER_SIZE {
            Err(
                PreSwitchTicketV1Error::UnknownTicketV1SectionHeaderSize(
                    be_u16_at(bytes, pin + 14),
                ),
            )
        } else if pin + 20 > bytes.len() {
            Err(PreSwitchTicketV1Error::IoError(StreamError::UnexpectedEof))
        } else {
            let first = be_u32_at(bytes, pin + 8);
            let count = be_u16_at(bytes, pin + 12);
            match spec_parse_sections(bytes, pin, pin + first, count as nat, Seq::empty()) {
                Err(error) => Err(error),
                Ok(sections) => {
                    let extension = PreSwitchTicketV1View {
                        sections,
                        flags: be_u32_at(bytes, pin + 16),
                    };
                    if be_u32_at(bytes, pin + 4) != extension.spec_size() {
                        Err(
                            PreSwitchTicketV1Error::UnknownTicketV1TotalSize(
                                be_u32_at(bytes, pin + 4),
                            ),
                        )
                    } else {
                        Ok((extension, pin + first + SECTION_HEADER_SIZE * count))
                    }
                },
            }
        }
    }
}

/// As many sections are read as were asked for, behind those that were read
/// before.
pub proof fn lemma_sections_parsed(
    bytes: Seq<u8>,
    pin: int,
    at: int,
    remaining: nat,
    read: Seq<PreSwitchTicketV1SectionView>,
)
    requires
        spec_parse_sections(bytes, pin, at, remaining, read) is Ok,
    ensures
        spec_parse_sections(bytes, pin, at, remaining, read).unwrap().len() == read.len()
            + remaining,
    decreases remaining,
{
    if remaining > 0 {
        let section = spec_parse_section(bytes, pin, at).unwrap();
        lemma_sections_parsed(bytes, pin, at + 20, (remaining - 1) as nat, read.push(section));
    }
}

impl PreSwitchTicketV1View {
    /// An extension that was read is well formed.
    pub proof fn lemma_parsed_is_well_formed(bytes: Seq<u8>, pin: int)
        requires
            Self::spec_parse(bytes, pin) is Ok,
        ensures
            Self::spec_parse(bytes, pin).unwrap().0.wf(),
    {
        let first = be_u32_at(bytes, pin + 8);
        let count = be_u16_at(bytes, pin + 12);
        lemma_sections_parsed(bytes, pin, pin + first, count as nat, Seq::empty());
    }
}

/// The sizes of records add up to no less than nothing, and more sections
/// do not have less.
pub proof fn lemma_records_total(sections: Seq<PreSwitchTicketV1SectionView>, count: int)
    requires
        0 <= count <= sections.len(),
    ensures
        0 <= spec_records_total(sections, count),
        spec_records_total(sections, count) <= spec_records_total(
            sections,
            sections.len() as int,
        ),
        spec_all_records(sections, count).len() == spec_records_total(sections, count),
        spec_section_headers(sections, count).len() == 20 * count,
    decreases sections.len() - count,
{
    lemma_records_total_up_to(sections, count);
    if count < sections.len() {
        lemma_records_total(sections, count + 1);
        sections[count].records.lemma_size();
    }
}

proof fn lemma_records_total_up_to(sections: Seq<PreSwitchTicketV1SectionView>, count: int)
    requires
        0 <= count <= sections.len(),
    ensures
        0 <= spec_records_total(sections, count),
        spec_all_records(sections, count).len() == spec_records_total(sections, count),
        spec_section_headers(sections, count).len() == 20 * count,
    decreases count,
{
    if count > 0 {
        lemma_records_total_up_to(sections, count - 1);
        sections[count - 1].records.lemma_size();
        let records = spec_all_records(sections, count - 1);
        let last = sections[count - 1].records.spec_serialize();
        assert(spec_all_records(sections, count) == records + last);
        assert((records + last).len() == records.len() + last.len());
        let headers = spec_section_headers(sections, count - 1);
        let header = spec_section_header(sections, count - 1);
        assert(spec_section_headers(sections, count) == headers + header);
        assert(header.len() == 20);
        assert((headers + header).len() == headers.len() + header.len());
    }
}

impl PreSwitchTicketV1Section {
    /// Read the section whose header stands at the position of the stream,
    /// and its records, which stand at the offset from `pin` that the header
    /// gives. The stream is left behind the header.
    pub fn new(stream: &mut Stream, pin: u64) -> (result: Result<Self, PreSwitchTicketV1Error>)
        requires
            old(stream).wf(),
            pin <= old(stream).size(),
        ensures
            final(stream).same_content(old(stream)),
            match spec_parse_section(old(stream).bytes(), pin as int, old(stream).pos() as int) {
                Ok(section) => {
                    &&& result is Ok
                    &&& result.unwrap()@ == section
                    &&& final(stream).pos() == old(stream).pos() + 20
                },
                Err(error) => result == Err::<Self, PreSwitchTicketV1Error>(error),
            },
    {
        let section_records_offset = match stream.read_u32_be() {
            Ok(value) => value,
            Err(error) => return Err(PreSwitchTicketV1Error::IoError(error)),
        };
        let number_of_records = match stream.read_u32_be() {
            Ok(value) => value,
            Err(error) => return Err(PreSwitchTicketV1Error::IoError(error)),
        };
        // The size of a record and the size of the section header are not
        // looked at.
        match stream.skip(8) {
            Ok(()) => {},
            Err(error) => return Err(PreSwitchTicketV1Error::IoError(error)),
        }
        let section_kind = match stream.read_u16_be() {
            Ok(value) => value,
            Err(error) => return Err(PreSwitchTicketV1Error::IoError(error)),
        };
        let flags = match stream.read_u16_be() {
            Ok(value) => value,
            Err(error) => return Err(PreSwitchTicketV1Error::IoError(error)),
        };
        let next_section_position = stream.stream_position();
        if section_kind < 1 || section_kind > 5 {
            return Err(PreSwitchTicketV1Error::UnknownTicketV1SectionKind(section_kind));
        }
        stream.seek_to(pin + section_records_offset as u64);
        let records = if section_kind == 1 {
            match read_records::<PreSwitchTicketV1RecordPermanent>(stream, number_of_records) {
                Ok(data) => PreSwitchTicketV1Records::Permanent(data),
                Err(error) => return Err(PreSwitchTicketV1Error::IoError(error)),
            }
        } else if section_kind == 2 {
            match read_records::<PreSwitchTicketV1RecordSubscription>(stream, number_of_records) {
                Ok(data) => PreSwitchTicketV1Records::Subscription(data),
                Err(error) => return Err(PreSwitchTicketV1Error::IoError(error)),
            }
        } else if section_kind == 3 {
            match read_records::<PreSwitchTicketV1RecordContent>(stream, number_of_records) {
                Ok(data) => PreSwitchTicketV1Records::Content(data),
                Err(error) => return Err(PreSwitchTicketV1Error::IoError(error)),
            }
        } else if section_kind == 4 {
            match read_records::<PreSwitchTicketV1RecordContentConsumption>(
                stream,
                number_of_records,
            ) {
                Ok(data) => PreSwitchTicketV1Records::ContentConsumption(data),
                Err(error) => return Err(PreSwitchTicketV1Error::IoError(error)),
            }
        } else {
            match read_records::<PreSwitchTicketV1RecordAccessTitle>(stream, number_of_records) {
                Ok(data) => PreSwitchTicketV1Records::AccessTitle(data),
                Err(error) => return Err(PreSwitchTicketV1Error::IoError(error)),
            }
        };
        stream.seek_to(next_section_position);
        Ok(PreSwitchTicketV1Section { records, flags })
    }

    /// Append the header of the section, whose records stand at `offset`.
    fn dump_header(&self, out: &mut Vec<u8>, offset: u32)
        requires
            self@.records.spec_len() <= u32::MAX,
        ensures
            final(out)@ == old(out)@ + u32_be_bytes(offset) + u32_be_bytes(
                self@.records.spec_len() as u32,
            ) + u32_be_bytes(self@.records.spec_size_of_one_record() as u32) + u32_be_bytes(
                SECTION_HEADER_SIZE as u32,
            ) + u16_be_bytes(self@.records.spec_kind()) + u16_be_bytes(self.flags),
    {
        push_u32_be(out, offset);
        push_u32_be(out, self.records.len());
        push_u32_be(out, self.records.size_of_one_record());
        push_u32_be(out, SECTION_HEADER_SIZE as u32);
        push_u16_be(
            out,
            match self.records {
                PreSwitchTicketV1Records::Permanent(_) => 1,
                PreSwitchTicketV1Records::Subscription(_) => 2,
                PreSwitchTicketV1Records::Content(_) => 3,
                PreSwitchTicketV1Records::ContentConsumption(_) => 4,
                PreSwitchTicketV1Records::AccessTitle(_) => 5,
            },
        );
        push_u16_be(out, self.flags);
    }
}

impl View for PreSwitchTicketV1 {
    type V = PreSwitchTicketV1View;

    open spec fn view(&self) -> PreSwitchTicketV1View {
        PreSwitchTicketV1View { sections: section_views(self.sections@), flags: self.flags }
    }
}

impl PreSwitchTicketV1 {
    /// The numbers that the extension stores fit their fields.
    pub open spec fn wf(&self) -> bool {
        self@.wf()
    }

    /// The sizes of the records of all sections, added up; `None` where a
    /// section has more bytes of records than 32 bits count.
    fn records_total(&self) -> (total: Option<u64>)
        requires
            self@.sections.len() <= 0xFFFF,
        ensures
            match total {
                Some(total) => total == spec_records_total(self@.sections, self@.sections.len() as int)
                    && total <= 0xFFFF_FFFF * self@.sections.len(),
                None => spec_records_total(self@.sections, self@.sections.len() as int) > u32::MAX,
            },
    {
        let mut total: u64 = 0;
        let mut i: usize = 0;
        while i < self.sections.len()
            invariant
                i <= self.sections@.len(),
                self@.sections.len() == self.sections@.len(),
                self@.sections.len() <= 0xFFFF,
                total == spec_records_total(self@.sections, i as int),
                total <= 0xFFFF_FFFF * i,
            decreases self.sections@.len() - i,
        {
            assert(self@.sections[i as int] == self.sections@[i as int]@);
            let size = self.sections[i].records.size_saturating();
            if size > 0xFFFF_FFFF {
                proof {
                    lemma_records_total(self@.sections, i as int + 1);
                }
                return None;
            }
            total = total + size;
            i += 1;
        }
        Some(total)
    }

    /// Whether the extension is well formed, so that it can be written.
    pub fn is_well_formed(&self) -> (well_formed: bool)
        ensures
            well_formed == self.wf(),
    {
        if self.sections.len() > 0xFFFF {
            return false;
        }
        match self.records_total() {
            Some(total) => HEADER_SIZE as u64 + SECTION_HEADER_SIZE as u64
                * self.sections.len() as u64 + total <= u32::MAX as u64,
            None => {
                proof {
                    lemma_records_total(self@.sections, 0);
                }
                false
            },
        }
    }

    /// Read the extension of a V1 ticket: its header, and the sections
    /// whose headers stand at the offset that the header gives. The size
    /// that the header states has to be the size of what was read.
    #[verifier::loop_isolation(false)]
    pub fn new(stream: &mut Stream) -> (result: Result<Self, PreSwitchTicketV1Error>)
        requires
            old(stream).wf(),
        ensures
            final(stream).same_content(old(stream)),
            match PreSwitchTicketV1View::spec_parse(old(stream).bytes(), old(stream).pos() as int) {
                Ok((extension, end)) => {
                    &&& result is Ok
                    &&& result.unwrap()@ == extension
                    &&& final(stream).pos() == end
                },
                Err(error) => result == Err::<Self, PreSwitchTicketV1Error>(error),
            },
    {
        let pin = stream.stream_position();
        let version = match stream.read_u16_be() {
            Ok(value) => value,
            Err(error) => return Err(PreSwitchTicketV1Error::IoError(error)),
        };
        if version != 1 {
            return Err(PreSwitchTicketV1Error::UnknownTicketV1Version(version));
        }
        let header_size = match stream.read_u16_be() {
            Ok(value) => value,
            Err(error) => return Err(PreSwitchTicketV1Error::IoError(error)),
        };
        if header_size != HEADER_SIZE {
            return Err(PreSwitchTicketV1Error::UnknownTicketV1HeaderSize(header_size));
        }
        let v1_data_size = match stream.read_u32_be() {
            Ok(value) => value,
            Err(error) => return Err(PreSwitchTicketV1Error::IoError(error)),
        };
        let first_section_header_offset = match stream.read_u32_be() {
            Ok(value) => value,
            Err(error) => return Err(PreSwitchTicketV1Error::IoError(error)),
        };
        let number_of_sections = match stream.read_u16_be() {
            Ok(value) => value,
            Err(error) => return Err(PreSwitchTicketV1Error::IoError(error)),
        };
        let section_header_size = match stream.read_u16_be() {
            Ok(value) => value,
            Err(error) => return Err(PreSwitchTicketV1Error::IoError(error)),
        };
        if section_header_size != SECTION_HEADER_SIZE {
            return Err(
                PreSwitchTicketV1Error::UnknownTicketV1SectionHeaderSize(section_header_size),
            );
        }
        let flags = match stream.read_u32_be() {
            Ok(value) => value,
            Err(error) => return Err(PreSwitchTicketV1Error::IoError(error)),
        };
        let mut sections: Vec<PreSwitchTicketV1Section> = Vec::new();
        stream.seek_to(pin + first_section_header_offset as u64);
        let ghost first = stream.pos() as int;
        let mut i: u16 = 0;
        assert(section_views(sections@) =~= Seq::empty());
        while i < number_of_sections
            invariant
                i <= number_of_sections,
                stream.wf(),
                stream.same_content(old(stream)),
                pin == old(stream).pos(),
                pin + 20 <= stream.size(),
                first == pin + first_section_header_offset,
                stream.pos() == first + 20 * i,
                sections@.len() == i,
                spec_parse_sections(
                    old(stream).bytes(),
                    pin as int,
                    first,
                    number_of_sections as nat,
                    Seq::empty(),
                ) == spec_parse_sections(
                    old(stream).bytes(),
                    pin as int,
                    stream.pos() as int,
                    (number_of_sections - i) as nat,
                    section_views(sections@),
                ),
            decreases number_of_sections - i,
        {
            let ghost before = section_views(sections@);
            let ghost at = stream.pos() as int;
            assert(spec_parse_sections(
                old(stream).bytes(),
                pin as int,
                at,
                (number_of_sections - i) as nat,
                before,
            ) == match spec_parse_section(old(stream).bytes(), pin as int, at) {
                Err(error) => Err::<Seq<PreSwitchTicketV1SectionView>, PreSwitchTicketV1Error>(
                    error,
                ),
                Ok(section) => spec_parse_sections(
                    old(stream).bytes(),
                    pin as int,
                    at + 20,
                    (number_of_sections - i - 1) as nat,
                    before.push(section),
                ),
            });
            let section = match PreSwitchTicketV1Section::new(stream, pin) {
                Ok(section) => section,
                Err(error) => return Err(error),
            };
            sections.push(section);
            assert(section_views(sections@) =~= before.push(section@));
            i += 1;
        }
        let v1 = PreSwitchTicketV1 { sections, flags };
        let matches = match v1.records_total() {
            Some(total) => {
                HEADER_SIZE as u64 + SECTION_HEADER_SIZE as u64 * v1.sections.len() as u64 + total
                    == v1_data_size as u64
            },
            None => {
                proof {
                    assert(v1@.spec_size() > u32::MAX);
                }
                false
            },
        };
        if !matches {
            return Err(PreSwitchTicketV1Error::UnknownTicketV1TotalSize(v1_data_size));
        }
        Ok(v1)
    }

    /// Append the bytes of the extension.
    #[verifier::rlimit(50)]
    pub fn serialize_into(&self, out: &mut Vec<u8>)
        requires
            self.wf(),
        ensures
            final(out)@ == old(out)@ + self@.spec_serialize(),
            self@.spec_serialize().len() == self@.spec_size(),
    {
        let ghost before = out@;
        let ghost sections = self@.sections;
        let count = self.sections.len();
        proof {
            lemma_records_total(sections, count as int);
        }
        let total = match self.records_total() {
            Some(total) => total,
            None => 0,
        };
        push_u16_be(out, 1);
        push_u16_be(out, HEADER_SIZE);
        push_u32_be(out, (HEADER_SIZE as u64 + SECTION_HEADER_SIZE as u64 * count as u64 + total) as u32);
        push_u32_be(out, (HEADER_SIZE as u64 + total) as u32);
        push_u16_be(out, count as u16);
        push_u16_be(out, SECTION_HEADER_SIZE);
        push_u32_be(out, self.flags);
        assert(out@ =~= before + self@.spec_header());
        let ghost with_header = out@;
        let mut i: usize = 0;
        while i < count
            invariant
                i <= count,
                count == self.sections@.len(),
                sections == self@.sections,
                sections.len() == count,
                out@ == with_header + spec_all_records(sections, i as int),
            decreases count - i,
        {
            assert(sections[i as int] == self.sections@[i as int]@);
            self.sections[i].records.dump(out);
            i += 1;
            assert(out@ =~= with_header + spec_all_records(sections, i as int));
        }
        let ghost with_records = out@;
        let mut offset: u64 = HEADER_SIZE as u64;
        let mut i: usize = 0;
        while i < count
            invariant
                i <= count,
                count == self.sections@.len(),
                sections == self@.sections,
                sections.len() == count,
                self.wf(),
                offset == HEADER_SIZE + spec_records_total(sections, i as int),
                out@ == with_records + spec_section_headers(sections, i as int),
            decreases count - i,
        {
            assert(sections[i as int] == self.sections@[i as int]@);
            proof {
                lemma_records_total(sections, i as int);
                lemma_records_total(sections, i as int + 1);
                sections[i as int].records.lemma_size();
                assert(sections[i as int].records.spec_len()
                    <= sections[i as int].records.spec_size()) by (nonlinear_arith)
                    requires
                        sections[i as int].records.spec_size()
                            == sections[i as int].records.spec_size_of_one_record()
                            * sections[i as int].records.spec_len(),
                        sections[i as int].records.spec_size_of_one_record() >= 1,
                        sections[i as int].records.spec_len() >= 0,
                ;
            }
            let ghost previous = out@;
            self.sections[i].dump_header(out, offset as u32);
            assert(out@ =~= previous + spec_section_header(sections, i as int));
            offset = offset + self.sections[i].records.size() as u64;
            i += 1;
            assert(out@ =~= with_records + spec_section_headers(sections, i as int));
        }
        assert(out@ =~= before + self@.spec_serialize());
    }

    /// Write the extension at the position of the stream.
    pub fn dump(&self, stream: &mut Stream) -> (result: Result<(), StreamError>)
        requires
            old(stream).wf(),
            self.wf(),
        ensures
            final(stream).wf(),
            crate::extensions::wrote_all(
                *old(stream),
                *final(stream),
                self@.spec_serialize(),
                result,
            ),
    {
        let mut bytes: Vec<u8> = Vec::new();
        self.serialize_into(&mut bytes);
        assert(bytes@ =~= self@.spec_serialize());
        stream.write_all(bytes.as_slice())
    }

    /// Get the size of the extension in bytes.
    pub fn size(&self) -> (size: u32)
        requires
            self.wf(),
        ensures
            size == self@.spec_size(),
    {
        let total = match self.records_total() {
            Some(total) => total,
            None => {
                proof {
                    lemma_records_total(self@.sections, 0);
                }
                0
            },
        };
        (HEADER_SIZE as u64 + SECTION_HEADER_SIZE as u64 * self.sections.len() as u64 + total) as u32
    }
}

/// The bytes of the first records stand first in the bytes of more of
/// them.
pub proof fn lemma_records_prefix<R: PreSwitchTicketV1Record>(
    records: Seq<R>,
    count: int,
    total: int,
)
    requires
        0 <= count <= total <= records.len(),
    ensures
        count * R::spec_width() <= total * R::spec_width(),
        spec_records_bytes(records, count) == spec_records_bytes(records, total).subrange(
            0,
            count * R::spec_width(),
        ),
    decreases total - count,
{
    let width = R::spec_width();
    lemma_records_bytes_len(records, count);
    lemma_records_bytes_len(records, total);
    if total > 0 {
        records[0].lemma_width();
        assert(count * width <= total * width) by (nonlinear_arith)
            requires
                0 <= count <= total,
                width >= 0,
        ;
    } else {
        assert(count * width == 0 && total * width == 0) by (nonlinear_arith)
            requires
                count == 0,
                total == 0,
        ;
    }
    if count == total {
        assert(spec_records_bytes(records, total).subrange(0, count * width)
            =~= spec_records_bytes(records, count));
    } else {
        lemma_records_prefix(records, count, total - 1);
        lemma_records_bytes_len(records, total - 1);
        assert(spec_records_bytes(records, total).subrange(0, count * width)
            =~= spec_records_bytes(records, total - 1).subrange(0, count * width));
    }
}

/// Records are read back from their bytes, wherever they stand.
pub proof fn lemma_records_parse_serialize<R: PreSwitchTicketV1Record>(
    records: Seq<R>,
    bytes: Seq<u8>,
    at: int,
)
    requires
        0 <= at,
        at + records.len() * R::spec_width() <= bytes.len(),
        bytes.subrange(at, at + records.len() * R::spec_width()) == spec_records_bytes(
            records,
            records.len() as int,
        ),
    ensures
        spec_records::<R>(bytes, at, records.len() as int) == records,
{
    let width = R::spec_width();
    let total = records.len() as int;
    let whole = spec_records_bytes(records, total);
    let parsed = spec_records::<R>(bytes, at, total);
    lemma_records_bytes_len(records, total);
    assert forall|i: int| 0 <= i < total implies #[trigger] parsed[i] == records[i] by {
        records[i].lemma_width();
        lemma_records_prefix(records, i + 1, total);
        lemma_records_bytes_len(records, i);
        lemma_records_bytes_len(records, i + 1);
        let upto = spec_records_bytes(records, i + 1);
        let before = spec_records_bytes(records, i);
        assert(upto == before + records[i].spec_serialize());
        crate::bytes::lemma_parts_of_concat(before, records[i].spec_serialize());
        assert((i + 1) * width == i * width + width) by (nonlinear_arith);
        assert(i * width >= 0) by (nonlinear_arith)
            requires
                i >= 0,
                width >= 0,
        ;
        crate::bytes::lemma_subrange_of_subrange(whole, 0, (i + 1) * width, i * width, width);
        crate::bytes::lemma_embedded_part(bytes, at, whole, i * width, width);
        records[i].lemma_parse_serialize(bytes, at + i * width);
    }
    assert(parsed =~= records);
}

impl PreSwitchTicketV1RecordsView {
    /// The records of a section are read back from their bytes, wherever
    /// they stand.
    pub proof fn lemma_parse_serialize(self, bytes: Seq<u8>, at: int)
        requires
            0 <= at,
            at + self.spec_size() <= bytes.len(),
            bytes.subrange(at, at + self.spec_size()) == self.spec_serialize(),
        ensures
            spec_records_of(self.spec_kind(), bytes, at, self.spec_len()) == self,
            records_fit(bytes.len() as int, at, self.spec_len(), self.spec_size_of_one_record()),
    {
        self.lemma_size();
        match self {
            PreSwitchTicketV1RecordsView::Permanent(data) => {
                assert(data.len() * 20 == 20 * data.len());
                lemma_records_parse_serialize(data, bytes, at);
            },
            PreSwitchTicketV1RecordsView::Subscription(data) => {
                assert(data.len() * 24 == 24 * data.len());
                lemma_records_parse_serialize(data, bytes, at);
            },
            PreSwitchTicketV1RecordsView::Content(data) => {
                assert(data.len() * 132 == 132 * data.len());
                lemma_records_parse_serialize(data, bytes, at);
            },
            PreSwitchTicketV1RecordsView::ContentConsumption(data) => {
                assert(data.len() * 8 == 8 * data.len());
                lemma_records_parse_serialize(data, bytes, at);
            },
            PreSwitchTicketV1RecordsView::AccessTitle(data) => {
                assert(data.len() * 16 == 16 * data.len());
                lemma_records_parse_serialize(data, bytes, at);
            },
        }
    }
}

/// The records of one of several sections stand in the records of all of
/// them behind those of the sections before it, and its header stands in
/// the headers of all of them behind those of the sections before it.
pub proof fn lemma_section_in_sections(
    sections: Seq<PreSwitchTicketV1SectionView>,
    index: int,
    total: int,
)
    requires
        0 <= index < total <= sections.len(),
    ensures
        spec_records_total(sections, index) + sections[index].records.spec_size()
            <= spec_records_total(sections, total),
        spec_all_records(sections, total).subrange(
            spec_records_total(sections, index),
            spec_records_total(sections, index) + sections[index].records.spec_size(),
        ) == sections[index].records.spec_serialize(),
        spec_section_headers(sections, total).subrange(20 * index, 20 * index + 20)
            == spec_section_header(sections, index),
    decreases total - index,
{
    lemma_records_total_up_to(sections, total);
    lemma_records_total_up_to(sections, total - 1);
    lemma_records_total_up_to(sections, index);
    sections[total - 1].records.lemma_size();
    sections[index].records.lemma_size();
    let records = spec_all_records(sections, total - 1);
    let last = sections[total - 1].records.spec_serialize();
    let headers = spec_section_headers(sections, total - 1);
    let header = spec_section_header(sections, total - 1);
    assert(spec_all_records(sections, total) == records + last);
    assert(spec_section_headers(sections, total) == headers + header);
    crate::bytes::lemma_parts_of_concat(records, last);
    crate::bytes::lemma_parts_of_concat(headers, header);
    if index == total - 1 {
    } else {
        lemma_section_in_sections(sections, index, total - 1);
        let from = spec_records_total(sections, index);
        let size = sections[index].records.spec_size();
        assert(spec_all_records(sections, total).subrange(from, from + size)
            =~= records.subrange(from, from + size));
        assert(spec_section_headers(sections, total).subrange(20 * index, 20 * index + 20)
            =~= headers.subrange(20 * index, 20 * index + 20));
    }
}

/// The numbers of a section header are read back from its 20 bytes.
pub proof fn lemma_section_header_numbers(
    bytes: Seq<u8>,
    at: int,
    offset: u32,
    count: u32,
    width: u32,
    kind: u16,
    flags: u16,
)
    requires
        0 <= at,
        at + 20 <= bytes.len(),
        bytes.subrange(at, at + 20) == u32_be_bytes(offset) + u32_be_bytes(count) + u32_be_bytes(
            width,
        ) + u32_be_bytes(SECTION_HEADER_SIZE as u32) + u16_be_bytes(kind) + u16_be_bytes(flags),
    ensures
        be_u32_at(bytes, at) == offset,
        be_u32_at(bytes, at + 4) == count,
        be_u16_at(bytes, at + 16) == kind,
        be_u16_at(bytes, at + 18) == flags,
{
    let numbers = u32_be_bytes(offset) + u32_be_bytes(count) + u32_be_bytes(width) + u32_be_bytes(
        SECTION_HEADER_SIZE as u32,
    );
    let header = numbers + u16_be_bytes(kind) + u16_be_bytes(flags);
    crate::bytes::lemma_parts_of_concat4(
        u32_be_bytes(offset),
        u32_be_bytes(count),
        u32_be_bytes(width),
        u32_be_bytes(SECTION_HEADER_SIZE as u32),
    );
    crate::bytes::lemma_parts_of_concat3(numbers, u16_be_bytes(kind), u16_be_bytes(flags));
    crate::bytes::lemma_embedded_part(bytes, at, header, 0, 16);
    crate::bytes::lemma_embedded_part(bytes, at, header, 16, 2);
    crate::bytes::lemma_embedded_part(bytes, at, header, 18, 2);
    assert(header.subrange(0, 16) == numbers);
    crate::bytes::lemma_embedded_part(bytes, at, numbers, 0, 4);
    crate::bytes::lemma_embedded_part(bytes, at, numbers, 4, 4);
    crate::bytes::lemma_be_u32_round_trip(bytes, at, offset);
    crate::bytes::lemma_be_u32_round_trip(bytes, at + 4, count);
    crate::bytes::lemma_be_u16_round_trip(bytes, at + 16, kind);
    crate::bytes::lemma_be_u16_round_trip(bytes, at + 18, flags);
}

impl PreSwitchTicketV1View {
    /// Where the bytes of an extension stand at `pin`, the numbers of the
    /// header of the section at `index` are read back.
    pub proof fn lemma_parse_section_header(self, bytes: Seq<u8>, pin: int, index: int)
        requires
            self.wf(),
            0 <= index < self.sections.len(),
            0 <= pin,
            pin + self.spec_size() <= bytes.len(),
            bytes.subrange(pin, pin + self.spec_size()) == self.spec_serialize(),
        ensures
            ({
                let at = pin + self.spec_first_section_offset() + 20 * index;
                let section = self.sections[index];
                &&& at + 20 <= bytes.len()
                &&& be_u32_at(bytes, at) == HEADER_SIZE + spec_records_total(self.sections, index)
                &&& be_u32_at(bytes, at + 4) == section.records.spec_len()
                &&& be_u16_at(bytes, at + 16) == section.records.spec_kind()
                &&& be_u16_at(bytes, at + 18) == section.flags
            }),
    {
        let sections = self.sections;
        let total = sections.len() as int;
        let section = sections[index];
        let image = self.spec_serialize();
        let records = spec_all_records(sections, total);
        let headers = spec_section_headers(sections, total);
        let first = self.spec_first_section_offset();
        let at = pin + first + 20 * index;
        let from = spec_records_total(sections, index);
        let size = section.records.spec_size();
        self.lemma_layout();
        lemma_section_in_sections(sections, index, total);
        lemma_records_total(sections, index);
        section.records.lemma_size();
        crate::bytes::lemma_parts_of_concat3(self.spec_header(), records, headers);
        crate::bytes::lemma_embedded_part(bytes, pin, image, first, 20 * total);
        crate::bytes::lemma_embedded_part(bytes, pin + first, headers, 20 * index, 20);
        assert(section.records.spec_len() <= size) by (nonlinear_arith)
            requires
                size == section.records.spec_size_of_one_record() * section.records.spec_len(),
                section.records.spec_size_of_one_record() >= 1,
                section.records.spec_len() >= 0,
        ;
        lemma_section_header_numbers(
            bytes,
            at,
            (HEADER_SIZE + from) as u32,
            section.records.spec_len() as u32,
            section.records.spec_size_of_one_record() as u32,
            section.records.spec_kind(),
            section.flags,
        );
    }

    /// Where the bytes of an extension stand at `pin`, the records of the
    /// section at `index` are read back.
    pub proof fn lemma_parse_section_records(self, bytes: Seq<u8>, pin: int, index: int)
        requires
            self.wf(),
            0 <= index < self.sections.len(),
            0 <= pin,
            pin + self.spec_size() <= bytes.len(),
            bytes.subrange(pin, pin + self.spec_size()) == self.spec_serialize(),
        ensures
            ({
                let at = pin + HEADER_SIZE + spec_records_total(self.sections, index);
                let records = self.sections[index].records;
                &&& spec_records_of(records.spec_kind(), bytes, at, records.spec_len()) == records
                &&& records_fit(
                    bytes.len() as int,
                    at,
                    records.spec_len(),
                    records.spec_size_of_one_record(),
                )
                &&& record_width(records.spec_kind()) == Some(records.spec_size_of_one_record())
            }),
    {
        let sections = self.sections;
        let total = sections.len() as int;
        let section = sections[index];
        let image = self.spec_serialize();
        let records = spec_all_records(sections, total);
        let headers = spec_section_headers(sections, total);
        let from = spec_records_total(sections, index);
        let size = section.records.spec_size();
        self.lemma_layout();
        lemma_section_in_sections(sections, index, total);
        lemma_records_total(sections, index);
        section.records.lemma_size();
        crate::bytes::lemma_parts_of_concat3(self.spec_header(), records, headers);
        crate::bytes::lemma_embedded_part(bytes, pin, image, 20, records.len() as int);
        crate::bytes::lemma_embedded_part(bytes, pin + 20, records, from, size);
        section.records.lemma_parse_serialize(bytes, pin + 20 + from);
    }

    /// Where the bytes of an extension stand at `pin`, the section at
    /// `index` is read from its header.
    pub proof fn lemma_parse_section(self, bytes: Seq<u8>, pin: int, index: int)
        requires
            self.wf(),
            0 <= index < self.sections.len(),
            0 <= pin,
            pin + self.spec_size() <= bytes.len(),
            bytes.subrange(pin, pin + self.spec_size()) == self.spec_serialize(),
        ensures
            spec_parse_section(bytes, pin, pin + self.spec_first_section_offset() + 20 * index)
                == Ok::<PreSwitchTicketV1SectionView, PreSwitchTicketV1Error>(
                self.sections[index],
            ),
    {
        self.lemma_parse_section_header(bytes, pin, index);
        self.lemma_parse_section_records(bytes, pin, index);
        lemma_records_total(self.sections, index);
    }

    /// The header of an extension has 20 bytes, its records stand behind
    /// it, and the headers of its sections behind them.
    pub proof fn lemma_layout(self)
        requires
            self.wf(),
        ensures
            self.spec_header().len() == 20,
            spec_all_records(self.sections, self.sections.len() as int).len()
                == spec_records_total(self.sections, self.sections.len() as int),
            spec_section_headers(self.sections, self.sections.len() as int).len() == 20
                * self.sections.len(),
            self.spec_first_section_offset() == 20 + spec_records_total(
                self.sections,
                self.sections.len() as int,
            ),
            self.spec_size() == self.spec_first_section_offset() + 20 * self.sections.len(),
            self.spec_serialize().len() == self.spec_size(),
            0 <= spec_records_total(self.sections, self.sections.len() as int),
    {
        lemma_records_total(self.sections, self.sections.len() as int);
    }

    /// Where the bytes of an extension stand at `pin`, its sections from
    /// `done` on are read from their headers.
    pub proof fn lemma_parse_sections(self, bytes: Seq<u8>, pin: int, done: int)
        requires
            self.wf(),
            0 <= done <= self.sections.len(),
            0 <= pin,
            pin + self.spec_size() <= bytes.len(),
            bytes.subrange(pin, pin + self.spec_size()) == self.spec_serialize(),
        ensures
            spec_parse_sections(
                bytes,
                pin,
                pin + self.spec_first_section_offset() + 20 * done,
                (self.sections.len() - done) as nat,
                self.sections.subrange(0, done),
            ) == Ok::<Seq<PreSwitchTicketV1SectionView>, PreSwitchTicketV1Error>(self.sections),
        decreases self.sections.len() - done,
    {
        if done == self.sections.len() {
            assert(self.sections.subrange(0, done) =~= self.sections);
        } else {
            self.lemma_parse_section(bytes, pin, done);
            assert(self.sections.subrange(0, done).push(self.sections[done])
                =~= self.sections.subrange(0, done + 1));
            self.lemma_parse_sections(bytes, pin, done + 1);
        }
    }

    /// A well-formed extension is read back from its bytes, wherever they
    /// stand and whatever follows them.
    pub proof fn lemma_parse_serialize(self, bytes: Seq<u8>, pin: int)
        requires
            self.wf(),
            0 <= pin,
            pin + self.spec_size() <= bytes.len(),
            bytes.subrange(pin, pin + self.spec_size()) == self.spec_serialize(),
        ensures
            Self::spec_parse(bytes, pin) == Ok::<
                (PreSwitchTicketV1View, int),
                PreSwitchTicketV1Error,
            >((self, pin + self.spec_size())),
    {
        self.lemma_layout();
        let image = self.spec_serialize();
        let header = self.spec_header();
        let records = spec_all_records(self.sections, self.sections.len() as int);
        let headers = spec_section_headers(self.sections, self.sections.len() as int);
        crate::bytes::lemma_parts_of_concat3(header, records, headers);
        crate::bytes::lemma_embedded_part(bytes, pin, image, 0, 20);
        self.lemma_parse_header(bytes, pin);
        self.lemma_parse_sections(bytes, pin, 0);
        assert(self.sections.subrange(0, 0) =~= Seq::empty());
    }

    /// The numbers of the header of an extension are read back from its 20
    /// bytes.
    pub proof fn lemma_parse_header(self, bytes: Seq<u8>, pin: int)
        requires
            self.wf(),
            0 <= pin,
            pin + 20 <= bytes.len(),
            bytes.subrange(pin, pin + 20) == self.spec_header(),
        ensures
            be_u16_at(bytes, pin) == 1,
            be_u16_at(bytes, pin + 2) == HEADER_SIZE,
            be_u32_at(bytes, pin + 4) == self.spec_size(),
            be_u32_at(bytes, pin + 8) == self.spec_first_section_offset(),
            be_u16_at(bytes, pin + 12) == self.sections.len(),
            be_u16_at(bytes, pin + 14) == SECTION_HEADER_SIZE,
            be_u32_at(bytes, pin + 16) == self.flags,
    {
        self.lemma_layout();
        let header = self.spec_header();
        let version = u16_be_bytes(1);
        let header_size = u16_be_bytes(HEADER_SIZE);
        let size = u32_be_bytes(self.spec_size() as u32);
        let first = u32_be_bytes(self.spec_first_section_offset() as u32);
        let count = u16_be_bytes(self.sections.len() as u16);
        let section_header_size = u16_be_bytes(SECTION_HEADER_SIZE);
        let flags = u32_be_bytes(self.flags);
        let front = version + header_size + size + first;
        crate::bytes::lemma_parts_of_concat4(version, header_size, size, first);
        crate::bytes::lemma_parts_of_concat4(front, count, section_header_size, flags);
        assert(header == front + count + section_header_size + flags);
        crate::bytes::lemma_embedded_part(bytes, pin, header, 0, 12);
        crate::bytes::lemma_embedded_part(bytes, pin, header, 12, 2);
        crate::bytes::lemma_embedded_part(bytes, pin, header, 14, 2);
        crate::bytes::lemma_embedded_part(bytes, pin, header, 16, 4);
        assert(header.subrange(0, 12) == front);
        crate::bytes::lemma_embedded_part(bytes, pin, front, 0, 2);
        crate::bytes::lemma_embedded_part(bytes, pin, front, 2, 2);
        crate::bytes::lemma_embedded_part(bytes, pin, front, 4, 4);
        crate::bytes::lemma_embedded_part(bytes, pin, front, 8, 4);
        crate::bytes::lemma_be_u16_round_trip(bytes, pin, 1);
        crate::bytes::lemma_be_u16_round_trip(bytes, pin + 2, HEADER_SIZE);
        crate::bytes::lemma_be_u32_round_trip(bytes, pin + 4, self.spec_size() as u32);
        crate::bytes::lemma_be_u32_round_trip(
            bytes,
            pin + 8,
            self.spec_first_section_offset() as u32,
        );
        crate::bytes::lemma_be_u16_round_trip(bytes, pin + 12, self.sections.len() as u16);
        crate::bytes::lemma_be_u16_round_trip(bytes, pin + 14, SECTION_HEADER_SIZE);
        crate::bytes::lemma_be_u32_round_trip(bytes, pin + 16, self.flags);
    }
}

} // verus!
