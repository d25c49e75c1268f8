//! A seekable stream of bytes held in memory.

use vstd::prelude::*;
use crate::align::{align_to_boundary, ceil_align, lemma_ceil_align};
use crate::bytes::{
    array_at, be_u16_at, be_u32_at, be_u64_at, decode_be_u16, decode_be_u32, decode_be_u64,
    decode_le_u32, le_u32_at, zeros,
};

verus! {

broadcast use vstd::array::group_array_axioms;

/// The most bytes a stream can hold.
pub const STREAM_LIMIT: u64 = 0x7FFF_FFFF_FFFF_FFFF;

/// Why an operation on a stream failed.
#[derive(Clone, Copy, Debug, PartialEq, Eq, Structural)]
pub enum StreamError {
    /// Fewer bytes were left than an exact read asked for.
    UnexpectedEof,
    /// A seek to a negative or overflowing position.
    InvalidSeek,
    /// A write that would end beyond `STREAM_LIMIT` or beyond what memory can
    /// address.
    InvalidInput,
    /// A value was read that its type does not admit.
    InvalidData,
    /// A stream of fixed size could not take the whole buffer.
    WriteZero,
    /// A block cipher was handed data that is no whole number of blocks.
    Cipher,
}

/// Where a seek starts to count from.
#[derive(Clone, Copy, Debug, PartialEq, Eq, Structural)]
pub enum SeekFrom {
    /// From the first byte.
    Start(u64),
    /// From the current position.
    Current(i64),
    /// From the end.
    End(i64),
}

/// The position that a seek aims at, with the current position and the
/// position that counts as the end.
pub open spec fn seek_target(from: SeekFrom, current: int, end: int) -> int {
    match from {
        SeekFrom::Start(offset) => offset as int,
        SeekFrom::Current(offset) => current + offset,
        SeekFrom::End(offset) => end + offset,
    }
}

/// `bytes` after `data` was written at `pos` into a stream that grows: bytes
/// between the old end and `pos` are zero.
pub open spec fn spec_write(bytes: Seq<u8>, pos: int, data: Seq<u8>) -> Seq<u8> {
    Seq::new(
        (if bytes.len() >= pos + data.len() {
            bytes.len() as int
        } else {
            pos + data.len()
        }) as nat,
        |i: int|
            if pos <= i < pos + data.len() {
                data[i - pos]
            } else if i < bytes.len() {
                bytes[i]
            } else {
                0u8
            },
    )
}

/// How many bytes of a buffer of `wanted` bytes a stream of `len` bytes has
/// room or content for at `pos`.
pub open spec fn clipped(len: int, pos: int, wanted: int) -> int {
    if pos >= len {
        0
    } else if wanted <= len - pos {
        wanted
    } else {
        len - pos
    }
}

/// `bytes` after `data` was written at `pos` into a stream of fixed size:
/// what does not fit is dropped.
pub open spec fn spec_write_clipped(bytes: Seq<u8>, pos: int, data: Seq<u8>) -> Seq<u8> {
    Seq::new(
        bytes.len(),
        |i: int|
            if pos <= i < pos + data.len() {
                data[i - pos]
            } else {
                bytes[i]
            },
    )
}

/// What a stream is at one moment: its bytes, its position, and whether it
/// grows.
pub struct StreamState {
    /// The bytes held.
    pub bytes: Seq<u8>,
    /// The position.
    pub pos: int,
    /// Whether the stream grows on writes beyond its end.
    pub growable: bool,
}

impl StreamState {
    /// The state at another position.
    pub open spec fn at(self, pos: int) -> StreamState {
        StreamState { bytes: self.bytes, pos, growable: self.growable }
    }

    /// Whether `count` bytes can be written at the position: within the
    /// limit for a stream that grows, within its size for another.
    pub open spec fn takes(self, count: int) -> bool {
        if self.growable {
            self.pos + count <= STREAM_LIMIT && self.pos + count <= usize::MAX
        } else {
            count == 0 || self.pos + count <= self.bytes.len()
        }
    }

    /// The error of a write of all bytes that the stream does not take.
    pub open spec fn refusal(self) -> StreamError {
        if self.growable {
            StreamError::InvalidInput
        } else {
            StreamError::WriteZero
        }
    }

    /// The state after all of `data` was written at the position, or the
    /// error where the stream does not take it.
    pub open spec fn write_all(self, data: Seq<u8>) -> Result<StreamState, StreamError> {
        if self.takes(data.len() as int) {
            Ok(
                StreamState {
                    bytes: if self.growable {
                        spec_write(self.bytes, self.pos, data)
                    } else {
                        spec_write_clipped(self.bytes, self.pos, data)
                    },
                    pos: self.pos + data.len(),
                    growable: self.growable,
                },
            )
        } else {
            Err(self.refusal())
        }
    }
}

/// Writing bytes where the same bytes stand changes nothing but the
/// position.
pub proof fn lemma_write_same(state: StreamState, data: Seq<u8>)
    requires
        state.growable,
        0 <= state.pos,
        state.pos + data.len() <= state.bytes.len(),
        state.bytes.len() <= STREAM_LIMIT,
        state.bytes.len() <= usize::MAX,
        state.bytes.subrange(state.pos, state.pos + data.len()) == data,
    ensures
        state.write_all(data) == Ok::<StreamState, StreamError>(state.at(state.pos + data.len())),
{
    let stored = state.bytes.subrange(state.pos, state.pos + data.len());
    assert forall|i: int| 0 <= i < data.len() implies data[i] == state.bytes[state.pos + i] by {
        assert(stored[i] == state.bytes[state.pos + i]);
    }
    assert(spec_write(state.bytes, state.pos, data) =~= state.bytes);
}

/// What was written stands where it was written.
pub proof fn lemma_written_part(bytes: Seq<u8>, pos: int, data: Seq<u8>)
    requires
        0 <= pos,
    ensures
        spec_write(bytes, pos, data).len() == if bytes.len() >= pos + data.len() {
            bytes.len() as int
        } else {
            pos + data.len()
        },
        spec_write(bytes, pos, data).subrange(pos, pos + data.len()) == data,
{
    assert(spec_write(bytes, pos, data).subrange(pos, pos + data.len()) =~= data);
}

/// Two writes, the second behind the first, are one write of both buffers.
pub proof fn lemma_write_write(bytes: Seq<u8>, pos: int, first: Seq<u8>, second: Seq<u8>)
    requires
        0 <= pos,
    ensures
        spec_write(spec_write(bytes, pos, first), pos + first.len(), second) == spec_write(
            bytes,
            pos,
            first + second,
        ),
{
    assert(spec_write(spec_write(bytes, pos, first), pos + first.len(), second) =~= spec_write(
        bytes,
        pos,
        first + second,
    ));
}

/// A seekable stream of bytes in memory.
///
/// A stream made by `new` grows when written beyond its end; one made by
/// `fixed` keeps its size and takes only what fits.
pub struct Stream {
    data: Vec<u8>,
    position: u64,
    growable: bool,
}

impl Stream {
    /// The bytes held.
    pub closed spec fn bytes(&self) -> Seq<u8> {
        self.data@
    }

    /// The current position, which may lie beyond the end.
    pub closed spec fn pos(&self) -> u64 {
        self.position
    }

    /// Whether the stream grows on writes beyond its end.
    pub closed spec fn growable(&self) -> bool {
        self.growable
    }

    /// The number of bytes held.
    pub open spec fn size(&self) -> int {
        self.bytes().len() as int
    }

    /// The bytes, the position and whether the stream grows.
    pub open spec fn state(&self) -> StreamState {
        StreamState { bytes: self.bytes(), pos: self.pos() as int, growable: self.growable() }
    }

    /// The stream holds no more than `STREAM_LIMIT` bytes.
    pub open spec fn wf(&self) -> bool {
        self.size() <= STREAM_LIMIT
    }

    /// Whether an exact read of `n` bytes succeeds.
    pub open spec fn can_read(&self, n: int) -> bool {
        n == 0 || self.pos() + n <= self.size()
    }

    /// The `n` bytes from the current position on, where the stream holds
    /// that many; no bytes otherwise.
    pub open spec fn window(&self, n: int) -> Seq<u8> {
        if n > 0 && self.pos() + n <= self.size() {
            self.bytes().subrange(self.pos() as int, self.pos() + n)
        } else {
            Seq::empty()
        }
    }

    /// The bytes from the current position on that a read into a buffer of
    /// `wanted` bytes yields.
    pub open spec fn readable(&self, wanted: int) -> Seq<u8> {
        self.window(clipped(self.size(), self.pos() as int, wanted))
    }

    /// Only the position differs between `self` and `other`.
    pub open spec fn same_content(&self, other: &Stream) -> bool {
        &&& self.bytes() == other.bytes()
        &&& self.growable() == other.growable()
    }

    /// A stream over `data` that grows, positioned at its first byte.
    pub fn new(data: Vec<u8>) -> (stream: Stream)
        requires
            data@.len() <= STREAM_LIMIT,
        ensures
            stream.wf(),
            stream.bytes() == data@,
            stream.pos() == 0,
            stream.growable(),
    {
        Stream { data, position: 0, growable: true }
    }

    /// A stream over `data` of fixed size, positioned at its first byte.
    pub fn fixed(data: Vec<u8>) -> (stream: Stream)
        requires
            data@.len() <= STREAM_LIMIT,
        ensures
            stream.wf(),
            stream.bytes() == data@,
            stream.pos() == 0,
            !stream.growable(),
    {
        Stream { data, position: 0, growable: false }
    }

    /// The bytes held.
    pub fn into_inner(self) -> (data: Vec<u8>)
        ensures
            data@ == self.bytes(),
    {
        self.data
    }

    /// The bytes held.
    pub fn as_slice(&self) -> (data: &[u8])
        ensures
            data@ == self.bytes(),
    {
        self.data.as_slice()
    }

    /// Whether the stream grows on writes beyond its end.
    pub fn is_growable(&self) -> (growable: bool)
        ensures
            growable == self.growable(),
    {
        self.growable
    }

    /// The current position.
    pub fn stream_position(&self) -> (position: u64)
        ensures
            position == self.pos(),
    {
        self.position
    }

    /// The number of bytes held.
    pub fn len(&self) -> (len: u64)
        ensures
            len == self.size(),
            len <= usize::MAX,
    {
        self.data.len() as u64
    }

    /// Move to a position counted from the start, the current position or
    /// the end. A target below zero or above `u64::MAX` is refused.
    pub fn seek(&mut self, from: SeekFrom) -> (result: Result<u64, StreamError>)
        ensures
            final(self).same_content(old(self)),
            ({
                let target = seek_target(from, old(self).pos() as int, old(self).size());
                if 0 <= target <= u64::MAX {
                    result == Ok::<u64, StreamError>(target as u64) && final(self).pos() == target
                } else {
                    result == Err::<u64, StreamError>(StreamError::InvalidSeek) && final(self).pos()
                        == old(self).pos()
                }
            }),
    {
        let (base, offset): (u64, i64) = match from {
            SeekFrom::Start(offset) => {
                self.position = offset;
                return Ok(offset);
            },
            SeekFrom::Current(offset) => (self.position, offset),
            SeekFrom::End(offset) => (self.data.len() as u64, offset),
        };
        if offset >= 0 {
            let forward = offset as u64;
            if forward > u64::MAX - base {
                return Err(StreamError::InvalidSeek);
            }
            self.position = base + forward;
        } else {
            // `offset` may be `i64::MIN`, whose negation does not fit `i64`.
            let backward: u64 = ((-(offset + 1)) as u64) + 1;
            if backward > base {
                return Err(StreamError::InvalidSeek);
            }
            self.position = base - backward;
        }
        Ok(self.position)
    }

    /// Move to `position`, counted from the start.
    pub fn seek_to(&mut self, position: u64)
        ensures
            final(self).same_content(old(self)),
            final(self).pos() == position,
    {
        self.position = position;
    }

    /// Move forward by `count` bytes without reading them.
    pub fn skip(&mut self, count: u64) -> (result: Result<(), StreamError>)
        ensures
            final(self).same_content(old(self)),
            old(self).pos() + count <= u64::MAX ==> result is Ok && final(self).pos() == old(
                self,
            ).pos() + count,
            old(self).pos() + count > u64::MAX ==> result == Err::<(), StreamError>(
                StreamError::InvalidSeek,
            ) && final(self).pos() == old(self).pos(),
    {
        if count > u64::MAX - self.position {
            return Err(StreamError::InvalidSeek);
        }
        self.position = self.position + count;
        Ok(())
    }

    /// Move back to the first byte.
    pub fn rewind(&mut self)
        ensures
            final(self).same_content(old(self)),
            final(self).pos() == 0,
    {
        self.position = 0;
    }

    /// Read into the first `limit` bytes of `buf` at most, as far as the
    /// stream has bytes from the current position on.
    pub fn read_at_most(&mut self, buf: &mut Vec<u8>, limit: usize) -> (count: usize)
        ensures
            final(self).same_content(old(self)),
            count == clipped(
                old(self).size(),
                old(self).pos() as int,
                if limit <= old(buf)@.len() {
                    limit as int
                } else {
                    old(buf)@.len() as int
                },
            ),
            final(self).pos() == old(self).pos() + count,
            final(buf)@ == old(self).window(count as int) + old(buf)@.subrange(
                count as int,
                old(buf)@.len() as int,
            ),
    {
        let wanted = if limit <= buf.len() {
            limit
        } else {
            buf.len()
        };
        let len = self.data.len();
        if self.position >= len as u64 {
            assert(buf@ =~= Seq::<u8>::empty() + buf@.subrange(0, buf@.len() as int));
            return 0;
        }
        let start = self.position as usize;
        let count = if wanted <= len - start {
            wanted
        } else {
            len - start
        };
        let ghost before = buf@;
        let mut i: usize = 0;
        while i < count
            invariant
                i <= count,
                count <= buf@.len(),
                start + count <= self.data@.len() <= usize::MAX,
                buf@.len() == before.len(),
                forall|j: int| 0 <= j < i ==> buf@[j] == self.data@[start + j],
                forall|j: int| i <= j < buf@.len() ==> buf@[j] == before[j],
            decreases count - i,
        {
            buf.set(i, self.data[start + i]);
            i += 1;
        }
        self.position = self.position + count as u64;
        assert(buf@ =~= old(self).window(count as int) + before.subrange(
            count as int,
            before.len() as int,
        ));
        count
    }

    /// Read into `buf` as far as the stream has bytes from the current
    /// position on, and return how many were read.
    pub fn read(&mut self, buf: &mut Vec<u8>) -> (result: Result<usize, StreamError>)
        ensures
            final(self).same_content(old(self)),
            result is Ok,
            result.unwrap() == clipped(
                old(self).size(),
                old(self).pos() as int,
                old(buf)@.len() as int,
            ),
            final(self).pos() == old(self).pos() + result.unwrap(),
            final(buf)@ == old(self).readable(old(buf)@.len() as int) + old(buf)@.subrange(
                result.unwrap() as int,
                old(buf)@.len() as int,
            ),
    {
        let limit = buf.len();
        Ok(self.read_at_most(buf, limit))
    }

    /// Fill `buf` from the stream. Where fewer bytes are left, `buf` keeps
    /// its contents and the position moves to the end.
    pub fn read_exact(&mut self, buf: &mut Vec<u8>) -> (result: Result<(), StreamError>)
        ensures
            final(self).same_content(old(self)),
            old(self).can_read(old(buf)@.len() as int) ==> {
                &&& result is Ok
                &&& final(self).pos() == old(self).pos() + old(buf)@.len()
                &&& final(buf)@ == old(self).window(old(buf)@.len() as int)
            },
            !old(self).can_read(old(buf)@.len() as int) ==> {
                &&& result == Err::<(), StreamError>(StreamError::UnexpectedEof)
                &&& final(self).pos() == old(self).size()
                &&& final(buf)@ == old(buf)@
            },
    {
        let wanted = buf.len();
        if wanted == 0 {
            assert(buf@ =~= Seq::<u8>::empty());
            return Ok(());
        }
        let len = self.data.len() as u64;
        if self.position > len || len - self.position < wanted as u64 {
            self.position = len;
            return Err(StreamError::UnexpectedEof);
        }
        let count = self.read_at_most(buf, wanted);
        assert(buf@ =~= old(self).window(old(buf)@.len() as int));
        Ok(())
    }

    /// Read exactly `count` bytes.
    pub fn read_vec(&mut self, count: usize) -> (result: Result<Vec<u8>, StreamError>)
        ensures
            final(self).same_content(old(self)),
            old(self).can_read(count as int) ==> {
                &&& result is Ok
                &&& final(self).pos() == old(self).pos() + count
                &&& result.unwrap()@ == old(self).window(count as int)
            },
            !old(self).can_read(count as int) ==> {
                &&& result == Err::<Vec<u8>, StreamError>(StreamError::UnexpectedEof)
                &&& final(self).pos() == old(self).size()
            },
    {
        let len = self.data.len() as u64;
        if count > 0 && (self.position > len || len - self.position < count as u64) {
            self.position = len;
            return Err(StreamError::UnexpectedEof);
        }
        let mut buf: Vec<u8> = Vec::new();
        if count == 0 {
            return Ok(buf);
        }
        let start = self.position as usize;
        let mut i: usize = 0;
        while i < count
            invariant
                i <= count,
                start + count <= self.data@.len() <= usize::MAX,
                buf@.len() == i,
                forall|j: int| 0 <= j < i ==> buf@[j] == self.data@[start + j],
            decreases count - i,
        {
            buf.push(self.data[start + i]);
            i += 1;
        }
        self.position = self.position + count as u64;
        assert(buf@ =~= old(self).window(count as int));
        Ok(buf)
    }

    /// Read exactly `N` bytes.
    pub fn read_array<const N: usize>(&mut self) -> (result: Result<[u8; N], StreamError>)
        ensures
            final(self).same_content(old(self)),
            old(self).can_read(N as int) ==> {
                &&& result is Ok
                &&& final(self).pos() == old(self).pos() + N
                &&& result.unwrap()@ == old(self).window(N as int)
                &&& result.unwrap() == crate::bytes::array_of::<N>(old(self).window(N as int))
            },
            !old(self).can_read(N as int) ==> {
                &&& result == Err::<[u8; N], StreamError>(StreamError::UnexpectedEof)
                &&& final(self).pos() == old(self).size()
            },
    {
        let len = self.data.len() as u64;
        if N > 0 && (self.position > len || len - self.position < N as u64) {
            self.position = len;
            return Err(StreamError::UnexpectedEof);
        }
        if N == 0 {
            let a = [0u8; N];
            assert(a@ =~= Seq::<u8>::empty());
            proof {
                crate::bytes::lemma_array_of_view::<N>(a);
            }
            return Ok(a);
        }
        let a = array_at::<N>(self.data.as_slice(), self.position as usize);
        self.position = self.position + N as u64;
        Ok(a)
    }

    /// Read one byte.
    pub fn read_u8(&mut self) -> (result: Result<u8, StreamError>)
        ensures
            final(self).same_content(old(self)),
            old(self).can_read(1) ==> result == Ok::<u8, StreamError>(
                old(self).bytes()[old(self).pos() as int],
            ) && final(self).pos() == old(self).pos() + 1,
            !old(self).can_read(1) ==> result == Err::<u8, StreamError>(
                StreamError::UnexpectedEof,
            ) && final(self).pos() == old(self).size(),
    {
        let len = self.data.len() as u64;
        if self.position >= len {
            self.position = len;
            return Err(StreamError::UnexpectedEof);
        }
        let value = self.data[self.position as usize];
        self.position = self.position + 1;
        Ok(value)
    }

    /// Read a big-endian 16-bit integer.
    pub fn read_u16_be(&mut self) -> (result: Result<u16, StreamError>)
        ensures
            final(self).same_content(old(self)),
            old(self).can_read(2) ==> result == Ok::<u16, StreamError>(
                be_u16_at(old(self).bytes(), old(self).pos() as int),
            ) && final(self).pos() == old(self).pos() + 2,
            !old(self).can_read(2) ==> result == Err::<u16, StreamError>(
                StreamError::UnexpectedEof,
            ) && final(self).pos() == old(self).size(),
    {
        let len = self.data.len() as u64;
        if self.position > len || len - self.position < 2 {
            self.position = len;
            return Err(StreamError::UnexpectedEof);
        }
        let value = decode_be_u16(self.data.as_slice(), self.position as usize);
        self.position = self.position + 2;
        Ok(value)
    }

    /// Read a big-endian 32-bit integer.
    pub fn read_u32_be(&mut self) -> (result: Result<u32, StreamError>)
        ensures
            final(self).same_content(old(self)),
            old(self).can_read(4) ==> result == Ok::<u32, StreamError>(
                be_u32_at(old(self).bytes(), old(self).pos() as int),
            ) && final(self).pos() == old(self).pos() + 4,
            !old(self).can_read(4) ==> result == Err::<u32, StreamError>(
                StreamError::UnexpectedEof,
            ) && final(self).pos() == old(self).size(),
    {
        let len = self.data.len() as u64;
        if self.position > len || len - self.position < 4 {
            self.position = len;
            return Err(StreamError::UnexpectedEof);
        }
        let value = decode_be_u32(self.data.as_slice(), self.position as usize);
        self.position = self.position + 4;
        Ok(value)
    }

    /// Read a little-endian 32-bit integer.
    pub fn read_u32_le(&mut self) -> (result: Result<u32, StreamError>)
        ensures
            final(self).same_content(old(self)),
            old(self).can_read(4) ==> result == Ok::<u32, StreamError>(
                le_u32_at(old(self).bytes(), old(self).pos() as int),
            ) && final(self).pos() == old(self).pos() + 4,
            !old(self).can_read(4) ==> result == Err::<u32, StreamError>(
                StreamError::UnexpectedEof,
            ) && final(self).pos() == old(self).size(),
    {
        let len = self.data.len() as u64;
        if self.position > len || len - self.position < 4 {
            self.position = len;
            return Err(StreamError::UnexpectedEof);
        }
        let value = decode_le_u32(self.data.as_slice(), self.position as usize);
        self.position = self.position + 4;
        Ok(value)
    }

    /// Read a big-endian 64-bit integer.
    pub fn read_u64_be(&mut self) -> (result: Result<u64, StreamError>)
        ensures
            final(self).same_content(old(self)),
            old(self).can_read(8) ==> result == Ok::<u64, StreamError>(
                be_u64_at(old(self).bytes(), old(self).pos() as int),
            ) && final(self).pos() == old(self).pos() + 8,
            !old(self).can_read(8) ==> result == Err::<u64, StreamError>(
                StreamError::UnexpectedEof,
            ) && final(self).pos() == old(self).size(),
    {
        let len = self.data.len() as u64;
        if self.position > len || len - self.position < 8 {
            self.position = len;
            return Err(StreamError::UnexpectedEof);
        }
        let value = decode_be_u64(self.data.as_slice(), self.position as usize);
        self.position = self.position + 8;
        Ok(value)
    }

    /// What `write` does to a stream with these bytes.
    pub open spec fn written(&self, data: Seq<u8>) -> Seq<u8> {
        if self.growable() {
            spec_write(self.bytes(), self.pos() as int, data)
        } else {
            spec_write_clipped(self.bytes(), self.pos() as int, data)
        }
    }

    /// How many bytes of a buffer of `wanted` bytes `write` takes.
    pub open spec fn writable(&self, wanted: int) -> int {
        if self.growable() {
            wanted
        } else {
            clipped(self.size(), self.pos() as int, wanted)
        }
    }

    /// Whether a write of `wanted` bytes would end beyond `STREAM_LIMIT` or
    /// beyond what memory can address.
    pub open spec fn overflows(&self, wanted: int) -> bool {
        self.growable() && (self.pos() + wanted > STREAM_LIMIT || self.pos() + wanted
            > usize::MAX)
    }

    /// Write `buf` at the current position and return how many bytes were
    /// taken. A stream that grows takes all of them, after filling the gap
    /// between its end and the position with zeros; one of fixed size takes
    /// what fits.
    pub fn write(&mut self, buf: &[u8]) -> (result: Result<usize, StreamError>)
        requires
            old(self).wf(),
        ensures
            final(self).wf(),
            final(self).growable() == old(self).growable(),
            old(self).overflows(buf@.len() as int) ==> {
                &&& result == Err::<usize, StreamError>(StreamError::InvalidInput)
                &&& final(self).bytes() == old(self).bytes()
                &&& final(self).pos() == old(self).pos()
            },
            !old(self).overflows(buf@.len() as int) ==> {
                &&& result == Ok::<usize, StreamError>(
                    old(self).writable(buf@.len() as int) as usize,
                )
                &&& final(self).bytes() == old(self).written(buf@)
                &&& final(self).pos() == old(self).pos() + old(self).writable(buf@.len() as int)
            },
    {
        let wanted = buf.len();
        let len = self.data.len();
        if !self.growable {
            if self.position >= len as u64 {
                assert(self.data@ =~= spec_write_clipped(self.data@, self.position as int, buf@));
                return Ok(0);
            }
            let start = self.position as usize;
            let count = if wanted <= len - start {
                wanted
            } else {
                len - start
            };
            let ghost before = self.data@;
            let mut i: usize = 0;
            while i < count
                invariant
                    i <= count,
                    count <= buf@.len(),
                    start + count <= before.len() <= usize::MAX,
                    self.data@.len() == before.len(),
                    self.position == old(self).position,
                    self.growable == old(self).growable,
                    forall|j: int|
                        0 <= j < before.len() ==> self.data@[j] == if start <= j < start + i {
                            buf@[j - start]
                        } else {
                            before[j]
                        },
                decreases count - i,
            {
                self.data.set(start + i, buf[i]);
                i += 1;
            }
            self.position = self.position + count as u64;
            assert(self.data@ =~= spec_write_clipped(before, start as int, buf@));
            return Ok(count);
        }
        if self.position > STREAM_LIMIT || wanted as u64 > STREAM_LIMIT - self.position
            || self.position + wanted as u64 > usize::MAX as u64 {
            return Err(StreamError::InvalidInput);
        }
        let ghost before = self.data@;
        let start = self.position as usize;
        while self.data.len() < start
            invariant
                before.len() <= self.data@.len(),
                self.data@.len() <= start || self.data@.len() == before.len(),
                self.position == old(self).position,
                self.growable == old(self).growable,
                forall|j: int| 0 <= j < before.len() ==> self.data@[j] == before[j],
                forall|j: int| before.len() <= j < self.data@.len() ==> self.data@[j] == 0,
            decreases start - self.data@.len(),
        {
            self.data.push(0u8);
        }
        let ghost padded = self.data@;
        let mut i: usize = 0;
        while i < wanted
            invariant
                i <= wanted,
                wanted == buf@.len(),
                start + wanted <= STREAM_LIMIT,
                start + wanted <= usize::MAX,
                start <= padded.len(),
                self.position == old(self).position,
                self.growable == old(self).growable,
                self.data@.len() == if padded.len() >= start + i {
                    padded.len() as int
                } else {
                    start + i
                },
                forall|j: int|
                    0 <= j < self.data@.len() ==> self.data@[j] == if start <= j < start + i {
                        buf@[j - start]
                    } else {
                        padded[j]
                    },
            decreases wanted - i,
        {
            if start + i < self.data.len() {
                self.data.set(start + i, buf[i]);
            } else {
                self.data.push(buf[i]);
            }
            i += 1;
        }
        self.position = self.position + wanted as u64;
        assert(self.data@ =~= spec_write(before, start as int, buf@));
        Ok(wanted)
    }

    /// Write all of `buf` at the current position. A stream of fixed size
    /// that has no room for all of it takes what fits and fails with
    /// `WriteZero`.
    pub fn write_all(&mut self, buf: &[u8]) -> (result: Result<(), StreamError>)
        requires
            old(self).wf(),
        ensures
            final(self).wf(),
            final(self).growable() == old(self).growable(),
            match old(self).state().write_all(buf@) {
                Ok(state) => result is Ok && final(self).state() == state,
                Err(error) => result == Err::<(), StreamError>(error),
            },
            old(self).overflows(buf@.len() as int) ==> {
                &&& result == Err::<(), StreamError>(StreamError::InvalidInput)
                &&& final(self).bytes() == old(self).bytes()
                &&& final(self).pos() == old(self).pos()
            },
            !old(self).overflows(buf@.len() as int) ==> {
                &&& final(self).bytes() == old(self).written(buf@)
                &&& final(self).pos() == old(self).pos() + old(self).writable(buf@.len() as int)
                &&& result == if old(self).writable(buf@.len() as int) == buf@.len() {
                    Ok::<(), StreamError>(())
                } else {
                    Err::<(), StreamError>(StreamError::WriteZero)
                }
            },
    {
        let _len = self.data.len();
        match self.write(buf) {
            Ok(count) => {
                if count == buf.len() {
                    proof {
                        if !self.growable {
                            assert(spec_write_clipped(
                                old(self).bytes(),
                                old(self).pos() as int,
                                buf@,
                            ).len() == old(self).bytes().len());
                        }
                    }
                    Ok(())
                } else {
                    Err(StreamError::WriteZero)
                }
            },
            Err(error) => Err(error),
        }
    }

    /// Write `count` zero bytes.
    pub fn write_zeros(&mut self, count: usize) -> (result: Result<(), StreamError>)
        requires
            old(self).wf(),
        ensures
            final(self).wf(),
            final(self).growable() == old(self).growable(),
            old(self).overflows(count as int) ==> {
                &&& result == Err::<(), StreamError>(StreamError::InvalidInput)
                &&& final(self).bytes() == old(self).bytes()
                &&& final(self).pos() == old(self).pos()
            },
            !old(self).overflows(count as int) ==> {
                &&& final(self).bytes() == old(self).written(zeros(count as int))
                &&& final(self).pos() == old(self).pos() + old(self).writable(count as int)
                &&& result == if old(self).writable(count as int) == count {
                    Ok::<(), StreamError>(())
                } else {
                    Err::<(), StreamError>(StreamError::WriteZero)
                }
            },
    {
        let mut buf: Vec<u8> = Vec::new();
        crate::bytes::push_zeros(&mut buf, count);
        assert(buf@ =~= zeros(count as int));
        self.write_all(buf.as_slice())
    }

    /// Nothing is buffered: flushing changes nothing.
    pub fn flush(&mut self) -> (result: Result<(), StreamError>)
        ensures
            result is Ok,
            *final(self) == *old(self),
    {
        Ok(())
    }

    /// Drop the bytes from offset `len` on; a stream that is no longer keeps
    /// its bytes. The position stays.
    pub fn truncate(&mut self, len: u64)
        ensures
            final(self).pos() == old(self).pos(),
            final(self).growable() == old(self).growable(),
            final(self).bytes() == if len < old(self).size() {
                old(self).bytes().subrange(0, len as int)
            } else {
                old(self).bytes()
            },
            old(self).wf() ==> final(self).wf(),
    {
        if len < self.data.len() as u64 {
            self.data.truncate(len as usize);
        }
    }

    /// Where `align_position_from` moves to: the pin plus the distance from
    /// it, aligned.
    pub open spec fn aligned_from(&self, pin: int, boundary: int) -> int {
        pin + ceil_align(self.pos() - pin, boundary)
    }

    /// Move forward to the next position whose distance from `pin` is a
    /// multiple of `boundary`.
    pub fn align_position_from(&mut self, pin: u64, boundary: u64) -> (result: Result<
        (),
        StreamError,
    >)
        requires
            pin <= old(self).pos(),
            boundary > 0 || pin == old(self).pos(),
        ensures
            final(self).same_content(old(self)),
            old(self).aligned_from(pin as int, boundary as int) <= u64::MAX ==> result is Ok
                && final(self).pos() == old(self).aligned_from(pin as int, boundary as int),
            old(self).aligned_from(pin as int, boundary as int) > u64::MAX ==> result == Err::<
                (),
                StreamError,
            >(StreamError::InvalidSeek) && final(self).pos() == old(self).pos(),
    {
        let relative = self.position - pin;
        if relative == 0 {
            return Ok(());
        }
        proof {
            lemma_ceil_align(relative as int, boundary as int);
        }
        let padding = (boundary - (relative % boundary)) % boundary;
        if padding > u64::MAX - self.position {
            return Err(StreamError::InvalidSeek);
        }
        self.position = self.position + padding;
        Ok(())
    }

    /// How many zero bytes `align_zeroed_from` writes.
    pub open spec fn padding_from(&self, pin: int, boundary: int) -> int {
        let distance = if self.pos() >= pin {
            self.pos() - pin
        } else {
            pin - self.pos()
        };
        ceil_align(distance, boundary) - distance
    }

    /// Write zero bytes up to the next position whose distance from `pin` is
    /// a multiple of `boundary`.
    pub fn align_zeroed_from(&mut self, pin: u64, boundary: u64) -> (result: Result<
        (),
        StreamError,
    >)
        requires
            old(self).wf(),
            boundary > 0 || pin == old(self).pos(),
        ensures
            final(self).wf(),
            final(self).growable() == old(self).growable(),
            ({
                let count = old(self).padding_from(pin as int, boundary as int);
                &&& 0 <= count
                &&& boundary > 0 ==> count < boundary
                &&& old(self).overflows(count) ==> {
                    &&& result == Err::<(), StreamError>(StreamError::InvalidInput)
                    &&& final(self).bytes() == old(self).bytes()
                    &&& final(self).pos() == old(self).pos()
                }
                &&& !old(self).overflows(count) ==> {
                    &&& final(self).bytes() == old(self).written(zeros(count))
                    &&& final(self).pos() == old(self).pos() + old(self).writable(count)
                    &&& result == if old(self).writable(count) == count {
                        Ok::<(), StreamError>(())
                    } else {
                        Err::<(), StreamError>(StreamError::WriteZero)
                    }
                }
            }),
    {
        let distance = if self.position >= pin {
            self.position - pin
        } else {
            pin - self.position
        };
        if distance == 0 {
            return self.write_zeros(0);
        }
        proof {
            lemma_ceil_align(distance as int, boundary as int);
        }
        let padding = (boundary - (distance % boundary)) % boundary;
        if padding > usize::MAX as u64 {
            // More zero bytes than memory can address: a stream that grows
            // refuses, one of fixed size takes what fits.
            if self.growable {
                return Err(StreamError::InvalidInput);
            }
            let len = self.data.len() as u64;
            let room = if self.position >= len {
                0
            } else {
                len - self.position
            };
            let ghost before = *self;
            let _ = self.write_zeros(room as usize);
            assert(self.bytes() =~= before.written(zeros(padding as int)));
            return Err(StreamError::WriteZero);
        }
        self.write_zeros(padding as usize)
    }
}

} // verus!
