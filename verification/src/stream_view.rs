//! A bounded view of a stream.

use vstd::prelude::*;
use crate::stream::{clipped, seek_target, SeekFrom, Stream, StreamError};

verus! {

/// A bounded window of a stream: its byte 0 is the byte at which the stream
/// stood when the view was made, and reads and writes stop at its length.
///
/// The position of the stream is moved and not put back: see `RecallView`.
pub struct StreamView {
    inner: Stream,
    start_position: u64,
    len: usize,
}

impl StreamView {
    /// The stream under the view.
    pub closed spec fn inner(&self) -> Stream {
        self.inner
    }

    /// The position of the stream at which the view begins.
    pub closed spec fn start(&self) -> u64 {
        self.start_position
    }

    /// The length of the visible range of the stream.
    pub closed spec fn length(&self) -> int {
        self.len as int
    }

    /// The position within the view.
    pub open spec fn relative(&self) -> int {
        self.inner().pos() - self.start()
    }

    /// The stream stands at or behind the start of the view, which is not
    /// empty.
    pub open spec fn wf(&self) -> bool {
        &&& self.inner().wf()
        &&& self.start() <= self.inner().pos()
        &&& self.length() > 0
    }

    /// How many bytes lie between the position and the end of the view.
    pub open spec fn remaining(&self) -> int {
        if self.relative() >= self.length() {
            0
        } else {
            self.length() - self.relative()
        }
    }

    /// How many bytes of a buffer of `wanted` bytes the view lets pass.
    pub open spec fn allowed(&self, wanted: int) -> int {
        if wanted <= self.remaining() {
            wanted
        } else {
            self.remaining()
        }
    }

    /// The view differs from `other` in the stream under it at most.
    pub open spec fn same_window(&self, other: &StreamView) -> bool {
        &&& self.start() == other.start()
        &&& self.length() == other.length()
    }

    /// A view of the `len` bytes from the stream's position on.
    pub fn new(stream: Stream, len: usize) -> (result: Result<StreamView, StreamError>)
        requires
            len > 0,
            stream.wf(),
        ensures
            result is Ok,
            result.unwrap().inner() == stream,
            result.unwrap().start() == stream.pos(),
            result.unwrap().length() == len,
            result.unwrap().wf(),
    {
        let start_position = stream.stream_position();
        Ok(StreamView { inner: stream, start_position, len })
    }

    /// Give the stream back, where the view left it.
    pub fn into_inner(self) -> (stream: Stream)
        ensures
            stream == self.inner(),
    {
        self.inner
    }

    /// The length of the visible range of the stream.
    pub fn len(&self) -> (len: usize)
        ensures
            len == self.length(),
    {
        self.len
    }

    /// The position within the view.
    pub fn stream_position(&self) -> (position: u64)
        requires
            self.wf(),
        ensures
            position == self.relative(),
    {
        self.inner.stream_position() - self.start_position
    }

    fn remaining_bytes(&self) -> (count: usize)
        requires
            self.wf(),
        ensures
            count == self.remaining(),
    {
        let relative = self.inner.stream_position() - self.start_position;
        if relative >= self.len as u64 {
            0
        } else {
            self.len - relative as usize
        }
    }

    /// Read into `buf` as far as the view reaches and the stream has bytes,
    /// and return how many were read.
    pub fn read(&mut self, buf: &mut Vec<u8>) -> (result: Result<usize, StreamError>)
        requires
            old(self).wf(),
        ensures
            final(self).wf(),
            final(self).same_window(old(self)),
            final(self).inner().same_content(&old(self).inner()),
            ({
                let count = clipped(
                    old(self).inner().size(),
                    old(self).inner().pos() as int,
                    old(self).allowed(old(buf)@.len() as int),
                );
                &&& result == Ok::<usize, StreamError>(count as usize)
                &&& final(self).inner().pos() == old(self).inner().pos() + count
                &&& final(buf)@ == old(self).inner().window(count) + old(buf)@.subrange(
                    count,
                    old(buf)@.len() as int,
                )
            }),
    {
        let limit = self.remaining_bytes();
        Ok(self.inner.read_at_most(buf, limit))
    }

    /// Write `buf` as far as the view reaches, and return how many bytes the
    /// stream took.
    pub fn write(&mut self, buf: &[u8]) -> (result: Result<usize, StreamError>)
        requires
            old(self).wf(),
        ensures
            final(self).wf(),
            final(self).same_window(old(self)),
            final(self).inner().growable() == old(self).inner().growable(),
            ({
                let allowed = old(self).allowed(buf@.len() as int);
                let passed = buf@.subrange(0, allowed);
                &&& old(self).inner().overflows(allowed) ==> {
                    &&& result == Err::<usize, StreamError>(StreamError::InvalidInput)
                    &&& final(self).inner().bytes() == old(self).inner().bytes()
                    &&& final(self).inner().pos() == old(self).inner().pos()
                }
                &&& !old(self).inner().overflows(allowed) ==> {
                    &&& result == Ok::<usize, StreamError>(
                        old(self).inner().writable(allowed) as usize,
                    )
                    &&& final(self).inner().bytes() == old(self).inner().written(passed)
                    &&& final(self).inner().pos() == old(self).inner().pos() + old(
                        self,
                    ).inner().writable(allowed)
                }
            }),
    {
        let remaining = self.remaining_bytes();
        let allowed = if buf.len() <= remaining {
            buf.len()
        } else {
            remaining
        };
        let mut passed: Vec<u8> = Vec::new();
        let mut i: usize = 0;
        while i < allowed
            invariant
                i <= allowed <= buf@.len(),
                passed@ == buf@.subrange(0, i as int),
            decreases allowed - i,
        {
            passed.push(buf[i]);
            i += 1;
            assert(passed@ =~= buf@.subrange(0, i as int));
        }
        self.inner.write(passed.as_slice())
    }

    /// Nothing is buffered: flushing changes nothing.
    pub fn flush(&mut self) -> (result: Result<(), StreamError>)
        ensures
            result is Ok,
            *final(self) == *old(self),
    {
        Ok(())
    }

    /// The position of the stream that a seek aims at. `Start` counts from
    /// the start of the view, `End` from its last byte.
    pub open spec fn target(&self, from: SeekFrom) -> int {
        match from {
            SeekFrom::Start(offset) => self.start() + offset,
            SeekFrom::Current(offset) => self.inner().pos() + offset,
            SeekFrom::End(offset) => self.start() + self.length() - 1 + offset,
        }
    }

    /// Move within the view and return the new position within it. A
    /// target before the start of the view, or beyond `u64::MAX`, is refused.
    pub fn seek(&mut self, from: SeekFrom) -> (result: Result<u64, StreamError>)
        requires
            old(self).wf(),
        ensures
            final(self).wf(),
            final(self).same_window(old(self)),
            final(self).inner().same_content(&old(self).inner()),
            ({
                let target = old(self).target(from);
                if old(self).start() <= target <= u64::MAX {
                    &&& result == Ok::<u64, StreamError>((target - old(self).start()) as u64)
                    &&& final(self).inner().pos() == target
                } else {
                    &&& result == Err::<u64, StreamError>(StreamError::InvalidSeek)
                    &&& final(self).inner().pos() == old(self).inner().pos()
                }
            }),
    {
        let (base, offset): (u64, i64) = match from {
            SeekFrom::Start(offset) => {
                if offset > u64::MAX - self.start_position {
                    return Err(StreamError::InvalidSeek);
                }
                self.inner.seek_to(self.start_position + offset);
                return Ok(offset);
            },
            SeekFrom::Current(offset) => (self.inner.stream_position(), offset),
            SeekFrom::End(offset) => {
                if (self.len - 1) as u64 > u64::MAX - self.start_position {
                    if offset >= 0 {
                        return Err(StreamError::InvalidSeek);
                    }
                    let backward: u64 = ((-(offset + 1)) as u64) + 1;
                    let over = (self.len - 1) as u64 - (u64::MAX - self.start_position);
                    if backward < over {
                        return Err(StreamError::InvalidSeek);
                    }
                    let target = u64::MAX - (backward - over);
                    if target < self.start_position {
                        return Err(StreamError::InvalidSeek);
                    }
                    self.inner.seek_to(target);
                    return Ok(target - self.start_position);
                } else {
                    (self.start_position + (self.len - 1) as u64, offset)
                }
            },
        };
        let target = if offset >= 0 {
            let forward = offset as u64;
            if forward > u64::MAX - base {
                return Err(StreamError::InvalidSeek);
            }
            base + forward
        } else {
            let backward: u64 = ((-(offset + 1)) as u64) + 1;
            if backward > base {
                return Err(StreamError::InvalidSeek);
            }
            base - backward
        };
        if target < self.start_position {
            return Err(StreamError::InvalidSeek);
        }
        self.inner.seek_to(target);
        Ok(target - self.start_position)
    }
}

} // verus!
