//! A stream together with a remembered position.

use vstd::prelude::*;
use crate::bytes::zeros;
use crate::stream::{clipped, seek_target, SeekFrom, Stream, StreamError};

verus! {

/// A stream and the position at which it stood when it was pinned, with
/// operations that count from that position.
pub struct StreamPin {
    stream: Stream,
    start_position: u64,
}

impl StreamPin {
    /// The stream that is pinned.
    pub closed spec fn stream(&self) -> Stream {
        self.stream
    }

    /// The pinned position.
    pub closed spec fn pin(&self) -> u64 {
        self.start_position
    }

    /// The pin stays where it is whatever is done to the stream.
    pub open spec fn same_pin(&self, other: &StreamPin) -> bool {
        self.pin() == other.pin()
    }

    /// Pin `stream` at its current position.
    pub fn new(stream: Stream) -> (result: Result<StreamPin, StreamError>)
        ensures
            result is Ok,
            result.unwrap().stream() == stream,
            result.unwrap().pin() == stream.pos(),
    {
        let start_position = stream.stream_position();
        Ok(StreamPin { stream, start_position })
    }

    /// Give the stream back, where it stands.
    pub fn into_inner(self) -> (stream: Stream)
        ensures
            stream == self.stream(),
    {
        self.stream
    }

    /// The current position of the stream.
    pub fn stream_position(&self) -> (position: u64)
        ensures
            position == self.stream().pos(),
    {
        self.stream.stream_position()
    }

    /// Go to the pinned position.
    pub fn go_to_pin(&mut self) -> (result: Result<(), StreamError>)
        ensures
            result is Ok,
            final(self).same_pin(old(self)),
            final(self).stream().same_content(&old(self).stream()),
            final(self).stream().pos() == old(self).pin(),
    {
        self.stream.seek_to(self.start_position);
        Ok(())
    }

    /// The position of the stream counted from the pin. A distance that
    /// `i64` cannot hold is refused.
    pub fn relative_position(&self) -> (result: Result<i64, StreamError>)
        ensures
            ({
                let distance = self.stream().pos() - self.pin();
                if i64::MIN <= distance <= i64::MAX {
                    result == Ok::<i64, StreamError>(distance as i64)
                } else {
                    result == Err::<i64, StreamError>(StreamError::InvalidSeek)
                }
            }),
    {
        let position = self.stream.stream_position();
        if position >= self.start_position {
            let distance = position - self.start_position;
            if distance > i64::MAX as u64 {
                Err(StreamError::InvalidSeek)
            } else {
                Ok(distance as i64)
            }
        } else {
            let distance = self.start_position - position;
            if distance > i64::MAX as u64 + 1 {
                Err(StreamError::InvalidSeek)
            } else if distance == i64::MAX as u64 + 1 {
                Ok(i64::MIN)
            } else {
                Ok(-(distance as i64))
            }
        }
    }

    /// Seek to `step` bytes from the pin. A target below zero or above
    /// `u64::MAX` is refused.
    pub fn seek_from_pin(&mut self, step: i64) -> (result: Result<u64, StreamError>)
        ensures
            final(self).same_pin(old(self)),
            final(self).stream().same_content(&old(self).stream()),
            ({
                let target = old(self).pin() + step;
                if 0 <= target <= u64::MAX {
                    &&& result == Ok::<u64, StreamError>(target as u64)
                    &&& final(self).stream().pos() == target
                } else {
                    &&& result == Err::<u64, StreamError>(StreamError::InvalidSeek)
                    &&& final(self).stream().pos() == old(self).stream().pos()
                }
            }),
    {
        let before = self.stream.stream_position();
        self.stream.seek_to(self.start_position);
        match self.stream.seek(SeekFrom::Current(step)) {
            Ok(position) => Ok(position),
            Err(error) => {
                self.stream.seek_to(before);
                Err(error)
            },
        }
    }

    /// Move forward to the next position whose distance from the pin is a
    /// multiple of `boundary`.
    pub fn align_position(&mut self, boundary: u64) -> (result: Result<(), StreamError>)
        requires
            old(self).pin() <= old(self).stream().pos(),
            boundary > 0 || old(self).pin() == old(self).stream().pos(),
        ensures
            final(self).same_pin(old(self)),
            final(self).stream().same_content(&old(self).stream()),
            ({
                let target = old(self).stream().aligned_from(
                    old(self).pin() as int,
                    boundary as int,
                );
                if target <= u64::MAX {
                    result is Ok && final(self).stream().pos() == target
                } else {
                    &&& result == Err::<(), StreamError>(StreamError::InvalidSeek)
                    &&& final(self).stream().pos() == old(self).stream().pos()
                }
            }),
    {
        self.stream.align_position_from(self.start_position, boundary)
    }

    /// Write zero bytes up to the next position whose distance from the pin
    /// is a multiple of `boundary`.
    pub fn align_zeroed(&mut self, boundary: u64) -> (result: Result<(), StreamError>)
        requires
            old(self).stream().wf(),
            boundary > 0 || old(self).pin() == old(self).stream().pos(),
        ensures
            final(self).same_pin(old(self)),
            final(self).stream().wf(),
            final(self).stream().growable() == old(self).stream().growable(),
            ({
                let before = old(self).stream();
                let count = before.padding_from(old(self).pin() as int, boundary as int);
                &&& 0 <= count
                &&& before.overflows(count) ==> {
                    &&& result == Err::<(), StreamError>(StreamError::InvalidInput)
                    &&& final(self).stream().bytes() == before.bytes()
                    &&& final(self).stream().pos() == before.pos()
                }
                &&& !before.overflows(count) ==> {
                    &&& final(self).stream().bytes() == before.written(zeros(count))
                    &&& final(self).stream().pos() == before.pos() + before.writable(count)
                    &&& result == if before.writable(count) == count {
                        Ok::<(), StreamError>(())
                    } else {
                        Err::<(), StreamError>(StreamError::WriteZero)
                    }
                }
            }),
    {
        self.stream.align_zeroed_from(self.start_position, boundary)
    }

    /// Seek as `Stream::seek` does.
    pub fn seek(&mut self, from: SeekFrom) -> (result: Result<u64, StreamError>)
        ensures
            final(self).same_pin(old(self)),
            final(self).stream().same_content(&old(self).stream()),
            ({
                let before = old(self).stream();
                let target = seek_target(from, before.pos() as int, before.size());
                if 0 <= target <= u64::MAX {
                    &&& result == Ok::<u64, StreamError>(target as u64)
                    &&& final(self).stream().pos() == target
                } else {
                    &&& result == Err::<u64, StreamError>(StreamError::InvalidSeek)
                    &&& final(self).stream().pos() == before.pos()
                }
            }),
    {
        self.stream.seek(from)
    }

    /// Read as `Stream::read` does.
    pub fn read(&mut self, buf: &mut Vec<u8>) -> (result: Result<usize, StreamError>)
        ensures
            final(self).same_pin(old(self)),
            final(self).stream().same_content(&old(self).stream()),
            ({
                let before = old(self).stream();
                let count = clipped(before.size(), before.pos() as int, old(buf)@.len() as int);
                &&& result == Ok::<usize, StreamError>(count as usize)
                &&& final(self).stream().pos() == before.pos() + count
                &&& final(buf)@ == before.window(count) + old(buf)@.subrange(
                    count,
                    old(buf)@.len() as int,
                )
            }),
    {
        self.stream.read(buf)
    }

    /// Write as `Stream::write` does.
    pub fn write(&mut self, buf: &[u8]) -> (result: Result<usize, StreamError>)
        requires
            old(self).stream().wf(),
        ensures
            final(self).same_pin(old(self)),
            final(self).stream().wf(),
            final(self).stream().growable() == old(self).stream().growable(),
            ({
                let before = old(self).stream();
                let wanted = buf@.len() as int;
                &&& before.overflows(wanted) ==> {
                    &&& result == Err::<usize, StreamError>(StreamError::InvalidInput)
                    &&& final(self).stream().bytes() == before.bytes()
                    &&& final(self).stream().pos() == before.pos()
                }
                &&& !before.overflows(wanted) ==> {
                    &&& result == Ok::<usize, StreamError>(before.writable(wanted) as usize)
                    &&& final(self).stream().bytes() == before.written(buf@)
                    &&& final(self).stream().pos() == before.pos() + before.writable(wanted)
                }
            }),
    {
        self.stream.write(buf)
    }

    /// Nothing is buffered: flushing changes nothing.
    pub fn flush(&mut self) -> (result: Result<(), StreamError>)
        ensures
            result is Ok,
            *final(self) == *old(self),
    {
        Ok(())
    }
}

} // verus!
