//! A bounded view of a stream that can put the stream's position back.

use vstd::prelude::*;
use crate::stream::{clipped, SeekFrom, Stream, StreamError};
use crate::stream_view::StreamView;

verus! {

/// Like `StreamView`, but remembers the position at which the stream stood and
/// puts it back when the view is taken apart with `into_view` or
/// `into_inner`.
pub struct RecallView {
    view: StreamView,
    recalled_position: u64,
}

impl RecallView {
    /// The view that is wrapped.
    pub closed spec fn inner_view(&self) -> StreamView {
        self.view
    }

    /// The position within the view that is recalled.
    pub closed spec fn recalled(&self) -> u64 {
        self.recalled_position
    }

    /// The wrapped view is well formed, and so is the recalled position.
    pub open spec fn wf(&self) -> bool {
        &&& self.inner_view().wf()
        &&& self.inner_view().start() + self.recalled() <= u64::MAX
    }

    /// A view of the `len` bytes from the stream's position on.
    pub fn new(stream: Stream, len: usize) -> (result: Result<RecallView, StreamError>)
        requires
            len > 0,
            stream.wf(),
        ensures
            result is Ok,
            result.unwrap().wf(),
            result.unwrap().inner_view().inner() == stream,
            result.unwrap().inner_view().start() == stream.pos(),
            result.unwrap().inner_view().length() == len,
            result.unwrap().recalled() == 0,
    {
        match StreamView::new(stream, len) {
            Ok(view) => {
                let recalled_position = view.stream_position();
                Ok(RecallView { view, recalled_position })
            },
            Err(error) => Err(error),
        }
    }

    /// Put the stream back to the position at which the view was made.
    pub fn reset_position(&mut self) -> (result: Result<(), StreamError>)
        requires
            old(self).wf(),
        ensures
            result is Ok,
            final(self).wf(),
            final(self).recalled() == old(self).recalled(),
            final(self).inner_view().same_window(&old(self).inner_view()),
            final(self).inner_view().inner().same_content(&old(self).inner_view().inner()),
            final(self).inner_view().inner().pos() == old(self).inner_view().start() + old(self).recalled(),
    {
        match self.view.seek(SeekFrom::Start(self.recalled_position)) {
            Ok(_) => Ok(()),
            Err(error) => Err(error),
        }
    }

    /// Put the position back and give the wrapped view.
    pub fn into_view(self) -> (result: Result<StreamView, StreamError>)
        requires
            self.wf(),
        ensures
            result is Ok,
            result.unwrap().wf(),
            result.unwrap().same_window(&self.inner_view()),
            result.unwrap().inner().same_content(&self.inner_view().inner()),
            result.unwrap().inner().pos() == self.inner_view().start() + self.recalled(),
    {
        let mut this = self;
        match this.reset_position() {
            Ok(()) => Ok(this.into_view_no_reset()),
            Err(error) => Err(error),
        }
    }

    /// Put the position back and give the stream.
    pub fn into_inner(self) -> (result: Result<Stream, StreamError>)
        requires
            self.wf(),
        ensures
            result is Ok,
            result.unwrap().same_content(&self.inner_view().inner()),
            result.unwrap().pos() == self.inner_view().start() + self.recalled(),
    {
        match self.into_view() {
            Ok(view) => Ok(view.into_inner()),
            Err(error) => Err(error),
        }
    }

    /// Give the wrapped view, with the stream where it stands.
    pub fn into_view_no_reset(self) -> (view: StreamView)
        ensures
            view == self.inner_view(),
    {
        self.view
    }

    /// Give the stream, where it stands.
    pub fn into_inner_no_reset(self) -> (stream: Stream)
        ensures
            stream == self.inner_view().inner(),
    {
        self.into_view_no_reset().into_inner()
    }

    /// Read as `StreamView::read` does.
    pub fn read(&mut self, buf: &mut Vec<u8>) -> (result: Result<usize, StreamError>)
        requires
            old(self).wf(),
        ensures
            final(self).wf(),
            final(self).recalled() == old(self).recalled(),
            final(self).inner_view().same_window(&old(self).inner_view()),
            final(self).inner_view().inner().same_content(&old(self).inner_view().inner()),
            ({
                let count = clipped(
                    old(self).inner_view().inner().size(),
                    old(self).inner_view().inner().pos() as int,
                    old(self).inner_view().allowed(old(buf)@.len() as int),
                );
                &&& result == Ok::<usize, StreamError>(count as usize)
                &&& final(self).inner_view().inner().pos() == old(self).inner_view().inner().pos() + count
                &&& final(buf)@ == old(self).inner_view().inner().window(count) + old(buf)@.subrange(
                    count,
                    old(buf)@.len() as int,
                )
            }),
    {
        self.view.read(buf)
    }

    /// Write as `StreamView::write` does.
    pub fn write(&mut self, buf: &[u8]) -> (result: Result<usize, StreamError>)
        requires
            old(self).wf(),
        ensures
            final(self).wf(),
            final(self).recalled() == old(self).recalled(),
            final(self).inner_view().same_window(&old(self).inner_view()),
            final(self).inner_view().inner().growable() == old(self).inner_view().inner().growable(),
            ({
                let inner = old(self).inner_view().inner();
                let allowed = old(self).inner_view().allowed(buf@.len() as int);
                let passed = buf@.subrange(0, allowed);
                &&& inner.overflows(allowed) ==> {
                    &&& result == Err::<usize, StreamError>(StreamError::InvalidInput)
                    &&& final(self).inner_view().inner().bytes() == inner.bytes()
                    &&& final(self).inner_view().inner().pos() == inner.pos()
                }
                &&& !inner.overflows(allowed) ==> {
                    &&& result == Ok::<usize, StreamError>(inner.writable(allowed) as usize)
                    &&& final(self).inner_view().inner().bytes() == inner.written(passed)
                    &&& final(self).inner_view().inner().pos() == inner.pos() + inner.writable(allowed)
                }
            }),
    {
        self.view.write(buf)
    }

    /// Nothing is buffered: flushing changes nothing.
    pub fn flush(&mut self) -> (result: Result<(), StreamError>)
        ensures
            result is Ok,
            *final(self) == *old(self),
    {
        Ok(())
    }

    /// Seek as `StreamView::seek` does.
    pub fn seek(&mut self, from: SeekFrom) -> (result: Result<u64, StreamError>)
        requires
            old(self).wf(),
        ensures
            final(self).wf(),
            final(self).recalled() == old(self).recalled(),
            final(self).inner_view().same_window(&old(self).inner_view()),
            final(self).inner_view().inner().same_content(&old(self).inner_view().inner()),
            ({
                let target = old(self).inner_view().target(from);
                if old(self).inner_view().start() <= target <= u64::MAX {
                    &&& result == Ok::<u64, StreamError>(
                        (target - old(self).inner_view().start()) as u64,
                    )
                    &&& final(self).inner_view().inner().pos() == target
                } else {
                    &&& result == Err::<u64, StreamError>(StreamError::InvalidSeek)
                    &&& final(self).inner_view().inner().pos() == old(self).inner_view().inner().pos()
                }
            }),
    {
        self.view.seek(from)
    }
}

} // verus!
