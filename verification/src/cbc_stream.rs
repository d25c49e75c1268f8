//! A stream of bytes encrypted with AES-128 in CBC mode.

use vstd::prelude::*;
use crate::align::{ceil_align, floor_align, lemma_ceil_align};
use crate::bytes::zeros;
use crate::crypto::{
    aes128_cbc_decrypt, aes128_cbc_decrypted, aes128_cbc_encrypt, aes128_cbc_encrypted,
};
use crate::stream::{clipped, SeekFrom, StreamError};
use crate::stream_view::StreamView;

verus! {

/// The length of a block of the cipher.
pub const BLOCK: u64 = 16;

/// A view of ciphertext that reads as plaintext.
///
/// The key and the initialisation vector are those of the first byte of the
/// view and stay as they are: every read decrypts the blocks that it
/// touches as if they were the first of the view, and every write encrypts
/// its buffer so. A view for other content needs another stream.
pub struct AesCbcStream {
    stream: StreamView,
    key: [u8; 16],
    iv: [u8; 16],
}

/// The ciphertext that a read of `len` bytes at `at` within the view
/// decrypts: the bytes that the view has from there on, and zeros in place
/// of those that it lacks.
pub open spec fn spec_window(view: StreamView, at: int, len: int) -> Seq<u8> {
    let allowed = if at >= view.length() {
        0
    } else if len <= view.length() - at {
        len
    } else {
        view.length() - at
    };
    let count = clipped(view.inner().size(), view.start() + at, allowed);
    (if count > 0 {
        view.inner().bytes().subrange(view.start() + at, view.start() + at + count)
    } else {
        Seq::empty()
    }) + zeros(len - count)
}

/// How many bytes of the window of a read the view has.
pub open spec fn spec_window_count(view: StreamView, at: int, len: int) -> int {
    let allowed = if at >= view.length() {
        0
    } else if len <= view.length() - at {
        len
    } else {
        view.length() - at
    };
    clipped(view.inner().size(), view.start() + at, allowed)
}

/// Copy `count` bytes of `source` from offset `skip` on to the start of
/// `buf`.
fn copy_part(buf: &mut Vec<u8>, source: &Vec<u8>, skip: usize, count: usize)
    requires
        count <= old(buf)@.len(),
        skip + count <= source@.len(),
    ensures
        final(buf)@ == source@.subrange(skip as int, skip + count) + old(buf)@.subrange(
            count as int,
            old(buf)@.len() as int,
        ),
{
    let ghost before = buf@;
    let _len = source.len();
    let mut i: usize = 0;
    while i < count
        invariant
            i <= count,
            count <= before.len(),
            buf@.len() == before.len(),
            skip + count <= source@.len() <= usize::MAX,
            forall|j: int| 0 <= j < i ==> buf@[j] == source@[skip + j],
            forall|j: int| i <= j < buf@.len() ==> buf@[j] == before[j],
        decreases count - i,
    {
        buf.set(i, source[skip + i]);
        i += 1;
    }
    assert(buf@ =~= source@.subrange(skip as int, skip + count) + before.subrange(
        count as int,
        before.len() as int,
    ));
}

impl AesCbcStream {
    /// The view of the ciphertext.
    pub closed spec fn stream(&self) -> StreamView {
        self.stream
    }

    /// The key.
    pub closed spec fn key(&self) -> Seq<u8> {
        self.key@
    }

    /// The initialisation vector.
    pub closed spec fn iv(&self) -> Seq<u8> {
        self.iv@
    }

    /// The view of the ciphertext is well formed.
    pub open spec fn wf(&self) -> bool {
        self.stream().wf()
    }

    /// The key and the vector stay as they are, and so does the window of
    /// the view.
    pub open spec fn same_cipher(&self, other: &AesCbcStream) -> bool {
        &&& self.key() == other.key()
        &&& self.iv() == other.iv()
        &&& self.stream().same_window(&other.stream())
    }

    /// Create a new stream over `stream`.
    pub fn new(stream: StreamView, key: [u8; 16], iv: [u8; 16]) -> (result: Result<
        Self,
        StreamError,
    >)
        ensures
            result is Ok,
            result.unwrap().stream() == stream,
            result.unwrap().key() == key@,
            result.unwrap().iv() == iv@,
    {
        Ok(AesCbcStream { stream, key, iv })
    }

    /// Get the stored stream.
    pub fn into_inner(self) -> (stream: StreamView)
        ensures
            stream == self.stream(),
    {
        self.stream
    }

    /// How many bytes a read into a buffer of `wanted` bytes delivers: as
    /// many as the view has from its position on.
    pub open spec fn spec_read_count(&self, wanted: int) -> int {
        clipped(self.stream().length(), self.stream().relative(), wanted)
    }

    /// Where the window of a read begins: at the block that holds the
    /// position.
    pub open spec fn spec_window_start(&self) -> int {
        floor_align(self.stream().relative(), BLOCK as int)
    }

    /// How long the window of a read is: from its start to the end of the
    /// last block that the read touches.
    pub open spec fn spec_window_len(&self, wanted: int) -> int {
        ceil_align(
            self.stream().relative() - self.spec_window_start() + self.spec_read_count(wanted),
            BLOCK as int,
        )
    }

    /// The plaintext of the window of a read.
    pub open spec fn spec_plain_window(&self, wanted: int) -> Seq<u8> {
        aes128_cbc_decrypted(
            self.key(),
            self.iv(),
            spec_window(self.stream(), self.spec_window_start(), self.spec_window_len(wanted)),
        )
    }

    /// The plaintext that a read into a buffer of `wanted` bytes delivers.
    pub open spec fn spec_read(&self, wanted: int) -> Seq<u8> {
        let skip = self.stream().relative() - self.spec_window_start();
        self.spec_plain_window(wanted).subrange(skip, skip + self.spec_read_count(wanted))
    }

    /// Where the window of a read into a buffer of `wanted` bytes begins,
    /// how far into it the read begins, how many bytes the read delivers and
    /// how long the window is; nothing where the window is longer than
    /// memory can address.
    fn plan(&self, wanted: usize) -> (plan: Option<(u64, usize, usize, usize)>)
        requires
            self.wf(),
        ensures
            match plan {
                None => self.spec_window_len(wanted as int) > usize::MAX,
                Some((start, skip, count, len)) => {
                    &&& start == self.spec_window_start()
                    &&& skip == self.stream().relative() - start
                    &&& count == self.spec_read_count(wanted as int)
                    &&& len == self.spec_window_len(wanted as int)
                    &&& skip + count <= len
                    &&& len % 16 == 0
                    &&& start <= self.stream().relative()
                },
            },
    {
        let position = self.stream.stream_position();
        let stream_len = self.stream.len() as u64;
        let start_position = position - position % BLOCK;
        let start_padding = position - start_position;
        let buf_len = if position >= stream_len {
            0
        } else if wanted as u64 <= stream_len - position {
            wanted as u64
        } else {
            stream_len - position
        };
        proof {
            lemma_ceil_align((start_padding + buf_len) as int, 16);
        }
        let covered = start_padding + buf_len;
        if covered > u64::MAX - 15 {
            return None;
        }
        let len = if covered == 0 {
            0
        } else {
            covered + (BLOCK - covered % BLOCK) % BLOCK
        };
        if len > usize::MAX as u64 {
            return None;
        }
        Some((start_position, start_padding as usize, buf_len as usize, len as usize))
    }

    /// Read the ciphertext of the window of `len` bytes at `start` within the
    /// view, with zeros in place of what the view lacks.
    fn read_window(&mut self, start: u64, len: usize) -> (window: Vec<u8>)
        requires
            old(self).wf(),
            start <= old(self).stream().relative(),
        ensures
            final(self).wf(),
            final(self).same_cipher(old(self)),
            final(self).stream().inner().same_content(&old(self).stream().inner()),
            window@ == spec_window(old(self).stream(), start as int, len as int),
            window@.len() == len,
            final(self).stream().relative() == start + spec_window_count(
                old(self).stream(),
                start as int,
                len as int,
            ),
    {
        let _ = self.stream.seek(SeekFrom::Start(start));
        let mut window: Vec<u8> = Vec::new();
        crate::bytes::push_zeros(&mut window, len);
        let _ = self.stream.read(&mut window);
        assert(window@ =~= spec_window(old(self).stream(), start as int, len as int));
        window
    }

    /// Read plaintext into `buf`, as far as the view reaches from its
    /// position on, and return how many bytes were read. The blocks that
    /// the read touches are decrypted with the key and the vector of the
    /// stream; the view is left behind the ciphertext that was taken for
    /// that. A window that is longer than memory can address is refused.
    pub fn read(&mut self, buf: &mut Vec<u8>) -> (result: Result<usize, StreamError>)
        requires
            old(self).wf(),
        ensures
            final(self).wf(),
            final(self).same_cipher(old(self)),
            final(self).stream().inner().same_content(&old(self).stream().inner()),
            final(buf)@.len() == old(buf)@.len(),
            ({
                let wanted = old(buf)@.len() as int;
                let count = old(self).spec_read_count(wanted);
                let start = old(self).spec_window_start();
                let len = old(self).spec_window_len(wanted);
                let window = spec_window(old(self).stream(), start, len);
                if len > usize::MAX {
                    &&& result == Err::<usize, StreamError>(StreamError::InvalidInput)
                    &&& final(buf)@ == old(buf)@
                    &&& final(self).stream().inner().pos() == old(self).stream().inner().pos()
                } else {
                    &&& result == Ok::<usize, StreamError>(count as usize)
                    &&& 0 <= count <= wanted
                    &&& old(self).spec_read(wanted).len() == count
                    &&& final(buf)@ == old(self).spec_read(wanted) + old(buf)@.subrange(
                        count,
                        wanted,
                    )
                    &&& final(self).stream().relative() == start + spec_window_count(
                        old(self).stream(),
                        start,
                        len,
                    )
                    &&& aes128_cbc_encrypted(
                        old(self).key(),
                        old(self).iv(),
                        old(self).spec_plain_window(wanted),
                    ) == window
                }
            }),
    {
        let (start, skip, count, len) = match self.plan(buf.len()) {
            Some(plan) => plan,
            None => return Err(StreamError::InvalidInput),
        };
        let encrypted_buffer = self.read_window(start, len);
        let decrypted_buffer = match aes128_cbc_decrypt(
            &self.key,
            &self.iv,
            encrypted_buffer.as_slice(),
        ) {
            Ok(decrypted_buffer) => decrypted_buffer,
            Err(_) => return Err(StreamError::Cipher),
        };
        copy_part(buf, &decrypted_buffer, skip, count);
        Ok(count)
    }

    /// Encrypt `buf` with the key and the vector of the stream and write the
    /// ciphertext at the position of the view, as far as the view reaches.
    /// The buffer has to be a whole number of blocks. It is encrypted as a
    /// whole, so it cannot be written in parts.
    pub fn write(&mut self, buf: &[u8]) -> (result: Result<usize, StreamError>)
        requires
            old(self).wf(),
        ensures
            final(self).wf(),
            final(self).same_cipher(old(self)),
            final(self).stream().inner().growable() == old(self).stream().inner().growable(),
            ({
                let view = old(self).stream();
                let inner = view.inner();
                let cipher = aes128_cbc_encrypted(old(self).key(), old(self).iv(), buf@);
                let allowed = view.allowed(buf@.len() as int);
                if buf@.len() % 16 != 0 {
                    &&& result == Err::<usize, StreamError>(StreamError::Cipher)
                    &&& final(self).stream().inner() == inner
                } else if inner.overflows(allowed) {
                    &&& result == Err::<usize, StreamError>(StreamError::InvalidInput)
                    &&& final(self).stream().inner().bytes() == inner.bytes()
                    &&& final(self).stream().inner().pos() == inner.pos()
                } else {
                    &&& result == Ok::<usize, StreamError>(inner.writable(allowed) as usize)
                    &&& final(self).stream().inner().bytes() == inner.written(
                        cipher.subrange(0, allowed),
                    )
                    &&& final(self).stream().inner().pos() == inner.pos() + inner.writable(allowed)
                    &&& cipher.len() == buf@.len()
                    &&& aes128_cbc_decrypted(old(self).key(), old(self).iv(), cipher) == buf@
                }
            }),
    {
        let encrypted_buffer = match aes128_cbc_encrypt(&self.key, &self.iv, buf) {
            Ok(encrypted_buffer) => encrypted_buffer,
            Err(_) => return Err(StreamError::Cipher),
        };
        self.stream.write(encrypted_buffer.as_slice())
    }

    /// Seek as the view does.
    pub fn seek(&mut self, from: SeekFrom) -> (result: Result<u64, StreamError>)
        requires
            old(self).wf(),
        ensures
            final(self).wf(),
            final(self).same_cipher(old(self)),
            final(self).stream().inner().same_content(&old(self).stream().inner()),
            ({
                let target = old(self).stream().target(from);
                if old(self).stream().start() <= target <= u64::MAX {
                    &&& result == Ok::<u64, StreamError>(
                        (target - old(self).stream().start()) as u64,
                    )
                    &&& final(self).stream().inner().pos() == target
                } else {
                    &&& result == Err::<u64, StreamError>(StreamError::InvalidSeek)
                    &&& final(self).stream().inner().pos() == old(self).stream().inner().pos()
                }
            }),
    {
        self.stream.seek(from)
    }
}

/// Reading an aligned region of a stream and writing the plaintext back at
/// the same place, with the same key and vector, leaves the ciphertext as
/// it was.
///
/// `plain` is what the read delivered: the plaintext of `cipher`, which
/// encrypts to `cipher` again.
pub proof fn lemma_read_then_write_restores(
    bytes: Seq<u8>,
    at: int,
    key: Seq<u8>,
    iv: Seq<u8>,
    plain: Seq<u8>,
)
    requires
        0 <= at,
        at + plain.len() <= bytes.len(),
        plain == aes128_cbc_decrypted(key, iv, bytes.subrange(at, at + plain.len())),
        aes128_cbc_encrypted(key, iv, plain) == bytes.subrange(at, at + plain.len()),
    ensures
        crate::stream::spec_write(bytes, at, aes128_cbc_encrypted(key, iv, plain)) == bytes,
{
    let cipher = aes128_cbc_encrypted(key, iv, plain);
    assert forall|i: int| 0 <= i < cipher.len() implies cipher[i] == bytes[at + i] by {
        assert(bytes.subrange(at, at + plain.len())[i] == bytes[at + i]);
    }
    assert(crate::stream::spec_write(bytes, at, cipher) =~= bytes);
}

} // verus!
