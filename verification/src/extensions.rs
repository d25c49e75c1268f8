//! Reading and writing of booleans, zero bytes, padded fields and
//! null-terminated strings.

use vstd::prelude::*;
use vstd::utf8::{decode_utf8, encode_utf8, valid_utf8};
use crate::bytes::{
    find_nul, lemma_first_nul, nul_free, padded, push_bytes, push_padded, push_zeros, until_nul,
    zeros,
};
use crate::stream::{Stream, StreamError};

verus! {

/// The boolean that a byte stands for: 0 and 1 do, no other byte does.
pub open spec fn bool_of_byte(byte: u8) -> Option<bool> {
    if byte == 0 {
        Some(false)
    } else if byte == 1 {
        Some(true)
    } else {
        None
    }
}

/// The byte that a boolean is written as.
pub open spec fn byte_of_bool(value: bool) -> u8 {
    if value {
        1
    } else {
        0
    }
}

/// Reading beyond plain bytes from a source of bytes.
pub trait ReadEx {
    /// The byte that the next read delivers, if any is left.
    spec fn next_byte(&self) -> Option<u8>;

    /// Read a boolean stored as one byte. Without a byte left the read fails
    /// with `UnexpectedEof`, on a byte other than 0 and 1 with `InvalidData`.
    fn read_bool(&mut self) -> (result: Result<bool, StreamError>)
        ensures
            result == match old(self).next_byte() {
                None => Err::<bool, StreamError>(StreamError::UnexpectedEof),
                Some(byte) => match bool_of_byte(byte) {
                    Some(value) => Ok::<bool, StreamError>(value),
                    None => Err::<bool, StreamError>(StreamError::InvalidData),
                },
            },
    ;
}

impl ReadEx for Stream {
    open spec fn next_byte(&self) -> Option<u8> {
        if self.can_read(1) {
            Some(self.bytes()[self.pos() as int])
        } else {
            None
        }
    }

    fn read_bool(&mut self) -> (result: Result<bool, StreamError>)
        ensures
            final(self).same_content(old(self)),
            final(self).pos() == if old(self).can_read(1) {
                old(self).pos() + 1
            } else {
                old(self).size()
            },
    {
        match self.read_u8() {
            Ok(byte) => {
                if byte == 0 {
                    Ok(false)
                } else if byte == 1 {
                    Ok(true)
                } else {
                    Err(StreamError::InvalidData)
                }
            },
            Err(error) => Err(error),
        }
    }
}

/// Writing beyond plain bytes to a sink of bytes.
pub trait WriteEx {
    /// Whether the sink is in a state in which it can be written to.
    spec fn ready(&self) -> bool;

    /// Write `number_of_zeroes` zero bytes.
    fn write_zeroed(&mut self, number_of_zeroes: usize) -> (result: Result<(), StreamError>)
        requires
            old(self).ready(),
        ensures
            final(self).ready(),
    ;

    /// Write `buffer`, then zero bytes up to `padding` bytes in all.
    fn write_bytes_padded(&mut self, buffer: &[u8], padding: usize) -> (result: Result<
        (),
        StreamError,
    >)
        requires
            old(self).ready(),
            buffer@.len() <= padding,
        ensures
            final(self).ready(),
    ;

    /// Write a boolean as one byte, 1 for true and 0 for false.
    fn write_bool(&mut self, value: bool) -> (result: Result<(), StreamError>)
        requires
            old(self).ready(),
        ensures
            final(self).ready(),
    ;
}

/// What `write_all` leaves of a stream and returns, stated once for the
/// three writers of `WriteEx` on `Stream`.
pub open spec fn wrote_all(
    before: Stream,
    after: Stream,
    data: Seq<u8>,
    result: Result<(), StreamError>,
) -> bool {
    &&& after.growable() == before.growable()
    &&& before.overflows(data.len() as int) ==> {
        &&& result == Err::<(), StreamError>(StreamError::InvalidInput)
        &&& after.bytes() == before.bytes()
        &&& after.pos() == before.pos()
    }
    &&& !before.overflows(data.len() as int) ==> {
        &&& after.bytes() == before.written(data)
        &&& after.pos() == before.pos() + before.writable(data.len() as int)
        &&& result == if before.writable(data.len() as int) == data.len() {
            Ok::<(), StreamError>(())
        } else {
            Err::<(), StreamError>(StreamError::WriteZero)
        }
    }
}

impl WriteEx for Stream {
    open spec fn ready(&self) -> bool {
        self.wf()
    }

    fn write_zeroed(&mut self, number_of_zeroes: usize) -> (result: Result<(), StreamError>)
        ensures
            wrote_all(*old(self), *final(self), zeros(number_of_zeroes as int), result),
    {
        self.write_zeros(number_of_zeroes)
    }

    fn write_bytes_padded(&mut self, buffer: &[u8], padding: usize) -> (result: Result<
        (),
        StreamError,
    >)
        ensures
            wrote_all(*old(self), *final(self), padded(buffer@, padding as int), result),
    {
        let mut field: Vec<u8> = Vec::new();
        push_padded(&mut field, buffer, padding);
        assert(field@ =~= padded(buffer@, padding as int));
        self.write_all(field.as_slice())
    }

    fn write_bool(&mut self, value: bool) -> (result: Result<(), StreamError>)
        ensures
            wrote_all(*old(self), *final(self), seq![byte_of_bool(value)], result),
    {
        let mut field: Vec<u8> = Vec::new();
        field.push(if value {
            1u8
        } else {
            0u8
        });
        assert(field@ =~= seq![byte_of_bool(value)]);
        self.write_all(field.as_slice())
    }
}

impl WriteEx for Vec<u8> {
    open spec fn ready(&self) -> bool {
        true
    }

    fn write_zeroed(&mut self, number_of_zeroes: usize) -> (result: Result<(), StreamError>)
        ensures
            result is Ok,
            final(self)@ == old(self)@ + zeros(number_of_zeroes as int),
    {
        push_zeros(self, number_of_zeroes);
        Ok(())
    }

    fn write_bytes_padded(&mut self, buffer: &[u8], padding: usize) -> (result: Result<
        (),
        StreamError,
    >)
        ensures
            result is Ok,
            final(self)@ == old(self)@ + padded(buffer@, padding as int),
    {
        push_padded(self, buffer, padding);
        Ok(())
    }

    fn write_bool(&mut self, value: bool) -> (result: Result<(), StreamError>)
        ensures
            result is Ok,
            final(self)@ == old(self)@ + seq![byte_of_bool(value)],
    {
        self.push(if value {
            1u8
        } else {
            0u8
        });
        assert(self@ =~= old(self)@ + seq![byte_of_bool(value)]);
        Ok(())
    }
}

/// Bytes that were taken for text are not UTF-8.
#[derive(Clone, Copy, Debug, PartialEq, Eq, Structural)]
pub struct Utf8Error;

/// `String::from_utf8` of the standard library: the bytes become a string if
/// and only if they are valid UTF-8, and the string then holds the
/// characters that they encode.
#[verifier::external_body]
pub(crate) fn string_from_utf8(bytes: Vec<u8>) -> (text: Option<String>)
    ensures
        text is Some <==> valid_utf8(bytes@),
        text is Some ==> text.unwrap()@ == decode_utf8(bytes@),
{
    match String::from_utf8(bytes) {
        Ok(text) => Some(text),
        Err(_) => None,
    }
}

/// The text of a null-terminated field: the characters that the bytes before
/// the first zero byte encode, if those bytes are valid UTF-8.
pub open spec fn spec_null_terminated(field: Seq<u8>) -> Option<Seq<char>> {
    if valid_utf8(until_nul(field)) {
        Some(decode_utf8(until_nul(field)))
    } else {
        None
    }
}

/// The text of a null-terminated field fits the field and holds no zero
/// byte: it is encoded as the bytes before the first zero byte.
pub proof fn lemma_null_terminated_fits(field: Seq<u8>)
    requires
        spec_null_terminated(field) is Some,
    ensures
        encode_utf8(spec_null_terminated(field).unwrap()) == until_nul(field),
        encode_utf8(spec_null_terminated(field).unwrap()).len() <= field.len(),
        nul_free(encode_utf8(spec_null_terminated(field).unwrap())),
{
    lemma_first_nul(field);
    vstd::utf8::decode_utf8_encode_utf8(until_nul(field));
}

/// Making strings from fields of bytes.
pub trait StringEx {
    /// Make a string from a null-terminated field: the bytes before the first
    /// zero byte, all of them without one, read as UTF-8.
    fn from_null_terminated_bytes(buffer: &[u8]) -> (result: Result<String, Utf8Error>)
        ensures
            match spec_null_terminated(buffer@) {
                Some(text) => result is Ok && result.unwrap()@ == text,
                None => result is Err,
            },
    ;
}

impl StringEx for String {
    fn from_null_terminated_bytes(buffer: &[u8]) -> (result: Result<String, Utf8Error>) {
        let end = find_nul(buffer);
        proof {
            crate::bytes::lemma_first_nul(buffer@);
        }
        let mut text: Vec<u8> = Vec::new();
        let mut i: usize = 0;
        while i < end
            invariant
                i <= end <= buffer@.len(),
                text@ == buffer@.subrange(0, i as int),
            decreases end - i,
        {
            text.push(buffer[i]);
            i += 1;
            assert(text@ =~= buffer@.subrange(0, i as int));
        }
        match string_from_utf8(text) {
            Some(string) => Ok(string),
            None => Err(Utf8Error),
        }
    }
}

} // verus!
