//! Fixed-width integers and padded fields as sequences of bytes.

use vstd::prelude::*;
use vstd::array::{spec_array_fill_for_copy_type, spec_array_update};

verus! {

broadcast use vstd::array::group_array_axioms;

/// An array whose first `count` elements are those of `s`.
pub open spec fn array_prefix_of<const N: usize>(s: Seq<u8>, count: nat) -> [u8; N]
    decreases count,
{
    if count == 0 {
        spec_array_fill_for_copy_type::<u8, N>(0u8)
    } else {
        spec_array_update(array_prefix_of::<N>(s, (count - 1) as nat), count - 1, s[count - 1])
    }
}

/// The array that holds the `N` bytes of `s`.
pub open spec fn array_of<const N: usize>(s: Seq<u8>) -> [u8; N] {
    array_prefix_of::<N>(s, N as nat)
}

proof fn lemma_array_prefix_of<const N: usize>(s: Seq<u8>, count: nat)
    requires
        count <= N,
        s.len() >= count,
    ensures
        forall|i: int| 0 <= i < count ==> array_prefix_of::<N>(s, count)@[i] == s[i],
    decreases count,
{
    if count > 0 {
        lemma_array_prefix_of::<N>(s, (count - 1) as nat);
        let previous = array_prefix_of::<N>(s, (count - 1) as nat);
        assert(spec_array_update(previous, count - 1, s[count - 1])@ == previous@.update(
            count - 1,
            s[count - 1],
        ));
    }
}

/// The array of a sequence of `N` bytes holds those bytes.
pub proof fn lemma_array_of<const N: usize>(s: Seq<u8>)
    requires
        s.len() == N,
    ensures
        array_of::<N>(s)@ == s,
{
    lemma_array_prefix_of::<N>(s, N as nat);
    assert(array_of::<N>(s)@ =~= s);
}

/// An array whose first `count` elements are those of `s`.
pub open spec fn array_prefix_of_seq<T: Copy, const N: usize>(s: Seq<T>, count: nat) -> [T; N]
    decreases count,
{
    if count == 0 {
        spec_array_fill_for_copy_type::<T, N>(s[0])
    } else {
        spec_array_update(
            array_prefix_of_seq::<T, N>(s, (count - 1) as nat),
            count - 1,
            s[count - 1],
        )
    }
}

/// The array that holds the `N` elements of `s`.
pub open spec fn array_of_seq<T: Copy, const N: usize>(s: Seq<T>) -> [T; N] {
    array_prefix_of_seq::<T, N>(s, N as nat)
}

proof fn lemma_array_prefix_of_seq<T: Copy, const N: usize>(s: Seq<T>, count: nat)
    requires
        count <= N,
        s.len() >= count,
    ensures
        forall|i: int| 0 <= i < count ==> array_prefix_of_seq::<T, N>(s, count)@[i] == s[i],
    decreases count,
{
    if count > 0 {
        lemma_array_prefix_of_seq::<T, N>(s, (count - 1) as nat);
        let previous = array_prefix_of_seq::<T, N>(s, (count - 1) as nat);
        assert(spec_array_update(previous, count - 1, s[count - 1])@ == previous@.update(
            count - 1,
            s[count - 1],
        ));
    }
}

/// The array of a sequence of `N` elements holds those elements.
pub proof fn lemma_array_of_seq<T: Copy, const N: usize>(s: Seq<T>)
    requires
        s.len() == N,
    ensures
        array_of_seq::<T, N>(s)@ == s,
{
    lemma_array_prefix_of_seq::<T, N>(s, N as nat);
    assert(array_of_seq::<T, N>(s)@ =~= s);
}

/// An array is the array of the elements that it holds.
pub proof fn lemma_array_of_seq_view<T: Copy, const N: usize>(a: [T; N])
    ensures
        array_of_seq::<T, N>(a@) == a,
{
    lemma_array_of_seq::<T, N>(a@);
    assert(array_of_seq::<T, N>(a@) =~= a);
}

/// An array is the array of the bytes that it holds.
pub proof fn lemma_array_of_view<const N: usize>(a: [u8; N])
    ensures
        array_of::<N>(a@) == a,
{
    lemma_array_of::<N>(a@);
    assert(array_of::<N>(a@) =~= a);
}

/// A part of a sequence that stands within a longer one stands there too.
pub proof fn lemma_embedded_part(bytes: Seq<u8>, pin: int, whole: Seq<u8>, offset: int, len: int)
    requires
        0 <= pin,
        pin + whole.len() <= bytes.len(),
        bytes.subrange(pin, pin + whole.len()) == whole,
        0 <= offset,
        0 <= len,
        offset + len <= whole.len(),
    ensures
        bytes.subrange(pin + offset, pin + offset + len) == whole.subrange(offset, offset + len),
{
    let stored = bytes.subrange(pin, pin + whole.len());
    let part = bytes.subrange(pin + offset, pin + offset + len);
    assert forall|i: int| 0 <= i < len implies #[trigger] part[i] == whole[offset + i] by {
        assert(stored[offset + i] == bytes[pin + (offset + i)]);
    }
    assert(part =~= whole.subrange(offset, offset + len));
}

/// A part of a part of a sequence is a part of the sequence.
pub proof fn lemma_subrange_of_subrange(s: Seq<u8>, from: int, to: int, offset: int, len: int)
    requires
        0 <= from <= to <= s.len(),
        0 <= offset,
        0 <= len,
        offset + len <= to - from,
    ensures
        s.subrange(from, to).subrange(offset, offset + len) == s.subrange(
            from + offset,
            from + offset + len,
        ),
{
    assert(s.subrange(from, to).subrange(offset, offset + len) =~= s.subrange(
        from + offset,
        from + offset + len,
    ));
}

/// The first of two joined sequences is the start of their join, and the
/// second its end.
pub proof fn lemma_parts_of_concat(first: Seq<u8>, second: Seq<u8>)
    ensures
        (first + second).subrange(0, first.len() as int) == first,
        (first + second).subrange(first.len() as int, (first + second).len() as int) == second,
{
    assert((first + second).subrange(0, first.len() as int) =~= first);
    assert((first + second).subrange(first.len() as int, (first + second).len() as int)
        =~= second);
}

/// Each of three joined sequences stands in their join behind those
/// before it.
pub proof fn lemma_parts_of_concat3(a: Seq<u8>, b: Seq<u8>, c: Seq<u8>)
    ensures
        (a + b + c).len() == a.len() + b.len() + c.len(),
        (a + b + c).subrange(0, a.len() as int) == a,
        (a + b + c).subrange(a.len() as int, (a.len() + b.len()) as int) == b,
        (a + b + c).subrange((a.len() + b.len()) as int, (a.len() + b.len() + c.len()) as int)
            == c,
{
    let whole = a + b + c;
    let i = a.len() as int;
    let j = i + b.len();
    let k = j + c.len();
    assert(whole.subrange(0, i) =~= a);
    assert(whole.subrange(i, j) =~= b);
    assert(whole.subrange(j, k) =~= c);
}

/// Each of four joined sequences stands in their join behind those before
/// it.
pub proof fn lemma_parts_of_concat4(a: Seq<u8>, b: Seq<u8>, c: Seq<u8>, d: Seq<u8>)
    ensures
        (a + b + c + d).len() == a.len() + b.len() + c.len() + d.len(),
        (a + b + c + d).subrange(0, a.len() as int) == a,
        (a + b + c + d).subrange(a.len() as int, (a.len() + b.len()) as int) == b,
        (a + b + c + d).subrange(
            (a.len() + b.len()) as int,
            (a.len() + b.len() + c.len()) as int,
        ) == c,
        (a + b + c + d).subrange(
            (a.len() + b.len() + c.len()) as int,
            (a.len() + b.len() + c.len() + d.len()) as int,
        ) == d,
{
    let whole = a + b + c + d;
    let i = a.len() as int;
    let j = i + b.len();
    let k = j + c.len();
    let l = k + d.len();
    assert(whole.subrange(0, i) =~= a);
    assert(whole.subrange(i, j) =~= b);
    assert(whole.subrange(j, k) =~= c);
    assert(whole.subrange(k, l) =~= d);
}

/// Where a sequence stands at `at` in a longer one, its byte at `offset`
/// stands at `at + offset`.
pub proof fn lemma_embedded_byte(bytes: Seq<u8>, at: int, part: Seq<u8>, offset: int)
    requires
        0 <= at,
        at + part.len() <= bytes.len(),
        bytes.subrange(at, at + part.len()) == part,
        0 <= offset < part.len(),
    ensures
        bytes[at + offset] == part[offset],
{
    assert(bytes.subrange(at, at + part.len())[offset] == bytes[at + offset]);
}

/// Parts appended one after the other are their join appended at once.
pub proof fn lemma_append_parts(base: Seq<u8>, a: Seq<u8>, b: Seq<u8>, c: Seq<u8>, d: Seq<u8>)
    ensures
        base + a + b == base + (a + b),
        base + a + b + c == base + (a + b + c),
        base + a + b + c + d == base + (a + b + c + d),
{
    assert(base + a + b =~= base + (a + b));
    assert(base + a + b + c =~= base + (a + b + c));
    assert(base + a + b + c + d =~= base + (a + b + c + d));
}

/// `n` zero bytes.
pub open spec fn zeros(n: int) -> Seq<u8> {
    Seq::new(
        if n < 0 {
            0nat
        } else {
            n as nat
        },
        |i: int| 0u8,
    )
}

/// The big-endian 16-bit integer stored at offset `i` of `s`.
pub open spec fn be_u16_at(s: Seq<u8>, i: int) -> u16 {
    (s[i] as int * 0x100 + s[i + 1] as int) as u16
}

/// The big-endian 32-bit integer stored at offset `i` of `s`.
pub open spec fn be_u32_at(s: Seq<u8>, i: int) -> u32 {
    (s[i] as int * 0x100_0000 + s[i + 1] as int * 0x1_0000 + s[i + 2] as int * 0x100 + s[i
        + 3] as int) as u32
}

/// The little-endian 32-bit integer stored at offset `i` of `s`.
pub open spec fn le_u32_at(s: Seq<u8>, i: int) -> u32 {
    (s[i + 3] as int * 0x100_0000 + s[i + 2] as int * 0x1_0000 + s[i + 1] as int * 0x100
        + s[i] as int) as u32
}

/// The big-endian 64-bit integer stored at offset `i` of `s`.
pub open spec fn be_u64_at(s: Seq<u8>, i: int) -> u64 {
    (be_u32_at(s, i) as int * 0x1_0000_0000 + be_u32_at(s, i + 4) as int) as u64
}

/// The little-endian 64-bit integer stored at offset `i` of `s`.
pub open spec fn le_u64_at(s: Seq<u8>, i: int) -> u64 {
    (le_u32_at(s, i + 4) as int * 0x1_0000_0000 + le_u32_at(s, i) as int) as u64
}

/// The two bytes of `x`, most significant first.
pub open spec fn u16_be_bytes(x: u16) -> Seq<u8> {
    seq![(x / 0x100) as u8, (x % 0x100) as u8]
}

/// The four bytes of `x`, most significant first.
pub open spec fn u32_be_bytes(x: u32) -> Seq<u8> {
    seq![
        (x / 0x100_0000) as u8,
        (x / 0x1_0000 % 0x100) as u8,
        (x / 0x100 % 0x100) as u8,
        (x % 0x100) as u8,
    ]
}

/// The four bytes of `x`, least significant first.
pub open spec fn u32_le_bytes(x: u32) -> Seq<u8> {
    seq![
        (x % 0x100) as u8,
        (x / 0x100 % 0x100) as u8,
        (x / 0x1_0000 % 0x100) as u8,
        (x / 0x100_0000) as u8,
    ]
}

/// The eight bytes of `x`, most significant first.
pub open spec fn u64_be_bytes(x: u64) -> Seq<u8> {
    u32_be_bytes((x / 0x1_0000_0000) as u32) + u32_be_bytes((x % 0x1_0000_0000) as u32)
}

/// Decoding undoes encoding, wherever the encoded integer lies in a longer
/// sequence.
pub proof fn lemma_be_u16_round_trip(s: Seq<u8>, i: int, x: u16)
    requires
        0 <= i,
        i + 2 <= s.len(),
        s.subrange(i, i + 2) == u16_be_bytes(x),
    ensures
        be_u16_at(s, i) == x,
{
    let t = s.subrange(i, i + 2);
    assert(t[0] == s[i] && t[1] == s[i + 1]);
}

/// Decoding undoes encoding, wherever the encoded integer lies in a longer
/// sequence.
#[verifier::rlimit(50)]
pub proof fn lemma_be_u32_round_trip(s: Seq<u8>, i: int, x: u32)
    requires
        0 <= i,
        i + 4 <= s.len(),
        s.subrange(i, i + 4) == u32_be_bytes(x),
    ensures
        be_u32_at(s, i) == x,
{
    let t = s.subrange(i, i + 4);
    assert(t[0] == s[i] && t[1] == s[i + 1] && t[2] == s[i + 2] && t[3] == s[i + 3]);
}

/// Decoding undoes encoding, wherever the encoded integer lies in a longer
/// sequence.
pub proof fn lemma_le_u32_round_trip(s: Seq<u8>, i: int, x: u32)
    requires
        0 <= i,
        i + 4 <= s.len(),
        s.subrange(i, i + 4) == u32_le_bytes(x),
    ensures
        le_u32_at(s, i) == x,
{
    let t = s.subrange(i, i + 4);
    assert(t[0] == s[i] && t[1] == s[i + 1] && t[2] == s[i + 2] && t[3] == s[i + 3]);
}

/// Decoding undoes encoding, wherever the encoded integer lies in a longer
/// sequence.
pub proof fn lemma_be_u64_round_trip(s: Seq<u8>, i: int, x: u64)
    requires
        0 <= i,
        i + 8 <= s.len(),
        s.subrange(i, i + 8) == u64_be_bytes(x),
    ensures
        be_u64_at(s, i) == x,
{
    let t = s.subrange(i, i + 8);
    let hi = (x / 0x1_0000_0000) as u32;
    let lo = (x % 0x1_0000_0000) as u32;
    assert(s.subrange(i, i + 4) =~= t.subrange(0, 4));
    assert(s.subrange(i + 4, i + 8) =~= t.subrange(4, 8));
    assert(t.subrange(0, 4) =~= u32_be_bytes(hi));
    assert(t.subrange(4, 8) =~= u32_be_bytes(lo));
    lemma_be_u32_round_trip(s, i, hi);
    lemma_be_u32_round_trip(s, i + 4, lo);
}

/// Encoding undoes decoding: the bytes that a 16-bit integer was read from
/// are the bytes that it is written as.
pub proof fn lemma_be_u16_bytes_of_decoded(s: Seq<u8>, i: int)
    requires
        0 <= i,
        i + 2 <= s.len(),
    ensures
        u16_be_bytes(be_u16_at(s, i)) == s.subrange(i, i + 2),
{
    assert(u16_be_bytes(be_u16_at(s, i)) =~= s.subrange(i, i + 2));
}

/// Encoding undoes decoding: the bytes that a big-endian 32-bit integer was
/// read from are the bytes that it is written as.
#[verifier::rlimit(50)]
pub proof fn lemma_be_u32_bytes_of_decoded(s: Seq<u8>, i: int)
    requires
        0 <= i,
        i + 4 <= s.len(),
    ensures
        u32_be_bytes(be_u32_at(s, i)) == s.subrange(i, i + 4),
{
    let a = s[i] as int;
    let b = s[i + 1] as int;
    let c = s[i + 2] as int;
    let d = s[i + 3] as int;
    let x = a * 0x100_0000 + b * 0x1_0000 + c * 0x100 + d;
    assert(x / 0x100_0000 == a);
    assert(x / 0x1_0000 == a * 0x100 + b);
    assert(x / 0x100 == a * 0x1_0000 + b * 0x100 + c);
    assert(u32_be_bytes(be_u32_at(s, i)) =~= s.subrange(i, i + 4));
}

/// Encoding undoes decoding: the bytes that a little-endian 32-bit integer
/// was read from are the bytes that it is written as.
pub proof fn lemma_le_u32_bytes_of_decoded(s: Seq<u8>, i: int)
    requires
        0 <= i,
        i + 4 <= s.len(),
    ensures
        u32_le_bytes(le_u32_at(s, i)) == s.subrange(i, i + 4),
{
    let a = s[i + 3] as int;
    let b = s[i + 2] as int;
    let c = s[i + 1] as int;
    let d = s[i] as int;
    let x = a * 0x100_0000 + b * 0x1_0000 + c * 0x100 + d;
    assert(x / 0x100_0000 == a);
    assert(x / 0x1_0000 == a * 0x100 + b);
    assert(x / 0x100 == a * 0x1_0000 + b * 0x100 + c);
    assert(u32_le_bytes(le_u32_at(s, i)) =~= s.subrange(i, i + 4));
}

/// Encoding undoes decoding: the bytes that a 64-bit integer was read from
/// are the bytes that it is written as.
pub proof fn lemma_be_u64_bytes_of_decoded(s: Seq<u8>, i: int)
    requires
        0 <= i,
        i + 8 <= s.len(),
    ensures
        u64_be_bytes(be_u64_at(s, i)) == s.subrange(i, i + 8),
{
    let x = be_u64_at(s, i);
    let hi = be_u32_at(s, i);
    let lo = be_u32_at(s, i + 4);
    assert((x / 0x1_0000_0000) as u32 == hi);
    assert((x % 0x1_0000_0000) as u32 == lo);
    lemma_be_u32_bytes_of_decoded(s, i);
    lemma_be_u32_bytes_of_decoded(s, i + 4);
    assert(u64_be_bytes(x) =~= s.subrange(i, i + 4) + s.subrange(i + 4, i + 8));
    assert(s.subrange(i, i + 4) + s.subrange(i + 4, i + 8) =~= s.subrange(i, i + 8));
}

/// The big-endian 16-bit integer at offset `i` of `bytes`.
pub fn decode_be_u16(bytes: &[u8], i: usize) -> (x: u16)
    requires
        i + 2 <= bytes@.len(),
    ensures
        x == be_u16_at(bytes@, i as int),
{
    let _len = bytes.len();
    (bytes[i] as u16) * 0x100 + (bytes[i + 1] as u16)
}

/// The big-endian 32-bit integer at offset `i` of `bytes`.
pub fn decode_be_u32(bytes: &[u8], i: usize) -> (x: u32)
    requires
        i + 4 <= bytes@.len(),
    ensures
        x == be_u32_at(bytes@, i as int),
{
    let _len = bytes.len();
    (bytes[i] as u32) * 0x100_0000 + (bytes[i + 1] as u32) * 0x1_0000 + (bytes[i + 2] as u32)
        * 0x100 + (bytes[i + 3] as u32)
}

/// The little-endian 32-bit integer at offset `i` of `bytes`.
pub fn decode_le_u32(bytes: &[u8], i: usize) -> (x: u32)
    requires
        i + 4 <= bytes@.len(),
    ensures
        x == le_u32_at(bytes@, i as int),
{
    let _len = bytes.len();
    (bytes[i + 3] as u32) * 0x100_0000 + (bytes[i + 2] as u32) * 0x1_0000 + (bytes[i
        + 1] as u32) * 0x100 + (bytes[i] as u32)
}

/// The big-endian 64-bit integer at offset `i` of `bytes`.
pub fn decode_be_u64(bytes: &[u8], i: usize) -> (x: u64)
    requires
        i + 8 <= bytes@.len(),
    ensures
        x == be_u64_at(bytes@, i as int),
{
    let _len = bytes.len();
    (decode_be_u32(bytes, i) as u64) * 0x1_0000_0000 + (decode_be_u32(bytes, i + 4) as u64)
}

/// The little-endian 64-bit integer at offset `i` of `bytes`.
pub fn decode_le_u64(bytes: &[u8], i: usize) -> (x: u64)
    requires
        i + 8 <= bytes@.len(),
    ensures
        x == le_u64_at(bytes@, i as int),
{
    let _len = bytes.len();
    (decode_le_u32(bytes, i + 4) as u64) * 0x1_0000_0000 + (decode_le_u32(bytes, i) as u64)
}

/// Append one byte.
pub fn push_u8(out: &mut Vec<u8>, x: u8)
    ensures
        final(out)@ == old(out)@ + seq![x],
{
    out.push(x);
    assert(out@ =~= old(out)@ + seq![x]);
}

/// Append `x`, most significant byte first.
pub fn push_u16_be(out: &mut Vec<u8>, x: u16)
    ensures
        final(out)@ == old(out)@ + u16_be_bytes(x),
{
    out.push((x / 0x100) as u8);
    out.push((x % 0x100) as u8);
    assert(out@ =~= old(out)@ + u16_be_bytes(x));
}

/// Append `x`, most significant byte first.
pub fn push_u32_be(out: &mut Vec<u8>, x: u32)
    ensures
        final(out)@ == old(out)@ + u32_be_bytes(x),
{
    out.push((x / 0x100_0000) as u8);
    out.push((x / 0x1_0000 % 0x100) as u8);
    out.push((x / 0x100 % 0x100) as u8);
    out.push((x % 0x100) as u8);
    assert(out@ =~= old(out)@ + u32_be_bytes(x));
}

/// Append `x`, least significant byte first.
pub fn push_u32_le(out: &mut Vec<u8>, x: u32)
    ensures
        final(out)@ == old(out)@ + u32_le_bytes(x),
{
    out.push((x % 0x100) as u8);
    out.push((x / 0x100 % 0x100) as u8);
    out.push((x / 0x1_0000 % 0x100) as u8);
    out.push((x / 0x100_0000) as u8);
    assert(out@ =~= old(out)@ + u32_le_bytes(x));
}

/// Append `x`, most significant byte first.
pub fn push_u64_be(out: &mut Vec<u8>, x: u64)
    ensures
        final(out)@ == old(out)@ + u64_be_bytes(x),
{
    let ghost before = out@;
    push_u32_be(out, (x / 0x1_0000_0000) as u32);
    push_u32_be(out, (x % 0x1_0000_0000) as u32);
    assert(out@ =~= before + u64_be_bytes(x));
}

/// Append `n` zero bytes.
pub fn push_zeros(out: &mut Vec<u8>, n: usize)
    ensures
        final(out)@ == old(out)@ + zeros(n as int),
{
    let ghost before = out@;
    let mut i: usize = 0;
    while i < n
        invariant
            i <= n,
            out@ == before + zeros(i as int),
        decreases n - i,
    {
        out.push(0u8);
        i += 1;
        assert(out@ =~= before + zeros(i as int));
    }
}

/// Append all of `bytes`.
pub fn push_bytes(out: &mut Vec<u8>, bytes: &[u8])
    ensures
        final(out)@ == old(out)@ + bytes@,
{
    out.extend_from_slice(bytes);
}

/// The first `N` bytes of `bytes` from offset `i` on, as an array.
pub fn array_at<const N: usize>(bytes: &[u8], i: usize) -> (a: [u8; N])
    requires
        i + N <= bytes@.len(),
    ensures
        a@ == bytes@.subrange(i as int, i + N),
        a == array_of::<N>(bytes@.subrange(i as int, i + N)),
{
    let _len = bytes.len();
    let mut a = [0u8; N];
    let mut k: usize = 0;
    while k < N
        invariant
            k <= N,
            i + N <= bytes@.len() <= usize::MAX,
            a@.len() == N,
            forall|j: int| 0 <= j < k ==> a@[j] == bytes@[i + j],
        decreases N - k,
    {
        a[k] = bytes[i + k];
        k += 1;
    }
    assert(a@ =~= bytes@.subrange(i as int, i + N));
    proof {
        lemma_array_of_view::<N>(a);
    }
    a
}

/// The offset of the first zero byte of `s`, or its length without one.
pub open spec fn first_nul(s: Seq<u8>) -> int
    decreases s.len(),
{
    if s.len() == 0 {
        0
    } else if s[0] == 0 {
        0
    } else {
        1 + first_nul(s.skip(1))
    }
}

/// The bytes of `s` before its first zero byte.
pub open spec fn until_nul(s: Seq<u8>) -> Seq<u8> {
    s.subrange(0, first_nul(s))
}

/// Whether `s` holds no zero byte.
pub open spec fn nul_free(s: Seq<u8>) -> bool {
    forall|i: int| 0 <= i < s.len() ==> s[i] != 0
}

/// `text` followed by zero bytes up to `width` bytes in all.
pub open spec fn padded(text: Seq<u8>, width: int) -> Seq<u8> {
    text + zeros(width - text.len())
}

/// The first zero byte lies within the sequence, and nothing before it is
/// zero.
pub proof fn lemma_first_nul(s: Seq<u8>)
    ensures
        0 <= first_nul(s) <= s.len(),
        first_nul(s) < s.len() ==> s[first_nul(s)] == 0,
        forall|i: int| 0 <= i < first_nul(s) ==> s[i] != 0,
    decreases s.len(),
{
    if s.len() > 0 && s[0] != 0 {
        let t = s.skip(1);
        lemma_first_nul(t);
        assert forall|i: int| 0 <= i < first_nul(s) implies s[i] != 0 by {
            if i > 0 {
                assert(t[i - 1] == s[i]);
            }
        }
        if first_nul(s) < s.len() {
            assert(t[first_nul(t)] == s[first_nul(s)]);
        }
    }
}

/// The position of the first zero byte is fixed by what stands before and at
/// it.
pub proof fn lemma_first_nul_is(s: Seq<u8>, n: int)
    requires
        0 <= n <= s.len(),
        forall|i: int| 0 <= i < n ==> s[i] != 0,
        n < s.len() ==> s[n] == 0,
    ensures
        first_nul(s) == n,
{
    lemma_first_nul(s);
    let f = first_nul(s);
    if f < n {
        assert(s[f] == 0);
    } else if f > n {
        assert(s[n] != 0);
    }
}

/// A text without zero bytes that fits its field is read back from the padded
/// field.
pub proof fn lemma_until_nul_of_padded(text: Seq<u8>, width: int)
    requires
        nul_free(text),
        text.len() <= width,
    ensures
        padded(text, width).len() == width,
        until_nul(padded(text, width)) == text,
{
    let p = padded(text, width);
    assert forall|i: int| 0 <= i < text.len() implies p[i] != 0 by {
        assert(p[i] == text[i]);
    }
    if text.len() < p.len() {
        assert(p[text.len() as int] == 0);
    }
    lemma_first_nul_is(p, text.len() as int);
    assert(p.subrange(0, text.len() as int) =~= text);
}

/// Whether `bytes` fits a field of `width` bytes and holds no zero byte.
pub fn fits_field(bytes: &[u8], width: usize) -> (fits: bool)
    ensures
        fits == (bytes@.len() <= width && nul_free(bytes@)),
{
    if bytes.len() > width {
        return false;
    }
    let end = find_nul(bytes);
    proof {
        lemma_first_nul(bytes@);
    }
    end == bytes.len()
}

/// The offset of the first zero byte of `bytes`, or its length without one.
pub fn find_nul(bytes: &[u8]) -> (n: usize)
    ensures
        n == first_nul(bytes@),
{
    let mut i: usize = 0;
    while i < bytes.len()
        invariant
            i <= bytes@.len(),
            forall|j: int| 0 <= j < i ==> bytes@[j] != 0,
        decreases bytes@.len() - i,
    {
        if bytes[i] == 0 {
            proof {
                lemma_first_nul_is(bytes@, i as int);
            }
            return i;
        }
        i += 1;
    }
    proof {
        lemma_first_nul_is(bytes@, i as int);
    }
    i
}

/// Append `text` and zero bytes up to `width` bytes in all.
pub fn push_padded(out: &mut Vec<u8>, text: &[u8], width: usize)
    requires
        text@.len() <= width,
    ensures
        final(out)@ == old(out)@ + padded(text@, width as int),
{
    let ghost before = out@;
    push_bytes(out, text);
    push_zeros(out, width - text.len());
    assert(out@ =~= before + padded(text@, width as int));
}

} // verus!
