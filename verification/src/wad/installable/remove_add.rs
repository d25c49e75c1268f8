//! Taking the last content out of a WAD and putting it in again leaves the
//! stream as it was.

use vstd::prelude::*;
use crate::align::lemma_ceil_align;
use crate::stream::{lemma_written_part, spec_write, StreamError, StreamState, STREAM_LIMIT};
use crate::title_metadata::{TitleMetadataContentEntry, TitleMetadataView};
use crate::wad::installable::consistency::{
    lemma_content_section, lemma_store_in_full, spec_contents_in_full, spec_holds,
    spec_holds_content, spec_holds_layout, spec_sections,
};
use crate::title_metadata::content_selector::{spec_select, ContentSelectorMethod};
use crate::title_metadata::MAX_CONTENT_ENTRIES;
use crate::wad::installable::content::{
    lemma_sizes_grow, spec_content_hash, spec_encrypt_content, spec_trim, with_entries,
    ModifyContentBuilder,
};
use crate::wad::installable::{
    ceil64, lemma_aligned_sizes_grow, lemma_section_bytes, spec_aligned_sizes,
    spec_section_bytes, spec_sizes, InstallableWad, InstallableWadError,
};

verus! {

/// The aligned sizes and the sizes of the first entries are those of other
/// entries that begin alike.
#[verifier::rlimit(50)]
pub proof fn lemma_sizes_of_prefix(
    entries: Seq<TitleMetadataContentEntry>,
    others: Seq<TitleMetadataContentEntry>,
    count: int,
)
    requires
        0 <= count <= entries.len(),
        count <= others.len(),
        forall|i: int| 0 <= i < count ==> entries[i] == others[i],
    ensures
        spec_aligned_sizes(entries, count) == spec_aligned_sizes(others, count),
        spec_sizes(entries, count) == spec_sizes(others, count),
    decreases count,
{
    if count > 0 {
        lemma_sizes_of_prefix(entries, others, count - 1);
    }
}

/// Two sequences that agree on a part agree on each byte of it.
#[verifier::rlimit(50)]
pub proof fn lemma_equal_in_part(x: Seq<u8>, y: Seq<u8>, from: int, to: int, j: int)
    requires
        0 <= from <= j < to,
        to <= x.len(),
        to <= y.len(),
        x.subrange(from, to) == y.subrange(from, to),
    ensures
        x[j] == y[j],
{
    assert(x.subrange(from, to)[j - from] == x[j]);
    assert(y.subrange(from, to)[j - from] == y[j]);
}

/// Two sequences of one length that agree on each of five parts that they
/// are cut into are the same.
#[verifier::rlimit(50)]
pub proof fn lemma_equal_by_parts(x: Seq<u8>, y: Seq<u8>, a: int, b: int, c: int, d: int)
    requires
        x.len() == y.len(),
        0 <= a <= b <= c <= d <= x.len(),
        x.subrange(0, a) == y.subrange(0, a),
        x.subrange(a, b) == y.subrange(a, b),
        x.subrange(b, c) == y.subrange(b, c),
        x.subrange(c, d) == y.subrange(c, d),
        x.subrange(d, x.len() as int) == y.subrange(d, x.len() as int),
    ensures
        x == y,
{
    let end = x.len() as int;
    assert forall|j: int| 0 <= j < x.len() implies x[j] == y[j] by {
        if j < a {
            lemma_equal_in_part(x, y, 0, a, j);
        } else if j < b {
            lemma_equal_in_part(x, y, a, b, j);
        } else if j < c {
            lemma_equal_in_part(x, y, b, c, j);
        } else if j < d {
            lemma_equal_in_part(x, y, c, d, j);
        } else {
            lemma_equal_in_part(x, y, d, end, j);
        }
    }
    assert(x =~= y);
}

/// A stream that holds a WAD holds its contents in full, and its last
/// content ends within it.
#[verifier::rlimit(50)]
pub proof fn lemma_holds_in_full(
    wad: InstallableWad,
    bytes: Seq<u8>,
    entries: Seq<TitleMetadataContentEntry>,
)
    requires
        forall|position: int|
            0 <= position < entries.len() ==> #[trigger] spec_holds_content(
                wad,
                bytes,
                entries,
                position,
            ),
        wad.spec_contents_offset() <= bytes.len(),
    ensures
        spec_contents_in_full(wad, bytes, entries),
        wad.spec_logical_size(entries) <= bytes.len(),
{
    let count = entries.len() as int;
    assert forall|position: int| 0 <= position < entries.len() implies #[trigger] wad.spec_content_offset(
        entries,
        position,
    ) + entries[position].size <= bytes.len() by {
        assert(spec_holds_content(wad, bytes, entries, position));
        lemma_ceil_align(entries[position].size as int, 64);
    }
    if count > 0 {
        assert(spec_holds_content(wad, bytes, entries, count - 1));
        assert(spec_aligned_sizes(entries, count) == spec_aligned_sizes(entries, count - 1)
            + ceil64(entries[count - 1].size as int));
    } else {
        assert(spec_aligned_sizes(entries, count) == 0);
    }
}

/// The contents that a stream holds, each with zeros behind it, stand in
/// it as the sections that they make, one behind the other.
#[verifier::rlimit(50)]
pub proof fn lemma_sections_in_stream(
    wad: InstallableWad,
    bytes: Seq<u8>,
    entries: Seq<TitleMetadataContentEntry>,
    done: int,
)
    requires
        forall|position: int|
            0 <= position < entries.len() ==> #[trigger] spec_holds_content(
                wad,
                bytes,
                entries,
                position,
            ),
        wad.spec_contents_offset() <= bytes.len(),
        0 <= done <= entries.len(),
    ensures
        0 <= wad.spec_content_offset(entries, done) <= wad.spec_logical_size(entries)
            <= bytes.len(),
        bytes.subrange(wad.spec_content_offset(entries, done), wad.spec_logical_size(entries))
            == spec_sections(wad.spec_store(bytes, entries, 0), done),
    decreases entries.len() - done,
{
    let count = entries.len() as int;
    let kept = wad.spec_store(bytes, entries, 0);
    let from = wad.spec_content_offset(entries, done);
    let to = wad.spec_logical_size(entries);
    lemma_holds_in_full(wad, bytes, entries);
    wad.lemma_offsets(entries, done);
    lemma_aligned_sizes_grow(entries, done, count);
    if done < count {
        lemma_store_in_full(wad, bytes, entries, done);
        assert(spec_holds_content(wad, bytes, entries, done));
        lemma_content_section(wad, bytes, entries, done);
        lemma_sections_in_stream(wad, bytes, entries, done + 1);
        let next = wad.spec_content_offset(entries, done + 1);
        assert(kept[done] == bytes.subrange(from, from + entries[done].size));
        assert(bytes.subrange(from, next) == spec_section_bytes(kept[done]));
        assert(bytes.subrange(next, to) == spec_sections(kept, done + 1));
        assert(spec_sections(kept, done) == spec_section_bytes(kept[done]) + spec_sections(
            kept,
            done + 1,
        ));
        assert(bytes.subrange(from, to) =~= bytes.subrange(from, next) + bytes.subrange(next, to));
    } else {
        lemma_store_in_full_len(wad, bytes, entries);
        assert(spec_sections(kept, done) == Seq::<u8>::empty());
        assert(bytes.subrange(from, to) =~= Seq::<u8>::empty());
    }
}

/// As many contents are kept as there are entries.
#[verifier::rlimit(50)]
pub proof fn lemma_store_in_full_len(
    wad: InstallableWad,
    bytes: Seq<u8>,
    entries: Seq<TitleMetadataContentEntry>,
)
    requires
        spec_contents_in_full(wad, bytes, entries),
    ensures
        wad.spec_store(bytes, entries, 0).len() == entries.len(),
{
    if entries.len() > 0 {
        lemma_store_in_full(wad, bytes, entries, 0);
    } else {
        assert(wad.spec_store(bytes, entries, 0).len() == 0);
    }
}

/// A stream holds a WAD where it agrees, behind the header and up to the
/// end of the last content, with a stream that holds a WAD with the same
/// sizes of the sections, and begins with the header.
#[verifier::rlimit(50)]
pub proof fn lemma_layout_frame(
    wad: InstallableWad,
    other: InstallableWad,
    held: StreamState,
    state: StreamState,
    title_metadata: TitleMetadataView,
)
    requires
        spec_holds_layout(wad, held, title_metadata),
        other.certificate_chain_size == wad.certificate_chain_size,
        other.ticket_size == wad.ticket_size,
        other.title_metadata_size == wad.title_metadata_size,
        state.growable,
        wad.spec_logical_size(title_metadata.content_chunk_entries) <= state.bytes.len(),
        state.bytes.len() <= STREAM_LIMIT,
        state.bytes.len() <= usize::MAX,
        state.bytes.subrange(0, 64) == other.spec_serialize(),
        forall|j: int|
            64 <= j < wad.spec_logical_size(title_metadata.content_chunk_entries)
                ==> #[trigger] state.bytes[j] == held.bytes[j],
    ensures
        spec_holds_layout(other, state, title_metadata),
{
    let entries = title_metadata.content_chunk_entries;
    let count = entries.len() as int;
    let image = title_metadata.spec_serialize();
    let offset = wad.spec_title_metadata_offset();
    let end = wad.spec_logical_size(entries);
    wad.lemma_offsets(entries, count);
    lemma_holds_in_full(wad, held.bytes, entries);
    assert(other.spec_title_metadata_offset() == offset);
    assert(other.spec_contents_offset() == wad.spec_contents_offset());
    assert(state.bytes.subrange(offset, offset + ceil64(image.len() as int))
        =~= held.bytes.subrange(offset, offset + ceil64(image.len() as int)));
    assert forall|position: int| 0 <= position < entries.len() implies #[trigger] spec_holds_content(
        other,
        state.bytes,
        entries,
        position,
    ) by {
        assert(spec_holds_content(wad, held.bytes, entries, position));
        wad.lemma_offsets(entries, position);
        lemma_aligned_sizes_grow(entries, position + 1, count);
        lemma_ceil_align(entries[position].size as int, 64);
        let at = wad.spec_content_offset(entries, position);
        assert(other.spec_content_offset(entries, position) == at);
        let from = at + entries[position].size;
        let to = at + ceil64(entries[position].size as int);
        assert(to == wad.spec_content_offset(entries, position + 1));
        assert(state.bytes.subrange(from, to) =~= held.bytes.subrange(from, to));
    }
}

impl InstallableWad {
    /// Bringing the sum of the sizes in the header up to date leaves a
    /// stream that holds the WAD, with every byte behind the header as it
    /// was.
    #[verifier::rlimit(50)]
    pub proof fn lemma_sync_holds(self, state: StreamState, title_metadata: TitleMetadataView)
        requires
            spec_holds_layout(self, state, title_metadata),
            spec_sizes(
                title_metadata.content_chunk_entries,
                title_metadata.content_chunk_entries.len() as int,
            ) <= u32::MAX,
        ensures
            self.spec_sync(state, title_metadata.content_chunk_entries) is Ok,
            ({
                let synced = self.spec_sync(state, title_metadata.content_chunk_entries).unwrap();
                &&& spec_holds(synced.1, synced.0, title_metadata)
                &&& synced.1 == (InstallableWad {
                    content_size: spec_sizes(
                        title_metadata.content_chunk_entries,
                        title_metadata.content_chunk_entries.len() as int,
                    ) as u32,
                    ..self
                })
                &&& synced.0.bytes.len() == state.bytes.len()
                &&& forall|j: int|
                    64 <= j < state.bytes.len() ==> #[trigger] synced.0.bytes[j] == state.bytes[j]
            }),
    {
        let entries = title_metadata.content_chunk_entries;
        let synced = InstallableWad {
            content_size: spec_sizes(entries, entries.len() as int) as u32,
            ..self
        };
        lemma_sizes_not_negative(entries, entries.len() as int);
        synced.lemma_header_len();
        let out = spec_write(state.bytes, 0, synced.spec_serialize());
        lemma_written_part(state.bytes, 0, synced.spec_serialize());
        let after = StreamState { bytes: out, pos: 64, growable: true };
        assert(synced.spec_write_header(state) == Ok::<StreamState, StreamError>(after));
        lemma_holds_in_full(self, state.bytes, entries);
        self.lemma_offsets(entries, entries.len() as int);
        lemma_layout_frame(self, synced, state, after, title_metadata);
    }

    /// Cutting a stream that holds a WAD behind its last content leaves a
    /// stream that holds the WAD.
    #[verifier::rlimit(50)]
    pub proof fn lemma_trim_holds(self, state: StreamState, title_metadata: TitleMetadataView)
        requires
            spec_holds_layout(self, state, title_metadata),
        ensures
            spec_trim(state, self.spec_logical_size(title_metadata.content_chunk_entries)) is Ok,
            ({
                let size = self.spec_logical_size(title_metadata.content_chunk_entries);
                let trimmed = spec_trim(state, size).unwrap();
                &&& spec_holds_layout(self, trimmed, title_metadata)
                &&& 64 <= size <= state.bytes.len()
                &&& trimmed.bytes == state.bytes.subrange(0, size)
            }),
    {
        let entries = title_metadata.content_chunk_entries;
        let size = self.spec_logical_size(entries);
        self.lemma_offsets(entries, entries.len() as int);
        lemma_holds_in_full(self, state.bytes, entries);
        let out = state.bytes.subrange(0, size);
        if size == state.bytes.len() {
            assert(out =~= state.bytes);
        }
        let trimmed = StreamState { bytes: out, ..state };
        assert(out.subrange(0, 64) =~= state.bytes.subrange(0, 64));
        lemma_layout_frame(self, self, state, trimmed, title_metadata);
    }
}

/// The sum of the sizes of entries is not negative.
#[verifier::rlimit(50)]
pub proof fn lemma_sizes_not_negative(entries: Seq<TitleMetadataContentEntry>, count: int)
    ensures
        0 <= spec_sizes(entries, count),
    decreases count,
{
    if count > 0 {
        lemma_sizes_not_negative(entries, count - 1);
    }
}

impl InstallableWad {
    /// A safe write of a title metadata that fits leaves a stream that
    /// holds the WAD with the size of the title metadata, but for the sum
    /// of the sizes of the contents. What stands between the header and the
    /// title metadata, and behind the last content, is left as it was, and
    /// every content keeps its bytes.
    #[verifier::rlimit(50)]
    pub proof fn lemma_safe_step(self, state: StreamState, title_metadata: TitleMetadataView)
        requires
            self.spec_safe_write_fits(state, title_metadata),
        ensures
            self.spec_write_title_metadata_safe(state, title_metadata) is Ok,
            ({
                let entries = title_metadata.content_chunk_entries;
                let left = self.spec_write_title_metadata_safe(state, title_metadata).unwrap();
                let placed = left.0;
                let sized = left.1;
                &&& sized == self.spec_sized_for(title_metadata)
                &&& spec_holds_layout(sized, placed, title_metadata)
                &&& placed.bytes.len() == if state.bytes.len() >= sized.spec_logical_size(entries) {
                    state.bytes.len() as int
                } else {
                    sized.spec_logical_size(entries)
                }
                &&& forall|j: int|
                    64 <= j < self.spec_title_metadata_offset() && j < state.bytes.len()
                        ==> #[trigger] placed.bytes[j] == state.bytes[j]
                &&& forall|j: int|
                    sized.spec_logical_size(entries) <= j < state.bytes.len()
                        ==> #[trigger] placed.bytes[j] == state.bytes[j]
                &&& forall|position: int|
                    0 <= position < entries.len() ==> placed.bytes.subrange(
                        #[trigger] sized.spec_content_offset(entries, position),
                        sized.spec_content_offset(entries, position) + entries[position].size,
                    ) == state.bytes.subrange(
                        self.spec_content_offset(entries, position),
                        self.spec_content_offset(entries, position) + entries[position].size,
                    )
            }),
    {
        let entries = title_metadata.content_chunk_entries;
        let sized = self.spec_sized_for(title_metadata);
        let out = self.spec_safe_bytes(state.bytes, title_metadata);
        self.lemma_safe_shape(state, title_metadata);
        self.lemma_safe_bytes_hold(state, title_metadata);
        self.lemma_safe_bytes_front(state, title_metadata);
        assert forall|position: int| 0 <= position < entries.len() implies out.subrange(
            #[trigger] sized.spec_content_offset(entries, position),
            sized.spec_content_offset(entries, position) + entries[position].size,
        ) == state.bytes.subrange(
            self.spec_content_offset(entries, position),
            self.spec_content_offset(entries, position) + entries[position].size,
        ) by {
            self.lemma_safe_bytes_content(state, title_metadata, position);
            let size = entries[position].size as int;
            let from = self.spec_content_offset(entries, position);
            let to = sized.spec_content_offset(entries, position);
            let content = state.bytes.subrange(from, from + size);
            lemma_section_bytes(content);
            lemma_ceil_align(size, 64);
            crate::bytes::lemma_subrange_of_subrange(out, to, to + ceil64(size), 0, size);
        }
    }
}

/// A size that is not above another is not above it on the boundary.
#[verifier::rlimit(50)]
pub proof fn lemma_ceil64_grows(less: int, more: int)
    requires
        0 <= less <= more,
    ensures
        ceil64(less) <= ceil64(more),
{
    lemma_ceil_align(less, 64);
    lemma_ceil_align(more, 64);
    let a = ceil64(less);
    let b = ceil64(more);
    assert(a <= b) by (nonlinear_arith)
        requires
            a % 64 == 0,
            b % 64 == 0,
            less <= a < less + 64,
            more <= b < more + 64,
            less <= more,
    ;
}

/// A well-formed title metadata with the first of its entries alone is
/// well formed and no longer, and in a WAD that takes its size the contents
/// begin no later.
#[verifier::rlimit(50)]
pub proof fn lemma_first_entries(wad: InstallableWad, title_metadata: TitleMetadataView, count: int)
    requires
        title_metadata.wf(),
        0 <= count <= title_metadata.content_chunk_entries.len(),
        wad.title_metadata_size == title_metadata.spec_serialize().len(),
    ensures
        ({
            let first = with_entries(
                title_metadata,
                title_metadata.content_chunk_entries.subrange(0, count),
            );
            let sized = wad.spec_sized_for(first);
            &&& first.wf()
            &&& sized.title_metadata_size == first.spec_serialize().len()
            &&& sized.spec_title_metadata_offset() == wad.spec_title_metadata_offset()
            &&& sized.spec_contents_offset() <= wad.spec_contents_offset()
        }),
{
    let first = with_entries(title_metadata, title_metadata.content_chunk_entries.subrange(0, count));
    assert(first.wf());
    title_metadata.lemma_size();
    first.lemma_size();
    lemma_ceil64_grows(first.spec_size(), title_metadata.spec_size());
}

/// A stream that holds a WAD has room for a safe write of the title
/// metadata without its last entry, which leaves the contents of the other
/// entries where they were or before.
#[verifier::rlimit(50)]
pub proof fn lemma_without_last_fits(
    wad: InstallableWad,
    state: StreamState,
    title_metadata: TitleMetadataView,
)
    requires
        spec_holds_layout(wad, state, title_metadata),
        title_metadata.content_chunk_entries.len() > 0,
    ensures
        ({
            let entries = title_metadata.content_chunk_entries;
            let last = entries.len() - 1;
            let rest = entries.subrange(0, last);
            let removed = with_entries(title_metadata, rest);
            let sized = wad.spec_sized_for(removed);
            &&& entries.remove(last) == rest
            &&& wad.spec_safe_write_fits(state, removed)
            &&& sized.spec_title_metadata_offset() == wad.spec_title_metadata_offset()
            &&& 64 <= sized.spec_logical_size(rest) <= wad.spec_content_offset(entries, last)
            &&& wad.spec_content_offset(entries, last) <= wad.spec_logical_size(entries)
                <= state.bytes.len()
            &&& 0 <= spec_sizes(rest, last) <= spec_sizes(entries, entries.len() as int)
            &&& forall|position: int|
                0 <= position < last ==> #[trigger] wad.spec_content_offset(rest, position)
                    == wad.spec_content_offset(entries, position)
        }),
{
    let entries = title_metadata.content_chunk_entries;
    let last = entries.len() - 1;
    let rest = entries.subrange(0, last);
    assert(entries.remove(last) =~= rest);
    let removed = with_entries(title_metadata, rest);
    let sized = wad.spec_sized_for(removed);
    lemma_first_entries(wad, title_metadata, last);
    wad.lemma_offsets(entries, last);
    wad.lemma_offsets(entries, entries.len() as int);
    sized.lemma_offsets(rest, last);
    lemma_holds_in_full(wad, state.bytes, entries);
    lemma_sizes_of_prefix(rest, entries, last);
    lemma_aligned_sizes_grow(entries, last, entries.len() as int);
    lemma_sizes_grow(entries, last, entries.len() as int);
    lemma_sizes_not_negative(rest, last);
    assert forall|position: int| 0 <= position < last implies #[trigger] wad.spec_content_offset(
        rest,
        position,
    ) == wad.spec_content_offset(entries, position) by {
        lemma_sizes_of_prefix(rest, entries, position);
    }
    assert(spec_contents_in_full(wad, state.bytes, rest)) by {
        assert forall|position: int| 0 <= position < rest.len() implies #[trigger] wad.spec_content_offset(
            rest,
            position,
        ) + rest[position].size <= state.bytes.len() by {
            assert(wad.spec_content_offset(entries, position) + entries[position].size
                <= state.bytes.len());
        }
    }
}

impl<'c> ModifyContentBuilder<'c> {
    /// Taking the last content out of a stream that holds a WAD leaves a
    /// stream that holds the WAD without it. What stands between the header
    /// and the title metadata is left as it was, and so is what stands
    /// behind the old end of the contents where the stream is not cut;
    /// every other content keeps its bytes.
    #[verifier::rlimit(50)]
    pub proof fn lemma_remove_last(
        self,
        wad: InstallableWad,
        state: StreamState,
        method: ContentSelectorMethod,
        title_metadata: TitleMetadataView,
    )
        requires
            spec_holds(wad, state, title_metadata),
            title_metadata.content_chunk_entries.len() > 0,
            spec_select(method, title_metadata.content_chunk_entries) == Some(
                title_metadata.content_chunk_entries.len() - 1,
            ),
        ensures
            self.spec_remove(wad, state, method, title_metadata) is Ok,
            ({
                let entries = title_metadata.content_chunk_entries;
                let last = entries.len() - 1;
                let rest = entries.subrange(0, last);
                let left = self.spec_remove(wad, state, method, title_metadata).unwrap();
                &&& left.2 == with_entries(title_metadata, rest)
                &&& spec_holds(left.1, left.0, left.2)
                &&& left.1 == (InstallableWad {
                    content_size: spec_sizes(rest, last) as u32,
                    title_metadata_size: left.2.spec_serialize().len() as u32,
                    ..wad
                })
                &&& left.1.spec_title_metadata_offset() == wad.spec_title_metadata_offset()
                &&& left.1.spec_logical_size(rest) <= wad.spec_content_offset(entries, last)
                &&& left.0.bytes.len() == if self.trim_if_is_file {
                    left.1.spec_logical_size(rest)
                } else {
                    state.bytes.len() as int
                }
                &&& forall|j: int|
                    64 <= j < wad.spec_title_metadata_offset() ==> #[trigger] left.0.bytes[j]
                        == state.bytes[j]
                &&& forall|j: int|
                    left.1.spec_logical_size(rest) <= j < left.0.bytes.len()
                        ==> #[trigger] left.0.bytes[j] == state.bytes[j]
                &&& forall|position: int|
                    0 <= position < last ==> left.0.bytes.subrange(
                        #[trigger] left.1.spec_content_offset(rest, position),
                        left.1.spec_content_offset(rest, position) + rest[position].size,
                    ) == state.bytes.subrange(
                        wad.spec_content_offset(entries, position),
                        wad.spec_content_offset(entries, position) + entries[position].size,
                    )
            }),
    {
        let entries = title_metadata.content_chunk_entries;
        let last = entries.len() - 1;
        let rest = entries.subrange(0, last);
        let removed = with_entries(title_metadata, rest);
        let sized = wad.spec_sized_for(removed);
        lemma_without_last_fits(wad, state, title_metadata);
        wad.lemma_safe_step(state, removed);
        let placed = wad.spec_write_title_metadata_safe(state, removed).unwrap().0;
        sized.lemma_trim_holds(placed, removed);
        let trimmed = if self.trim_if_is_file {
            spec_trim(placed, sized.spec_logical_size(rest)).unwrap()
        } else {
            placed
        };
        sized.lemma_sync_holds(trimmed, removed);
        let synced = sized.spec_sync(trimmed, rest).unwrap();
        assert(self.spec_remove(wad, state, method, title_metadata) == Ok::<
            (StreamState, InstallableWad, TitleMetadataView),
            InstallableWadError,
        >((synced.0, synced.1, removed)));
        assert(synced.1.spec_contents_offset() == sized.spec_contents_offset());
        assert forall|position: int| 0 <= position < last implies synced.0.bytes.subrange(
            #[trigger] synced.1.spec_content_offset(rest, position),
            synced.1.spec_content_offset(rest, position) + rest[position].size,
        ) == state.bytes.subrange(
            wad.spec_content_offset(entries, position),
            wad.spec_content_offset(entries, position) + entries[position].size,
        ) by {
            let to = sized.spec_content_offset(rest, position);
            let size = rest[position].size as int;
            sized.lemma_offsets(rest, position);
            lemma_aligned_sizes_grow(rest, position + 1, last);
            lemma_ceil_align(size, 64);
            assert(to + size <= sized.spec_logical_size(rest));
            assert(synced.1.spec_content_offset(rest, position) == to);
            assert(wad.spec_content_offset(rest, position) == wad.spec_content_offset(
                entries,
                position,
            ));
            assert(placed.bytes.subrange(to, to + size) == state.bytes.subrange(
                wad.spec_content_offset(rest, position),
                wad.spec_content_offset(rest, position) + size,
            ));
            assert(synced.0.bytes.subrange(to, to + size) =~= placed.bytes.subrange(to, to + size));
        }
    }
}

/// A stream that holds a WAD, with a content written behind the last one,
/// has room for a safe write of the title metadata with one more entry of
/// the size of that content, where the stream has room for the WAD that it
/// leaves.
#[verifier::rlimit(50)]
pub proof fn lemma_with_one_more_fits(
    wad: InstallableWad,
    state: StreamState,
    title_metadata: TitleMetadataView,
    entry: TitleMetadataContentEntry,
    cipher: Seq<u8>,
)
    requires
        spec_holds_layout(wad, state, title_metadata),
        cipher.len() == entry.size,
        wad.spec_logical_size(title_metadata.content_chunk_entries) + cipher.len() <= STREAM_LIMIT,
        wad.spec_logical_size(title_metadata.content_chunk_entries) + cipher.len() <= usize::MAX,
        with_entries(title_metadata, title_metadata.content_chunk_entries.push(entry)).wf(),
        wad.spec_sized_for(
            with_entries(title_metadata, title_metadata.content_chunk_entries.push(entry)),
        ).spec_logical_size(title_metadata.content_chunk_entries.push(entry)) <= STREAM_LIMIT,
        wad.spec_sized_for(
            with_entries(title_metadata, title_metadata.content_chunk_entries.push(entry)),
        ).spec_logical_size(title_metadata.content_chunk_entries.push(entry)) <= usize::MAX,
    ensures
        ({
            let entries = title_metadata.content_chunk_entries;
            let count = entries.len() as int;
            let more = entries.push(entry);
            let end = wad.spec_logical_size(entries);
            let written = state.at(end).write_all(cipher);
            &&& 64 <= end <= state.bytes.len()
            &&& written is Ok
            &&& written.unwrap().bytes == spec_write(state.bytes, end, cipher)
            &&& wad.spec_safe_write_fits(written.unwrap(), with_entries(title_metadata, more))
            &&& wad.spec_content_offset(more, count) == end
            &&& forall|position: int|
                0 <= position < count ==> #[trigger] wad.spec_content_offset(more, position)
                    == wad.spec_content_offset(entries, position)
            &&& forall|position: int|
                0 <= position < count ==> #[trigger] wad.spec_content_offset(entries, position)
                    + entries[position].size <= end
        }),
{
    let entries = title_metadata.content_chunk_entries;
    let count = entries.len() as int;
    let more = entries.push(entry);
    let end = wad.spec_logical_size(entries);
    let out = spec_write(state.bytes, end, cipher);
    wad.lemma_offsets(entries, count);
    lemma_holds_in_full(wad, state.bytes, entries);
    lemma_written_part(state.bytes, end, cipher);
    lemma_sizes_of_prefix(more, entries, count);
    assert forall|position: int| 0 <= position < count implies #[trigger] wad.spec_content_offset(
        more,
        position,
    ) == wad.spec_content_offset(entries, position) by {
        lemma_sizes_of_prefix(more, entries, position);
    }
    assert forall|position: int| 0 <= position < count implies #[trigger] wad.spec_content_offset(
        entries,
        position,
    ) + entries[position].size <= end by {
        lemma_aligned_sizes_grow(entries, position + 1, count);
        lemma_ceil_align(entries[position].size as int, 64);
    }
    assert(spec_contents_in_full(wad, out, more)) by {
        assert forall|position: int| 0 <= position < more.len() implies #[trigger] wad.spec_content_offset(
            more,
            position,
        ) + more[position].size <= out.len() by {
            if position < count {
                assert(wad.spec_content_offset(entries, position) + entries[position].size
                    <= end);
            }
        }
    }
}

impl<'c> ModifyContentBuilder<'c> {
    /// Adding a content to a stream that holds a WAD leaves a stream that
    /// holds the WAD with it, where the stream has room. What stands
    /// between the header and the title metadata is left as it was, and so
    /// is what stands behind the new content and the new end of the
    /// contents; every content keeps its bytes, and the new content stands
    /// behind them.
    #[verifier::rlimit(50)]
    pub proof fn lemma_add_holds(
        self,
        wad: InstallableWad,
        state: StreamState,
        data: Seq<u8>,
        title_metadata: TitleMetadataView,
        cipher: Seq<u8>,
    )
        requires
            spec_holds_layout(wad, state, title_metadata),
            self.new_id is Some,
            self.new_index is Some,
            self.new_kind is Some,
            self.spec_cryptography() is Some,
            title_metadata.content_chunk_entries.len() < MAX_CONTENT_ENTRIES,
            data.len() <= u64::MAX,
            spec_encrypt_content(self.spec_cryptography().unwrap(), self.new_index.unwrap(), data)
                == Ok::<Seq<u8>, InstallableWadError>(cipher),
            cipher.len() == data.len(),
            wad.spec_logical_size(title_metadata.content_chunk_entries) + cipher.len()
                <= STREAM_LIMIT,
            wad.spec_logical_size(title_metadata.content_chunk_entries) + cipher.len()
                <= usize::MAX,
            ({
                let entry = self.spec_new_entry(title_metadata.spec_is_version_1(), data);
                let more = title_metadata.content_chunk_entries.push(entry);
                let added = with_entries(title_metadata, more);
                &&& wad.spec_sized_for(added).spec_logical_size(more) <= STREAM_LIMIT
                &&& wad.spec_sized_for(added).spec_logical_size(more) <= usize::MAX
                &&& spec_sizes(more, more.len() as int) <= u32::MAX
            }),
        ensures
            self.spec_add(wad, state, data, title_metadata) is Ok,
            ({
                let entries = title_metadata.content_chunk_entries;
                let count = entries.len() as int;
                let entry = self.spec_new_entry(title_metadata.spec_is_version_1(), data);
                let more = entries.push(entry);
                let end = wad.spec_logical_size(entries);
                let left = self.spec_add(wad, state, data, title_metadata).unwrap();
                &&& left.2 == with_entries(title_metadata, more)
                &&& spec_holds(left.1, left.0, left.2)
                &&& left.1 == (InstallableWad {
                    content_size: spec_sizes(more, more.len() as int) as u32,
                    title_metadata_size: left.2.spec_serialize().len() as u32,
                    ..wad
                })
                &&& left.0.bytes.len() >= state.bytes.len()
                &&& left.0.bytes.len() > state.bytes.len() ==> left.0.bytes.len()
                    == left.1.spec_logical_size(more) || left.0.bytes.len() == end + cipher.len()
                &&& forall|j: int|
                    64 <= j < wad.spec_title_metadata_offset() ==> #[trigger] left.0.bytes[j]
                        == state.bytes[j]
                &&& forall|j: int|
                    left.1.spec_logical_size(more) <= j < state.bytes.len() && end + cipher.len()
                        <= j ==> #[trigger] left.0.bytes[j] == state.bytes[j]
                &&& forall|position: int|
                    0 <= position < count ==> left.0.bytes.subrange(
                        #[trigger] left.1.spec_content_offset(more, position),
                        left.1.spec_content_offset(more, position) + entries[position].size,
                    ) == state.bytes.subrange(
                        wad.spec_content_offset(entries, position),
                        wad.spec_content_offset(entries, position) + entries[position].size,
                    )
                &&& left.0.bytes.subrange(
                    left.1.spec_content_offset(more, count),
                    left.1.spec_content_offset(more, count) + cipher.len(),
                ) == cipher
            }),
    {
        let entries = title_metadata.content_chunk_entries;
        let count = entries.len() as int;
        let entry = self.spec_new_entry(title_metadata.spec_is_version_1(), data);
        let more = entries.push(entry);
        let added = with_entries(title_metadata, more);
        let end = wad.spec_logical_size(entries);
        let sized = wad.spec_sized_for(added);
        assert(added.wf());
        lemma_with_one_more_fits(wad, state, title_metadata, entry, cipher);
        let written = state.at(end).write_all(cipher).unwrap();
        lemma_written_part(state.bytes, end, cipher);
        wad.lemma_offsets(entries, 0);
        wad.lemma_safe_step(written, added);
        let placed = wad.spec_write_title_metadata_safe(written, added).unwrap().0;
        sized.lemma_sync_holds(placed, added);
        let synced = sized.spec_sync(placed, more).unwrap();
        assert(self.spec_add(wad, state, data, title_metadata) == Ok::<
            (StreamState, InstallableWad, TitleMetadataView),
            InstallableWadError,
        >((synced.0, synced.1, added)));
        assert(synced.1.spec_contents_offset() == sized.spec_contents_offset());
        lemma_holds_in_full(sized, placed.bytes, more);
        assert forall|position: int| 0 <= position <= count implies synced.0.bytes.subrange(
            #[trigger] synced.1.spec_content_offset(more, position),
            synced.1.spec_content_offset(more, position) + more[position].size,
        ) == written.bytes.subrange(
            wad.spec_content_offset(more, position),
            wad.spec_content_offset(more, position) + more[position].size,
        ) by {
            let to = sized.spec_content_offset(more, position);
            let size = more[position].size as int;
            sized.lemma_offsets(more, position);
            assert(synced.1.spec_content_offset(more, position) == to);
            assert(to + size <= placed.bytes.len());
            assert(synced.0.bytes.subrange(to, to + size) =~= placed.bytes.subrange(to, to + size));
        }
        assert forall|position: int| 0 <= position < count implies synced.0.bytes.subrange(
            #[trigger] synced.1.spec_content_offset(more, position),
            synced.1.spec_content_offset(more, position) + entries[position].size,
        ) == state.bytes.subrange(
            wad.spec_content_offset(entries, position),
            wad.spec_content_offset(entries, position) + entries[position].size,
        ) by {
            let from = wad.spec_content_offset(entries, position);
            let size = entries[position].size as int;
            wad.lemma_offsets(entries, position);
            assert(wad.spec_content_offset(more, position) == from);
            assert(from + size <= end);
            assert(written.bytes.subrange(from, from + size) =~= state.bytes.subrange(
                from,
                from + size,
            ));
        }
    }
}

/// Two streams of one length that hold one WAD are the same where they
/// agree between the header and the title metadata, in the bytes of every
/// content, and behind the last content.
#[verifier::rlimit(50)]
pub proof fn lemma_same_wad(
    wad: InstallableWad,
    first: StreamState,
    second: StreamState,
    title_metadata: TitleMetadataView,
)
    requires
        spec_holds_layout(wad, first, title_metadata),
        spec_holds_layout(wad, second, title_metadata),
        first.bytes.len() == second.bytes.len(),
        forall|j: int|
            64 <= j < wad.spec_title_metadata_offset() ==> #[trigger] first.bytes[j]
                == second.bytes[j],
        forall|j: int|
            wad.spec_logical_size(title_metadata.content_chunk_entries) <= j < first.bytes.len()
                ==> #[trigger] first.bytes[j] == second.bytes[j],
        forall|position: int|
            0 <= position < title_metadata.content_chunk_entries.len() ==> first.bytes.subrange(
                #[trigger] wad.spec_content_offset(title_metadata.content_chunk_entries, position),
                wad.spec_content_offset(title_metadata.content_chunk_entries, position)
                    + title_metadata.content_chunk_entries[position].size,
            ) == second.bytes.subrange(
                wad.spec_content_offset(title_metadata.content_chunk_entries, position),
                wad.spec_content_offset(title_metadata.content_chunk_entries, position)
                    + title_metadata.content_chunk_entries[position].size,
            ),
    ensures
        first.bytes == second.bytes,
{
    let entries = title_metadata.content_chunk_entries;
    let image = title_metadata.spec_serialize();
    let at = wad.spec_title_metadata_offset();
    let start = wad.spec_contents_offset();
    let end = wad.spec_logical_size(entries);
    wad.lemma_offsets(entries, 0);
    assert(start == at + ceil64(image.len() as int));
    lemma_sections_in_stream(wad, first.bytes, entries, 0);
    lemma_sections_in_stream(wad, second.bytes, entries, 0);
    assert(wad.spec_content_offset(entries, 0) == start);
    lemma_holds_in_full(wad, first.bytes, entries);
    lemma_holds_in_full(wad, second.bytes, entries);
    lemma_store_in_full_len(wad, first.bytes, entries);
    lemma_store_in_full_len(wad, second.bytes, entries);
    let kept = wad.spec_store(first.bytes, entries, 0);
    let other = wad.spec_store(second.bytes, entries, 0);
    assert forall|position: int| 0 <= position < entries.len() implies kept[position]
        == other[position] by {
        lemma_store_in_full(wad, first.bytes, entries, position);
        lemma_store_in_full(wad, second.bytes, entries, position);
    }
    assert(kept =~= other);
    assert(first.bytes.subrange(64, at) =~= second.bytes.subrange(64, at));
    assert(first.bytes.subrange(end, first.bytes.len() as int) =~= second.bytes.subrange(
        end,
        first.bytes.len() as int,
    ));
    lemma_equal_by_parts(first.bytes, second.bytes, 64, at, start, end);
}

impl<'c> ModifyContentBuilder<'c> {
    /// Taking the last content out of a WAD and adding it again, with its
    /// ID, its index and its kind, and with a plaintext of its size and its
    /// hash that is encrypted to the bytes that stood there, leaves the
    /// stream, the header and the title metadata as they were. Where the
    /// removal cuts the stream, the stream has to end behind its last
    /// content.
    #[verifier::rlimit(50)]
    pub proof fn lemma_remove_then_add(
        self,
        adder: ModifyContentBuilder<'c>,
        wad: InstallableWad,
        state: StreamState,
        method: ContentSelectorMethod,
        title_metadata: TitleMetadataView,
        data: Seq<u8>,
    )
        requires
            spec_holds(wad, state, title_metadata),
            title_metadata.content_chunk_entries.len() > 0,
            spec_select(method, title_metadata.content_chunk_entries) == Some(
                title_metadata.content_chunk_entries.len() - 1,
            ),
            self.trim_if_is_file ==> state.bytes.len() == wad.spec_logical_size(
                title_metadata.content_chunk_entries,
            ),
            adder.spec_cryptography() is Some,
            ({
                let entries = title_metadata.content_chunk_entries;
                let last = entries.len() - 1;
                let offset = wad.spec_content_offset(entries, last);
                &&& adder.new_id == Some(entries[last].id)
                &&& adder.new_index == Some(entries[last].index)
                &&& adder.new_kind == Some(entries[last].kind)
                &&& data.len() == entries[last].size
                &&& spec_content_hash(title_metadata.spec_is_version_1(), data)
                    == entries[last].hash
                &&& spec_encrypt_content(
                    adder.spec_cryptography().unwrap(),
                    entries[last].index,
                    data,
                ) == Ok::<Seq<u8>, InstallableWadError>(
                    state.bytes.subrange(offset, offset + entries[last].size),
                )
            }),
        ensures
            self.spec_remove(wad, state, method, title_metadata) is Ok,
            ({
                let without = self.spec_remove(wad, state, method, title_metadata).unwrap();
                let again = adder.spec_add(without.1, without.0, data, without.2);
                &&& again is Ok
                &&& again.unwrap().0.bytes == state.bytes
                &&& again.unwrap().1 == wad
                &&& again.unwrap().2 == title_metadata
            }),
    {
        let entries = title_metadata.content_chunk_entries;
        let last = entries.len() - 1;
        let rest = entries.subrange(0, last);
        let offset = wad.spec_content_offset(entries, last);
        let cipher = state.bytes.subrange(offset, offset + entries[last].size);
        self.lemma_remove_last(wad, state, method, title_metadata);
        lemma_without_last_fits(wad, state, title_metadata);
        lemma_holds_in_full(wad, state.bytes, entries);
        wad.lemma_offsets(entries, last);
        let without = self.spec_remove(wad, state, method, title_metadata).unwrap();
        let entry = adder.spec_new_entry(without.2.spec_is_version_1(), data);
        assert(entry == entries[last]);
        assert(rest.push(entry) =~= entries);
        assert(with_entries(without.2, entries) == title_metadata);
        let sized = without.1.spec_sized_for(title_metadata);
        assert(sized.spec_contents_offset() == wad.spec_contents_offset());
        assert(sized.spec_logical_size(entries) == wad.spec_logical_size(entries));
        adder.lemma_add_holds(without.1, without.0, data, without.2, cipher);
        let again = adder.spec_add(without.1, without.0, data, without.2).unwrap();
        assert(again.2 == title_metadata);
        assert(again.1 == wad);
        lemma_holds_in_full(wad, again.0.bytes, entries);
        assert(again.0.bytes.len() == state.bytes.len());
        assert forall|position: int| 0 <= position < entries.len() implies again.0.bytes.subrange(
            #[trigger] wad.spec_content_offset(entries, position),
            wad.spec_content_offset(entries, position) + entries[position].size,
        ) == state.bytes.subrange(
            wad.spec_content_offset(entries, position),
            wad.spec_content_offset(entries, position) + entries[position].size,
        ) by {
            if position < last {
                assert(again.0.bytes.subrange(
                    again.1.spec_content_offset(entries, position),
                    again.1.spec_content_offset(entries, position) + rest[position].size,
                ) == without.0.bytes.subrange(
                    without.1.spec_content_offset(rest, position),
                    without.1.spec_content_offset(rest, position) + rest[position].size,
                ));
            }
        }
        lemma_same_wad(wad, again.0, state, title_metadata);
    }
}

} // verus!
