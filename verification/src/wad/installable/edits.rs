//! What the edits of a WAD leave, said of the stream they leave rather
//! than of the steps they take: removing a content, replacing one, and the
//! safe writes of the ticket and of the certificate chain.

use vstd::prelude::*;
use crate::align::lemma_ceil_align;
use crate::bytes::zeros;
use crate::stream::{lemma_written_part, spec_write, StreamError, StreamState, STREAM_LIMIT};
use crate::ticket::PreSwitchTicketView;
use crate::title_metadata::{
    entries_of_version, TitleMetadataContentEntry, TitleMetadataView, MAX_CONTENT_ENTRIES,
};
use crate::wad::installable::consistency::{
    lemma_restore_is_write, lemma_store_in_full, spec_contents_in_full, spec_holds,
    spec_holds_content, spec_holds_layout, spec_sections,
};
use crate::title_metadata::content_selector::{
    lemma_select_in_range, spec_select, ContentSelectorMethod,
};
use crate::wad::installable::content::{
    lemma_sizes_grow, spec_content_hash, spec_encrypt_content, spec_trim, with_entries,
    ModifyContentBuilder,
};
use crate::wad::installable::remove_add::{
    lemma_ceil64_grows, lemma_holds_in_full, lemma_sizes_not_negative,
};
use crate::wad::installable::{
    ceil64, lemma_aligned_sizes_grow, lemma_section_bytes, spec_aligned_sizes,
    spec_section_bytes, spec_sizes, InstallableWad, InstallableWadError, WadSection,
};

verus! {

/// Whether the contents are those of the entries from `first` on, none of
/// them longer than its entry says and the first `full` of them as long.
pub open spec fn spec_contents_for(
    contents: Seq<Seq<u8>>,
    entries: Seq<TitleMetadataContentEntry>,
    first: int,
    full: int,
) -> bool {
    &&& 0 <= first
    &&& 0 <= full <= contents.len()
    &&& first + contents.len() == entries.len()
    &&& forall|k: int|
        0 <= k < contents.len() ==> (#[trigger] contents[k]).len() <= entries[first + k].size
    &&& forall|k: int| 0 <= k < full ==> (#[trigger] contents[k]).len() == entries[first + k].size
}

/// The sections of contents are no longer than the aligned sizes of their
/// entries say, and as long where every content is as long as its entry
/// says.
pub proof fn lemma_sections_len(
    contents: Seq<Seq<u8>>,
    entries: Seq<TitleMetadataContentEntry>,
    first: int,
    full: int,
    done: int,
)
    requires
        spec_contents_for(contents, entries, first, full),
        0 <= done <= contents.len(),
    ensures
        spec_sections(contents, done).len() <= spec_aligned_sizes(entries, entries.len() as int)
            - spec_aligned_sizes(entries, first + done),
        full == contents.len() ==> spec_sections(contents, done).len() == spec_aligned_sizes(
            entries,
            entries.len() as int,
        ) - spec_aligned_sizes(entries, first + done),
    decreases contents.len() - done,
{
    if done < contents.len() {
        let section = spec_section_bytes(contents[done]);
        let rest = spec_sections(contents, done + 1);
        lemma_section_bytes(contents[done]);
        assert(contents[done].len() <= entries[first + done].size);
        lemma_ceil64_grows(contents[done].len() as int, entries[first + done].size as int);
        assert(spec_sections(contents, done) == section + rest);
        assert((section + rest).len() == section.len() + rest.len());
        assert(spec_aligned_sizes(entries, first + done + 1) == spec_aligned_sizes(
            entries,
            first + done,
        ) + ceil64(entries[first + done].size as int));
        lemma_sections_len(contents, entries, first, full, done + 1);
    }
}

/// The section of a content that is as long as its entry says, as are those
/// before it, stands among the sections where the aligned sizes of the
/// entries place it.
pub proof fn lemma_section_among(
    contents: Seq<Seq<u8>>,
    entries: Seq<TitleMetadataContentEntry>,
    first: int,
    full: int,
    done: int,
    position: int,
)
    requires
        spec_contents_for(contents, entries, first, full),
        0 <= done <= position < full,
    ensures
        ({
            let from = spec_aligned_sizes(entries, first + position) - spec_aligned_sizes(
                entries,
                first + done,
            );
            let width = ceil64(entries[first + position].size as int);
            &&& 0 <= from
            &&& from + width <= spec_sections(contents, done).len()
            &&& spec_sections(contents, done).subrange(from, from + width) == spec_section_bytes(
                contents[position],
            )
        }),
    decreases position - done,
{
    let section = spec_section_bytes(contents[done]);
    let rest = spec_sections(contents, done + 1);
    lemma_section_bytes(contents[done]);
    assert(contents[done].len() == entries[first + done].size);
    assert(spec_sections(contents, done) == section + rest);
    crate::bytes::lemma_parts_of_concat(section, rest);
    assert(spec_aligned_sizes(entries, first + done + 1) == spec_aligned_sizes(
        entries,
        first + done,
    ) + ceil64(entries[first + done].size as int));
    if position > done {
        lemma_section_among(contents, entries, first, full, done + 1, position);
        lemma_aligned_sizes_grow(entries, first + done + 1, first + position);
        let from = spec_aligned_sizes(entries, first + position) - spec_aligned_sizes(
            entries,
            first + done + 1,
        );
        let width = ceil64(entries[first + position].size as int);
        crate::bytes::lemma_subrange_of_subrange(
            section + rest,
            section.len() as int,
            (section + rest).len() as int,
            from,
            width,
        );
    }
}

/// Whether a content stands in the bytes as the content of the entry at
/// `position`: as its section, where the sizes of the WAD and the entries
/// place it.
pub open spec fn spec_section_stands(
    wad: InstallableWad,
    bytes: Seq<u8>,
    entries: Seq<TitleMetadataContentEntry>,
    position: int,
    content: Seq<u8>,
) -> bool {
    let offset = wad.spec_content_offset(entries, position);
    let width = ceil64(entries[position].size as int);
    &&& 0 <= offset
    &&& offset + width <= bytes.len()
    &&& bytes.subrange(offset, offset + width) == spec_section_bytes(content)
}

/// Whether the contents stand in the bytes as the contents of the entries
/// from `first` on.
pub open spec fn spec_sections_stand(
    wad: InstallableWad,
    bytes: Seq<u8>,
    entries: Seq<TitleMetadataContentEntry>,
    first: int,
    contents: Seq<Seq<u8>>,
) -> bool {
    forall|k: int|
        0 <= k < contents.len() ==> spec_section_stands(
            wad,
            bytes,
            entries,
            first + k,
            #[trigger] contents[k],
        )
}

/// The sections of the contents of the entries from `first` on, written at
/// the offset of the first of them, stand in the stream; what stands
/// before them and behind the last content is left as it was.
pub proof fn lemma_written_sections(
    wad: InstallableWad,
    bytes: Seq<u8>,
    entries: Seq<TitleMetadataContentEntry>,
    first: int,
    contents: Seq<Seq<u8>>,
)
    requires
        spec_contents_for(contents, entries, first, contents.len() as int),
    ensures
        ({
            let at = wad.spec_content_offset(entries, first);
            let end = wad.spec_logical_size(entries);
            let out = spec_write(bytes, at, spec_sections(contents, 0));
            &&& 64 <= at <= end
            &&& at + spec_sections(contents, 0).len() == end
            &&& spec_sections_stand(wad, out, entries, first, contents)
            &&& out.len() == if bytes.len() >= end {
                bytes.len() as int
            } else {
                end
            }
            &&& forall|j: int| 0 <= j < at && j < bytes.len() ==> #[trigger] out[j] == bytes[j]
            &&& forall|j: int| end <= j < bytes.len() ==> #[trigger] out[j] == bytes[j]
        }),
{
    let at = wad.spec_content_offset(entries, first);
    let sections = spec_sections(contents, 0);
    let out = spec_write(bytes, at, sections);
    wad.lemma_offsets(entries, first);
    lemma_aligned_sizes_grow(entries, first, entries.len() as int);
    lemma_sections_len(contents, entries, first, contents.len() as int, 0);
    lemma_written_part(bytes, at, sections);
    assert forall|k: int| 0 <= k < contents.len() implies spec_section_stands(
        wad,
        out,
        entries,
        first + k,
        #[trigger] contents[k],
    ) by {
        lemma_section_among(contents, entries, first, contents.len() as int, 0, k);
        wad.lemma_offsets(entries, first + k);
        let from = spec_aligned_sizes(entries, first + k) - spec_aligned_sizes(entries, first);
        crate::bytes::lemma_subrange_of_subrange(
            out,
            at,
            at + sections.len(),
            from,
            ceil64(entries[first + k].size as int),
        );
    }
}

/// Sections that stand in a stream stand in another that agrees with it
/// from the offset of the first of them up to the end of the last.
pub proof fn lemma_sections_stay(
    wad: InstallableWad,
    held: Seq<u8>,
    bytes: Seq<u8>,
    entries: Seq<TitleMetadataContentEntry>,
    first: int,
    contents: Seq<Seq<u8>>,
)
    requires
        0 <= first,
        first + contents.len() <= entries.len(),
        spec_sections_stand(wad, held, entries, first, contents),
        wad.spec_content_offset(entries, first + contents.len()) <= bytes.len(),
        forall|j: int|
            wad.spec_content_offset(entries, first) <= j < wad.spec_content_offset(
                entries,
                first + contents.len(),
            ) && j < held.len() ==> #[trigger] bytes[j] == held[j],
    ensures
        spec_sections_stand(wad, bytes, entries, first, contents),
{
    assert forall|k: int| 0 <= k < contents.len() implies spec_section_stands(
        wad,
        bytes,
        entries,
        first + k,
        #[trigger] contents[k],
    ) by {
        assert(spec_section_stands(wad, held, entries, first + k, contents[k]));
        let from = wad.spec_content_offset(entries, first + k);
        let to = from + ceil64(entries[first + k].size as int);
        lemma_aligned_sizes_grow(entries, first, first + k);
        lemma_aligned_sizes_grow(entries, first + k + 1, first + contents.len());
        assert(to == wad.spec_content_offset(entries, first + k + 1));
        assert(bytes.subrange(from, to) =~= held.subrange(from, to));
    }
}

/// A content that stands in a stream as its section, and is as long as its
/// entry says, stands there in full with zeros up to the boundary.
pub proof fn lemma_section_holds(
    wad: InstallableWad,
    bytes: Seq<u8>,
    entries: Seq<TitleMetadataContentEntry>,
    position: int,
    content: Seq<u8>,
)
    requires
        0 <= position < entries.len(),
        spec_section_stands(wad, bytes, entries, position, content),
        content.len() == entries[position].size,
    ensures
        spec_holds_content(wad, bytes, entries, position),
        bytes.subrange(
            wad.spec_content_offset(entries, position),
            wad.spec_content_offset(entries, position) + entries[position].size,
        ) == content,
{
    let offset = wad.spec_content_offset(entries, position);
    let size = entries[position].size as int;
    lemma_section_bytes(content);
    lemma_ceil_align(size, 64);
    crate::bytes::lemma_subrange_of_subrange(bytes, offset, offset + ceil64(size), 0, size);
    crate::bytes::lemma_subrange_of_subrange(
        bytes,
        offset,
        offset + ceil64(size),
        size,
        ceil64(size) - size,
    );
    crate::bytes::lemma_parts_of_concat(content, zeros(ceil64(size) - size));
}

/// A stream holds a WAD where the header stands at its start, the title
/// metadata in its section, and every content as its section; the contents
/// are then those.
#[verifier::rlimit(60)]
pub proof fn lemma_layout_of_parts(
    wad: InstallableWad,
    state: StreamState,
    title_metadata: TitleMetadataView,
    contents: Seq<Seq<u8>>,
)
    requires
        state.growable,
        64 <= state.bytes.len() <= STREAM_LIMIT,
        state.bytes.len() <= usize::MAX,
        state.bytes.subrange(0, 64) == wad.spec_serialize(),
        title_metadata.wf(),
        wad.title_metadata_size == title_metadata.spec_serialize().len(),
        wad.spec_contents_offset() <= state.bytes.len(),
        state.bytes.subrange(wad.spec_title_metadata_offset(), wad.spec_contents_offset())
            == spec_section_bytes(title_metadata.spec_serialize()),
        spec_contents_for(
            contents,
            title_metadata.content_chunk_entries,
            0,
            contents.len() as int,
        ),
        spec_sections_stand(wad, state.bytes, title_metadata.content_chunk_entries, 0, contents),
    ensures
        spec_holds_layout(wad, state, title_metadata),
        forall|i: int|
            0 <= i < contents.len() ==> state.bytes.subrange(
                wad.spec_content_offset(title_metadata.content_chunk_entries, i),
                wad.spec_content_offset(title_metadata.content_chunk_entries, i)
                    + title_metadata.content_chunk_entries[i].size,
            ) == #[trigger] contents[i],
{
    let entries = title_metadata.content_chunk_entries;
    let bytes = state.bytes;
    assert forall|i: int| 0 <= i < entries.len() implies #[trigger] spec_holds_content(
        wad,
        bytes,
        entries,
        i,
    ) by {
        assert(spec_section_stands(wad, bytes, entries, 0 + i, contents[i]));
        lemma_section_holds(wad, bytes, entries, i, contents[i]);
    }
    assert forall|i: int| 0 <= i < contents.len() implies bytes.subrange(
        wad.spec_content_offset(entries, i),
        wad.spec_content_offset(entries, i) + entries[i].size,
    ) == #[trigger] contents[i] by {
        assert(spec_section_stands(wad, bytes, entries, 0 + i, contents[i]));
        lemma_section_holds(wad, bytes, entries, i, contents[i]);
    }
}

/// Sections that stand for the first entries and sections that stand for
/// the entries behind them stand together for all of them.
pub proof fn lemma_sections_join(
    wad: InstallableWad,
    bytes: Seq<u8>,
    entries: Seq<TitleMetadataContentEntry>,
    front: Seq<Seq<u8>>,
    back: Seq<Seq<u8>>,
)
    requires
        spec_sections_stand(wad, bytes, entries, 0, front),
        spec_sections_stand(wad, bytes, entries, front.len() as int, back),
    ensures
        spec_sections_stand(wad, bytes, entries, 0, front + back),
{
    let all = front + back;
    assert forall|k: int| 0 <= k < all.len() implies spec_section_stands(
        wad,
        bytes,
        entries,
        0 + k,
        #[trigger] all[k],
    ) by {
        if k < front.len() {
            assert(all[k] == front[k]);
            assert(spec_section_stands(wad, bytes, entries, 0 + k, front[k]));
        } else {
            assert(all[k] == back[k - front.len()]);
            assert(spec_section_stands(
                wad,
                bytes,
                entries,
                front.len() + (k - front.len()),
                back[k - front.len()],
            ));
        }
    }
}

impl InstallableWad {
    /// The end of an edit: the stream in which the header, the title
    /// metadata and every content stand is cut behind the last content
    /// where that is asked for, and the header takes the sum of the sizes.
    /// What is left holds the WAD with the contents that stood, and every
    /// byte behind the header is as it was up to the end of the stream.
    #[verifier::rlimit(60)]
    pub proof fn lemma_finish(
        self,
        state: StreamState,
        title_metadata: TitleMetadataView,
        contents: Seq<Seq<u8>>,
        trim: bool,
    )
        requires
            state.growable,
            64 <= state.bytes.len() <= STREAM_LIMIT,
            state.bytes.len() <= usize::MAX,
            state.bytes.subrange(0, 64) == self.spec_serialize(),
            title_metadata.wf(),
            self.title_metadata_size == title_metadata.spec_serialize().len(),
            self.spec_contents_offset() <= state.bytes.len(),
            state.bytes.subrange(self.spec_title_metadata_offset(), self.spec_contents_offset())
                == spec_section_bytes(title_metadata.spec_serialize()),
            spec_contents_for(
                contents,
                title_metadata.content_chunk_entries,
                0,
                contents.len() as int,
            ),
            spec_sections_stand(
                self,
                state.bytes,
                title_metadata.content_chunk_entries,
                0,
                contents,
            ),
            spec_sizes(
                title_metadata.content_chunk_entries,
                title_metadata.content_chunk_entries.len() as int,
            ) <= u32::MAX,
        ensures
            ({
                let entries = title_metadata.content_chunk_entries;
                let end = self.spec_logical_size(entries);
                let cut = if trim {
                    spec_trim(state, end)
                } else {
                    Ok(state)
                };
                &&& 64 <= end <= state.bytes.len()
                &&& cut is Ok
                &&& self.spec_sync(cut.unwrap(), entries) is Ok
                &&& ({
                    let left = self.spec_sync(cut.unwrap(), entries).unwrap();
                    &&& spec_holds(left.1, left.0, title_metadata)
                    &&& left.1 == (InstallableWad {
                        content_size: spec_sizes(entries, entries.len() as int) as u32,
                        ..self
                    })
                    &&& left.0.bytes.len() == if trim {
                        end
                    } else {
                        state.bytes.len() as int
                    }
                    &&& forall|j: int|
                        64 <= j < left.0.bytes.len() ==> #[trigger] left.0.bytes[j]
                            == state.bytes[j]
                    &&& forall|i: int|
                        0 <= i < contents.len() ==> left.0.bytes.subrange(
                            left.1.spec_content_offset(entries, i),
                            left.1.spec_content_offset(entries, i) + entries[i].size,
                        ) == #[trigger] contents[i]
                })
            }),
    {
        let entries = title_metadata.content_chunk_entries;
        let end = self.spec_logical_size(entries);
        lemma_layout_of_parts(self, state, title_metadata, contents);
        self.lemma_trim_holds(state, title_metadata);
        let cut = if trim {
            spec_trim(state, end).unwrap()
        } else {
            state
        };
        self.lemma_sync_holds(cut, title_metadata);
        let left = self.spec_sync(cut, entries).unwrap();
        assert(left.1.spec_contents_offset() == self.spec_contents_offset());
        assert forall|i: int| 0 <= i < contents.len() implies left.0.bytes.subrange(
            left.1.spec_content_offset(entries, i),
            left.1.spec_content_offset(entries, i) + entries[i].size,
        ) == #[trigger] contents[i] by {
            let from = self.spec_content_offset(entries, i);
            let size = entries[i].size as int;
            self.lemma_offsets(entries, i);
            lemma_aligned_sizes_grow(entries, i + 1, entries.len() as int);
            lemma_ceil_align(size, 64);
            assert(from + size <= end);
            assert(left.1.spec_content_offset(entries, i) == from);
            assert(state.bytes.subrange(from, from + size) == contents[i]);
            assert(left.0.bytes.subrange(from, from + size) =~= state.bytes.subrange(
                from,
                from + size,
            ));
        }
    }
}

/// The aligned sizes and the sizes of entries without the one at
/// `position`.
pub proof fn lemma_sizes_without(
    entries: Seq<TitleMetadataContentEntry>,
    position: int,
    count: int,
)
    requires
        0 <= position < entries.len(),
        0 <= count < entries.len(),
    ensures
        spec_aligned_sizes(entries.remove(position), count) == if count <= position {
            spec_aligned_sizes(entries, count)
        } else {
            spec_aligned_sizes(entries, count + 1) - ceil64(entries[position].size as int)
        },
        spec_sizes(entries.remove(position), count) == if count <= position {
            spec_sizes(entries, count)
        } else {
            spec_sizes(entries, count + 1) - entries[position].size
        },
    decreases count,
{
    let rest = entries.remove(position);
    if count > 0 {
        lemma_sizes_without(entries, position, count - 1);
        assert(spec_aligned_sizes(rest, count) == spec_aligned_sizes(rest, count - 1) + ceil64(
            rest[count - 1].size as int,
        ));
        assert(spec_sizes(rest, count) == spec_sizes(rest, count - 1) + rest[count - 1].size);
        assert(spec_aligned_sizes(entries, count) == spec_aligned_sizes(entries, count - 1)
            + ceil64(entries[count - 1].size as int));
        assert(spec_sizes(entries, count) == spec_sizes(entries, count - 1) + entries[count
            - 1].size);
        assert(spec_aligned_sizes(entries, count + 1) == spec_aligned_sizes(entries, count)
            + ceil64(entries[count].size as int));
        assert(spec_sizes(entries, count + 1) == spec_sizes(entries, count) + entries[count].size);
        if count - 1 < position {
            assert(rest[count - 1] == entries[count - 1]);
        } else {
            assert(rest[count - 1] == entries[count]);
        }
    }
}

/// The aligned sizes and the sizes of entries with another entry at
/// `position`.
pub proof fn lemma_sizes_with(
    entries: Seq<TitleMetadataContentEntry>,
    position: int,
    entry: TitleMetadataContentEntry,
    count: int,
)
    requires
        0 <= position < entries.len(),
        0 <= count <= entries.len(),
    ensures
        spec_aligned_sizes(entries.update(position, entry), count) == if count <= position {
            spec_aligned_sizes(entries, count)
        } else {
            spec_aligned_sizes(entries, count) - ceil64(entries[position].size as int) + ceil64(
                entry.size as int,
            )
        },
        spec_sizes(entries.update(position, entry), count) == if count <= position {
            spec_sizes(entries, count)
        } else {
            spec_sizes(entries, count) - entries[position].size + entry.size
        },
    decreases count,
{
    if count > 0 {
        lemma_sizes_with(entries, position, entry, count - 1);
    }
}

/// A well-formed title metadata with other entries of its version, no more
/// than it can count, is well formed; with no more entries than before it
/// is no longer, and in a WAD that takes its size the contents begin no
/// later.
#[verifier::rlimit(60)]
pub proof fn lemma_other_entries(
    wad: InstallableWad,
    title_metadata: TitleMetadataView,
    others: Seq<TitleMetadataContentEntry>,
)
    requires
        title_metadata.wf(),
        wad.title_metadata_size == title_metadata.spec_serialize().len(),
        others.len() <= MAX_CONTENT_ENTRIES,
        entries_of_version(others, title_metadata.spec_is_version_1()),
    ensures
        ({
            let other = with_entries(title_metadata, others);
            let sized = wad.spec_sized_for(other);
            &&& other.wf()
            &&& sized.title_metadata_size == other.spec_serialize().len()
            &&& sized.spec_title_metadata_offset() == wad.spec_title_metadata_offset()
            &&& others.len() <= title_metadata.content_chunk_entries.len()
                ==> sized.spec_contents_offset() <= wad.spec_contents_offset()
            &&& others.len() == title_metadata.content_chunk_entries.len() ==> sized == wad
        }),
{
    let other = with_entries(title_metadata, others);
    assert(other.wf());
    title_metadata.lemma_size();
    other.lemma_size();
    if others.len() <= title_metadata.content_chunk_entries.len() {
        lemma_ceil64_grows(other.spec_size(), title_metadata.spec_size());
    }
}

impl InstallableWad {
    /// Writing contents back from the offset of the content at `first` on,
    /// in a stream that grows and has room for the WAD, is one write of
    /// their sections there.
    pub proof fn lemma_restored(
        self,
        state: StreamState,
        entries: Seq<TitleMetadataContentEntry>,
        first: int,
        contents: Seq<Seq<u8>>,
    )
        requires
            state.growable,
            spec_contents_for(contents, entries, first, contents.len() as int),
            self.spec_logical_size(entries) <= STREAM_LIMIT,
            self.spec_logical_size(entries) <= usize::MAX,
        ensures
            self.spec_restore_contents(state, entries, first, contents) is Ok,
            self.spec_restore_contents(state, entries, first, contents).unwrap().growable,
            self.spec_restore_contents(state, entries, first, contents).unwrap().bytes
                == if contents.len() == 0 {
                state.bytes
            } else {
                spec_write(
                    state.bytes,
                    self.spec_content_offset(entries, first),
                    spec_sections(contents, 0),
                )
            },
    {
        if contents.len() > 0 {
            self.lemma_offsets(entries, first);
            lemma_aligned_sizes_grow(entries, first, entries.len() as int);
            lemma_sections_len(contents, entries, first, contents.len() as int, 0);
            lemma_restore_is_write(
                state.at(self.spec_content_offset(entries, first)),
                contents,
                0,
            );
        }
    }
}

/// A stream that holds a WAD has room for a safe write of the title
/// metadata without one of its entries. The contents before that entry are
/// then read where they stand.
#[verifier::rlimit(60)]
pub proof fn lemma_without_fits(
    wad: InstallableWad,
    state: StreamState,
    title_metadata: TitleMetadataView,
    position: int,
)
    requires
        spec_holds_layout(wad, state, title_metadata),
        0 <= position < title_metadata.content_chunk_entries.len(),
    ensures
        ({
            let entries = title_metadata.content_chunk_entries;
            let rest = entries.remove(position);
            let removed = with_entries(title_metadata, rest);
            let sized = wad.spec_sized_for(removed);
            &&& removed.wf()
            &&& wad.spec_safe_write_fits(state, removed)
            &&& sized.title_metadata_size == removed.spec_serialize().len()
            &&& sized.spec_title_metadata_offset() == wad.spec_title_metadata_offset()
            &&& 64 <= sized.spec_logical_size(rest) <= wad.spec_logical_size(entries)
                <= state.bytes.len()
            &&& 0 <= spec_sizes(rest, rest.len() as int) <= spec_sizes(
                entries,
                entries.len() as int,
            )
            &&& wad.spec_layout_fits(entries)
            &&& forall|i: int|
                0 <= i < position ==> #[trigger] wad.spec_content_offset(rest, i)
                    == wad.spec_content_offset(entries, i)
        }),
{
    let entries = title_metadata.content_chunk_entries;
    let count = entries.len() as int;
    let rest = entries.remove(position);
    let removed = with_entries(title_metadata, rest);
    let sized = wad.spec_sized_for(removed);
    let version_1 = title_metadata.spec_is_version_1();
    assert(entries_of_version(rest, version_1)) by {
        assert forall|i: int| 0 <= i < rest.len() implies (#[trigger] rest[i]).hash.spec_is_version_1()
            == version_1 by {
            if i < position {
                assert(rest[i] == entries[i]);
            } else {
                assert(rest[i] == entries[i + 1]);
            }
        }
    }
    lemma_other_entries(wad, title_metadata, rest);
    lemma_holds_in_full(wad, state.bytes, entries);
    wad.lemma_offsets(entries, count);
    sized.lemma_offsets(rest, count - 1);
    lemma_sizes_without(entries, position, count - 1);
    lemma_aligned_sizes_grow(entries, count - 1, count);
    lemma_ceil_align(entries[position].size as int, 64);
    lemma_sizes_not_negative(rest, count - 1);
    lemma_sizes_grow(entries, count - 1, count);
    assert forall|i: int| 0 <= i < position implies #[trigger] wad.spec_content_offset(rest, i)
        == wad.spec_content_offset(entries, i) by {
        lemma_sizes_without(entries, position, i);
    }
    assert(spec_contents_in_full(wad, state.bytes, rest)) by {
        assert forall|i: int| 0 <= i < rest.len() implies #[trigger] wad.spec_content_offset(
            rest,
            i,
        ) + rest[i].size <= state.bytes.len() by {
            lemma_sizes_without(entries, position, i);
            if i < position {
                assert(rest[i] == entries[i]);
                assert(wad.spec_content_offset(entries, i) + entries[i].size
                    <= state.bytes.len());
            } else {
                assert(rest[i] == entries[i + 1]);
                assert(wad.spec_content_offset(entries, i + 1) + entries[i + 1].size
                    <= state.bytes.len());
            }
        }
    }
}

impl InstallableWad {
    /// After a safe write of the title metadata that fits, the contents
    /// that the stream held where the old sizes place them stand where the
    /// new sizes place them.
    #[verifier::rlimit(60)]
    pub proof fn lemma_safe_sections_stand(
        self,
        state: StreamState,
        title_metadata: TitleMetadataView,
        contents: Seq<Seq<u8>>,
    )
        requires
            self.spec_safe_write_fits(state, title_metadata),
            contents.len() <= title_metadata.content_chunk_entries.len(),
            forall|k: int|
                0 <= k < contents.len() ==> #[trigger] contents[k] == state.bytes.subrange(
                    self.spec_content_offset(title_metadata.content_chunk_entries, k),
                    self.spec_content_offset(title_metadata.content_chunk_entries, k)
                        + title_metadata.content_chunk_entries[k].size,
                ),
        ensures
            spec_sections_stand(
                self.spec_sized_for(title_metadata),
                self.spec_write_title_metadata_safe(state, title_metadata).unwrap().0.bytes,
                title_metadata.content_chunk_entries,
                0,
                contents,
            ),
    {
        let entries = title_metadata.content_chunk_entries;
        let sized = self.spec_sized_for(title_metadata);
        let out = self.spec_write_title_metadata_safe(state, title_metadata).unwrap().0.bytes;
        self.lemma_safe_shape(state, title_metadata);
        assert forall|k: int| 0 <= k < contents.len() implies spec_section_stands(
            sized,
            out,
            entries,
            0 + k,
            #[trigger] contents[k],
        ) by {
            self.lemma_safe_bytes_content(state, title_metadata, k);
        }
    }
}

/// The contents that a stream holds are as many as the entries, each as
/// long as its entry says, and stand where the sizes place them.
#[verifier::rlimit(60)]
pub proof fn lemma_held_contents(
    wad: InstallableWad,
    state: StreamState,
    title_metadata: TitleMetadataView,
)
    requires
        spec_holds_layout(wad, state, title_metadata),
    ensures
        ({
            let entries = title_metadata.content_chunk_entries;
            let all = wad.spec_store(state.bytes, entries, 0);
            &&& all.len() == entries.len()
            &&& wad.spec_logical_size(entries) <= state.bytes.len()
            &&& forall|i: int|
                0 <= i < entries.len() ==> (#[trigger] all[i]).len() == entries[i].size
            &&& forall|i: int|
                0 <= i < entries.len() ==> #[trigger] all[i] == state.bytes.subrange(
                    wad.spec_content_offset(entries, i),
                    wad.spec_content_offset(entries, i) + entries[i].size,
                )
        }),
{
    let entries = title_metadata.content_chunk_entries;
    let all = wad.spec_store(state.bytes, entries, 0);
    lemma_holds_in_full(wad, state.bytes, entries);
    wad.lemma_offsets(entries, 0);
    assert(all.len() == entries.len());
    assert forall|i: int| 0 <= i < entries.len() implies #[trigger] all[i] == state.bytes.subrange(
        wad.spec_content_offset(entries, i),
        wad.spec_content_offset(entries, i) + entries[i].size,
    ) && all[i].len() == entries[i].size by {
        lemma_store_in_full(wad, state.bytes, entries, i);
    }
}

impl InstallableWad {
    /// The safe write of a removal: the title metadata without the entry
    /// at `position` is written safely. The header, the title metadata and
    /// the contents before that entry then stand in the stream, which is as
    /// long as it was; what stands between the header and the title
    /// metadata and behind the new end of the contents is left as it was.
    #[verifier::rlimit(60)]
    pub proof fn lemma_removal_front(
        self,
        state: StreamState,
        title_metadata: TitleMetadataView,
        position: int,
    )
        requires
            spec_holds_layout(self, state, title_metadata),
            0 <= position < title_metadata.content_chunk_entries.len(),
        ensures
            ({
                let entries = title_metadata.content_chunk_entries;
                let rest = entries.remove(position);
                let removed = with_entries(title_metadata, rest);
                let sized = self.spec_sized_for(removed);
                let all = self.spec_store(state.bytes, entries, 0);
                let safe = self.spec_write_title_metadata_safe(state, removed);
                &&& safe is Ok
                &&& safe.unwrap().1 == sized
                &&& safe.unwrap().0.growable
                &&& safe.unwrap().0.bytes.len() == state.bytes.len()
                &&& safe.unwrap().0.bytes.subrange(0, 64) == sized.spec_serialize()
                &&& safe.unwrap().0.bytes.subrange(
                    sized.spec_title_metadata_offset(),
                    sized.spec_contents_offset(),
                ) == spec_section_bytes(removed.spec_serialize())
                &&& spec_sections_stand(
                    sized,
                    safe.unwrap().0.bytes,
                    rest,
                    0,
                    all.subrange(0, position),
                )
                &&& forall|j: int|
                    64 <= j < self.spec_title_metadata_offset() ==> #[trigger] safe.unwrap().0.bytes[j]
                        == state.bytes[j]
                &&& forall|j: int|
                    sized.spec_logical_size(rest) <= j < state.bytes.len()
                        ==> #[trigger] safe.unwrap().0.bytes[j] == state.bytes[j]
            }),
    {
        let entries = title_metadata.content_chunk_entries;
        let rest = entries.remove(position);
        let removed = with_entries(title_metadata, rest);
        let sized = self.spec_sized_for(removed);
        let all = self.spec_store(state.bytes, entries, 0);
        let front = all.subrange(0, position);
        lemma_without_fits(self, state, title_metadata, position);
        lemma_held_contents(self, state, title_metadata);
        self.lemma_safe_step(state, removed);
        self.lemma_offsets(entries, 0);
        assert forall|k: int| 0 <= k < front.len() implies #[trigger] front[k]
            == state.bytes.subrange(
            self.spec_content_offset(rest, k),
            self.spec_content_offset(rest, k) + rest[k].size,
        ) by {
            assert(front[k] == all[k]);
            assert(rest[k] == entries[k]);
            assert(self.spec_content_offset(rest, k) == self.spec_content_offset(entries, k));
        }
        self.lemma_safe_sections_stand(state, removed, front);
        assert(sized.spec_contents_offset() == sized.spec_title_metadata_offset() + ceil64(
            removed.spec_serialize().len() as int,
        ));
    }

    /// The first steps of a removal: the safe write of the title metadata
    /// without the entry at `position`, and the contents behind it written
    /// back. The header, the title metadata and the contents of the other
    /// entries then stand in the stream, which is as long as it was; what
    /// stands between the header and the title metadata and behind the new
    /// end of the contents is left as it was.
    #[verifier::rlimit(60)]
    pub proof fn lemma_removal_stands(
        self,
        state: StreamState,
        title_metadata: TitleMetadataView,
        position: int,
    )
        requires
            spec_holds_layout(self, state, title_metadata),
            0 <= position < title_metadata.content_chunk_entries.len(),
        ensures
            ({
                let entries = title_metadata.content_chunk_entries;
                let rest = entries.remove(position);
                let removed = with_entries(title_metadata, rest);
                let sized = self.spec_sized_for(removed);
                let all = self.spec_store(state.bytes, entries, 0);
                let safe = self.spec_write_title_metadata_safe(state, removed);
                &&& self.spec_trailing(state.bytes, entries, position) == Ok::<
                    Seq<Seq<u8>>,
                    InstallableWadError,
                >(all.subrange(position + 1, entries.len() as int))
                &&& safe is Ok
                &&& safe.unwrap().1 == sized
                &&& sized.spec_restore_contents(
                    safe.unwrap().0,
                    rest,
                    position,
                    all.subrange(position + 1, entries.len() as int),
                ) is Ok
                &&& ({
                    let restored = sized.spec_restore_contents(
                        safe.unwrap().0,
                        rest,
                        position,
                        all.subrange(position + 1, entries.len() as int),
                    ).unwrap();
                    &&& restored.growable
                    &&& restored.bytes.len() == state.bytes.len()
                    &&& restored.bytes.subrange(0, 64) == sized.spec_serialize()
                    &&& restored.bytes.subrange(
                        sized.spec_title_metadata_offset(),
                        sized.spec_contents_offset(),
                    ) == spec_section_bytes(removed.spec_serialize())
                    &&& spec_contents_for(
                        all.remove(position),
                        rest,
                        0,
                        all.remove(position).len() as int,
                    )
                    &&& spec_sections_stand(sized, restored.bytes, rest, 0, all.remove(position))
                    &&& forall|j: int|
                        64 <= j < self.spec_title_metadata_offset() ==> #[trigger] restored.bytes[j]
                            == state.bytes[j]
                    &&& forall|j: int|
                        sized.spec_logical_size(rest) <= j < state.bytes.len()
                            ==> #[trigger] restored.bytes[j] == state.bytes[j]
                })
            }),
    {
        let entries = title_metadata.content_chunk_entries;
        let count = entries.len() as int;
        let rest = entries.remove(position);
        let removed = with_entries(title_metadata, rest);
        let sized = self.spec_sized_for(removed);
        let all = self.spec_store(state.bytes, entries, 0);
        let front = all.subrange(0, position);
        let back = all.subrange(position + 1, count);
        let contents = all.remove(position);
        lemma_without_fits(self, state, title_metadata, position);
        lemma_held_contents(self, state, title_metadata);
        assert(self.spec_trailing(state.bytes, entries, position).unwrap() =~= back);
        self.lemma_removal_front(state, title_metadata, position);
        let placed = self.spec_write_title_metadata_safe(state, removed).unwrap().0;
        lemma_removed_contents(all, entries, position);
        sized.lemma_restored(placed, rest, position, back);
        let restored = sized.spec_restore_contents(placed, rest, position, back).unwrap();
        sized.lemma_offsets(rest, position);
        sized.lemma_offsets(rest, 0);
        lemma_aligned_sizes_grow(rest, position, count - 1);
        if back.len() > 0 {
            lemma_written_sections(sized, placed.bytes, rest, position, back);
        } else {
            assert(spec_sections_stand(sized, restored.bytes, rest, position, back));
        }
        lemma_sections_stay(sized, placed.bytes, restored.bytes, rest, 0, front);
        lemma_sections_join(sized, restored.bytes, rest, front, back);
        assert(contents =~= front + back);
        let at = sized.spec_title_metadata_offset();
        assert(restored.bytes.subrange(0, 64) =~= placed.bytes.subrange(0, 64));
        assert(restored.bytes.subrange(at, sized.spec_contents_offset())
            =~= placed.bytes.subrange(at, sized.spec_contents_offset()));
    }
}

/// Contents that are as long as their entries say, without the one at
/// `position`, are as long as the entries without that one say.
pub proof fn lemma_removed_contents(
    all: Seq<Seq<u8>>,
    entries: Seq<TitleMetadataContentEntry>,
    position: int,
)
    requires
        all.len() == entries.len(),
        0 <= position < entries.len(),
        forall|i: int| 0 <= i < entries.len() ==> (#[trigger] all[i]).len() == entries[i].size,
    ensures
        spec_contents_for(
            all.remove(position),
            entries.remove(position),
            0,
            all.remove(position).len() as int,
        ),
        spec_contents_for(
            all.subrange(position + 1, entries.len() as int),
            entries.remove(position),
            position,
            entries.len() - position - 1,
        ),
{
    let rest = entries.remove(position);
    let contents = all.remove(position);
    let back = all.subrange(position + 1, entries.len() as int);
    assert forall|k: int| 0 <= k < contents.len() implies (#[trigger] contents[k]).len() == rest[0
        + k].size by {
        if k < position {
            assert(contents[k] == all[k]);
            assert(rest[k] == entries[k]);
        } else {
            assert(contents[k] == all[k + 1]);
            assert(rest[k] == entries[k + 1]);
        }
    }
    assert forall|k: int| 0 <= k < back.len() implies (#[trigger] back[k]).len() == rest[position
        + k].size by {
        assert(back[k] == all[position + 1 + k]);
        assert(rest[position + k] == entries[position + 1 + k]);
    }
}

impl InstallableWad {
    /// What a removal of the content at `position` that succeeds leaves:
    /// the stream, the WAD and the title metadata.
    pub open spec fn spec_removed(
        self,
        state: StreamState,
        title_metadata: TitleMetadataView,
        position: int,
        trim: bool,
    ) -> (StreamState, InstallableWad, TitleMetadataView) {
        let entries = title_metadata.content_chunk_entries;
        let rest = entries.remove(position);
        let removed = with_entries(title_metadata, rest);
        let safe = self.spec_write_title_metadata_safe(state, removed).unwrap();
        let restored = safe.1.spec_restore_contents(
            safe.0,
            rest,
            position,
            self.spec_store(state.bytes, entries, 0).subrange(position + 1, entries.len() as int),
        ).unwrap();
        let cut = if trim {
            spec_trim(restored, safe.1.spec_logical_size(rest)).unwrap()
        } else {
            restored
        };
        let left = safe.1.spec_sync(cut, rest).unwrap();
        (left.0, left.1, removed)
    }

    /// What a removal leaves holds the WAD without the content: the header
    /// has the sizes of what is left, and the other contents stand in their
    /// order, each with its bytes.
    #[verifier::rlimit(60)]
    pub proof fn lemma_removed_holds(
        self,
        state: StreamState,
        title_metadata: TitleMetadataView,
        position: int,
        trim: bool,
    )
        requires
            spec_holds(self, state, title_metadata),
            0 <= position < title_metadata.content_chunk_entries.len(),
        ensures
            ({
                let entries = title_metadata.content_chunk_entries;
                let rest = entries.remove(position);
                let all = self.spec_store(state.bytes, entries, 0);
                let left = self.spec_removed(state, title_metadata, position, trim);
                &&& spec_holds(left.1, left.0, left.2)
                &&& left.1 == (InstallableWad {
                    content_size: spec_sizes(rest, rest.len() as int) as u32,
                    title_metadata_size: left.2.spec_serialize().len() as u32,
                    ..self
                })
                &&& left.1.spec_title_metadata_offset() == self.spec_title_metadata_offset()
                &&& left.0.bytes.len() == if trim {
                    left.1.spec_logical_size(rest)
                } else {
                    state.bytes.len() as int
                }
                &&& left.1.spec_logical_size(rest) <= state.bytes.len()
                &&& forall|j: int|
                    64 <= j < self.spec_title_metadata_offset() ==> #[trigger] left.0.bytes[j]
                        == state.bytes[j]
                &&& forall|j: int|
                    left.1.spec_logical_size(rest) <= j < left.0.bytes.len()
                        ==> #[trigger] left.0.bytes[j] == state.bytes[j]
                &&& forall|i: int|
                    0 <= i < rest.len() ==> left.0.bytes.subrange(
                        #[trigger] left.1.spec_content_offset(rest, i),
                        left.1.spec_content_offset(rest, i) + rest[i].size,
                    ) == all.remove(position)[i]
            }),
    {
        let entries = title_metadata.content_chunk_entries;
        let count = entries.len() as int;
        let rest = entries.remove(position);
        let removed = with_entries(title_metadata, rest);
        let sized = self.spec_sized_for(removed);
        let all = self.spec_store(state.bytes, entries, 0);
        let back = all.subrange(position + 1, count);
        let contents = all.remove(position);
        lemma_without_fits(self, state, title_metadata, position);
        self.lemma_removal_stands(state, title_metadata, position);
        let placed = self.spec_write_title_metadata_safe(state, removed).unwrap().0;
        let restored = sized.spec_restore_contents(placed, rest, position, back).unwrap();
        sized.lemma_offsets(rest, 0);
        sized.lemma_offsets(rest, count - 1);
        sized.lemma_finish(restored, removed, contents, trim);
        let left = self.spec_removed(state, title_metadata, position, trim);
        assert(left.1.spec_contents_offset() == sized.spec_contents_offset());
        assert(left.1.spec_logical_size(rest) == sized.spec_logical_size(rest));
        self.lemma_offsets(entries, 0);
    }
}

impl<'c> ModifyContentBuilder<'c> {
    /// Taking a content out of a stream that holds a WAD leaves a stream
    /// that holds the WAD without it: the title metadata has lost the
    /// entry, the header has the sizes of what is left, and the other
    /// contents stand in their order, each with its bytes. What stands
    /// between the header and the title metadata is left as it was, and so
    /// is what stands behind the new end of the contents where the stream
    /// is not cut there.
    #[verifier::rlimit(60)]
    pub proof fn lemma_remove_holds(
        self,
        wad: InstallableWad,
        state: StreamState,
        method: ContentSelectorMethod,
        title_metadata: TitleMetadataView,
    )
        requires
            spec_holds(wad, state, title_metadata),
            spec_select(method, title_metadata.content_chunk_entries) is Some,
        ensures
            self.spec_remove(wad, state, method, title_metadata) is Ok,
            ({
                let entries = title_metadata.content_chunk_entries;
                let position = spec_select(method, entries).unwrap();
                let rest = entries.remove(position);
                let left = self.spec_remove(wad, state, method, title_metadata).unwrap();
                &&& 0 <= position < entries.len()
                &&& left.2 == with_entries(title_metadata, rest)
                &&& spec_holds(left.1, left.0, left.2)
                &&& left.1 == (InstallableWad {
                    content_size: spec_sizes(rest, rest.len() as int) as u32,
                    title_metadata_size: left.2.spec_serialize().len() as u32,
                    ..wad
                })
                &&& left.0.bytes.len() == if self.trim_if_is_file {
                    left.1.spec_logical_size(rest)
                } else {
                    state.bytes.len() as int
                }
                &&& forall|j: int|
                    64 <= j < wad.spec_title_metadata_offset() ==> #[trigger] left.0.bytes[j]
                        == state.bytes[j]
                &&& forall|j: int|
                    left.1.spec_logical_size(rest) <= j < left.0.bytes.len()
                        ==> #[trigger] left.0.bytes[j] == state.bytes[j]
                &&& forall|i: int|
                    0 <= i < position ==> left.0.bytes.subrange(
                        #[trigger] left.1.spec_content_offset(rest, i),
                        left.1.spec_content_offset(rest, i) + rest[i].size,
                    ) == state.bytes.subrange(
                        wad.spec_content_offset(entries, i),
                        wad.spec_content_offset(entries, i) + entries[i].size,
                    )
                &&& forall|i: int|
                    position <= i < rest.len() ==> left.0.bytes.subrange(
                        #[trigger] left.1.spec_content_offset(rest, i),
                        left.1.spec_content_offset(rest, i) + rest[i].size,
                    ) == state.bytes.subrange(
                        wad.spec_content_offset(entries, i + 1),
                        wad.spec_content_offset(entries, i + 1) + entries[i + 1].size,
                    )
            }),
    {
        let entries = title_metadata.content_chunk_entries;
        let count = entries.len() as int;
        lemma_select_in_range(method, entries);
        let position = spec_select(method, entries).unwrap();
        let rest = entries.remove(position);
        let all = wad.spec_store(state.bytes, entries, 0);
        let contents = all.remove(position);
        self.lemma_remove_is(wad, state, method, title_metadata);
        lemma_held_contents(wad, state, title_metadata);
        wad.lemma_removed_holds(state, title_metadata, position, self.trim_if_is_file);
        let left = wad.spec_removed(state, title_metadata, position, self.trim_if_is_file);
        assert forall|i: int| 0 <= i < position implies left.0.bytes.subrange(
            #[trigger] left.1.spec_content_offset(rest, i),
            left.1.spec_content_offset(rest, i) + rest[i].size,
        ) == state.bytes.subrange(
            wad.spec_content_offset(entries, i),
            wad.spec_content_offset(entries, i) + entries[i].size,
        ) by {
            assert(contents[i] == all[i]);
            assert(rest[i] == entries[i]);
        }
        assert forall|i: int| position <= i < rest.len() implies left.0.bytes.subrange(
            #[trigger] left.1.spec_content_offset(rest, i),
            left.1.spec_content_offset(rest, i) + rest[i].size,
        ) == state.bytes.subrange(
            wad.spec_content_offset(entries, i + 1),
            wad.spec_content_offset(entries, i + 1) + entries[i + 1].size,
        ) by {
            assert(contents[i] == all[i + 1]);
            assert(rest[i] == entries[i + 1]);
        }
    }

    /// A removal from a stream that holds a WAD succeeds where the
    /// selector stands for a content, and leaves what `spec_removed` says.
    #[verifier::rlimit(60)]
    pub proof fn lemma_remove_is(
        self,
        wad: InstallableWad,
        state: StreamState,
        method: ContentSelectorMethod,
        title_metadata: TitleMetadataView,
    )
        requires
            spec_holds(wad, state, title_metadata),
            spec_select(method, title_metadata.content_chunk_entries) is Some,
        ensures
            self.spec_remove(wad, state, method, title_metadata) == Ok::<
                (StreamState, InstallableWad, TitleMetadataView),
                InstallableWadError,
            >(
                wad.spec_removed(
                    state,
                    title_metadata,
                    spec_select(method, title_metadata.content_chunk_entries).unwrap(),
                    self.trim_if_is_file,
                ),
            ),
    {
        let entries = title_metadata.content_chunk_entries;
        let count = entries.len() as int;
        lemma_select_in_range(method, entries);
        let position = spec_select(method, entries).unwrap();
        let rest = entries.remove(position);
        let removed = with_entries(title_metadata, rest);
        let sized = wad.spec_sized_for(removed);
        let all = wad.spec_store(state.bytes, entries, 0);
        let back = all.subrange(position + 1, count);
        lemma_without_fits(wad, state, title_metadata, position);
        wad.lemma_removal_stands(state, title_metadata, position);
        let placed = wad.spec_write_title_metadata_safe(state, removed).unwrap().0;
        let restored = sized.spec_restore_contents(placed, rest, position, back).unwrap();
        sized.lemma_offsets(rest, 0);
        sized.lemma_offsets(rest, count - 1);
        sized.lemma_finish(restored, removed, all.remove(position), self.trim_if_is_file);
    }
}

/// The contents that are kept from a stream are as many as the entries and
/// none longer than its entry says; the first of them, which the stream
/// holds in full, are as long, and are the bytes that stand there.
pub proof fn lemma_kept_clipped(
    wad: InstallableWad,
    bytes: Seq<u8>,
    entries: Seq<TitleMetadataContentEntry>,
    full: int,
)
    requires
        0 <= full <= entries.len(),
        forall|i: int|
            0 <= i < full ==> #[trigger] wad.spec_content_offset(entries, i) + entries[i].size
                <= bytes.len(),
    ensures
        spec_contents_for(wad.spec_store(bytes, entries, 0), entries, 0, full),
        forall|i: int|
            0 <= i < full ==> #[trigger] wad.spec_store(bytes, entries, 0)[i] == bytes.subrange(
                wad.spec_content_offset(entries, i),
                wad.spec_content_offset(entries, i) + entries[i].size,
            ),
{
    let kept = wad.spec_store(bytes, entries, 0);
    assert forall|k: int| 0 <= k < kept.len() implies (#[trigger] kept[k]).len() <= entries[0
        + k].size by {
        wad.lemma_offsets(entries, k);
    }
    assert forall|k: int| 0 <= k < full implies (#[trigger] kept[k]).len() == entries[0 + k].size
        && kept[k] == bytes.subrange(
        wad.spec_content_offset(entries, k),
        wad.spec_content_offset(entries, k) + entries[k].size,
    ) by {
        wad.lemma_offsets(entries, k);
        assert(wad.spec_content_offset(entries, k) + entries[k].size <= bytes.len());
        if entries[k].size == 0 {
            assert(kept[k] =~= bytes.subrange(
                wad.spec_content_offset(entries, k),
                wad.spec_content_offset(entries, k) + entries[k].size,
            ));
        }
    }
}

impl InstallableWad {
    /// A safe write of a title metadata succeeds on a stream that grows
    /// and has room for the WAD that it leaves, whether or not the stream
    /// holds every content that the new entries describe, and leaves the
    /// bytes that `spec_safe_bytes` gives.
    #[verifier::rlimit(60)]
    pub proof fn lemma_safe_shape_clipped(
        self,
        state: StreamState,
        title_metadata: TitleMetadataView,
    )
        requires
            state.growable,
            state.bytes.len() <= STREAM_LIMIT,
            state.bytes.len() <= usize::MAX,
            title_metadata.wf(),
            self.spec_layout_fits(title_metadata.content_chunk_entries),
            self.spec_sized_for(title_metadata).spec_logical_size(
                title_metadata.content_chunk_entries,
            ) <= STREAM_LIMIT,
            self.spec_sized_for(title_metadata).spec_logical_size(
                title_metadata.content_chunk_entries,
            ) <= usize::MAX,
        ensures
            self.spec_write_title_metadata_safe(state, title_metadata) is Ok,
            self.spec_write_title_metadata_safe(state, title_metadata).unwrap().1
                == self.spec_sized_for(title_metadata),
            self.spec_write_title_metadata_safe(state, title_metadata).unwrap().0.growable,
            self.spec_write_title_metadata_safe(state, title_metadata).unwrap().0.bytes
                == self.spec_safe_bytes(state.bytes, title_metadata),
    {
        let entries = title_metadata.content_chunk_entries;
        let image = title_metadata.spec_serialize();
        let sized = self.spec_sized_for(title_metadata);
        let kept = self.spec_store(state.bytes, entries, 0);
        title_metadata.lemma_size();
        sized.lemma_offsets(entries, entries.len() as int);
        sized.lemma_offsets(entries, 0);
        lemma_kept_clipped(self, state.bytes, entries, 0);
        self.lemma_raw_shape(state, WadSection::TitleMetadata, image);
        let written = self.spec_raw(state, WadSection::TitleMetadata, image).unwrap().0;
        if entries.len() > 0 {
            lemma_sections_len(kept, entries, 0, 0, 0);
            lemma_restore_is_write(written.at(sized.spec_contents_offset()), kept, 0);
        }
    }
}

/// A section written at `offset`, a header of 64 bytes written at the start
/// and, where there are any, sections written behind the first section:
/// each stands where it was written, and every other byte of the stream is
/// left as it was.
pub proof fn lemma_three_writes(
    bytes: Seq<u8>,
    offset: int,
    section: Seq<u8>,
    header: Seq<u8>,
    sections: Seq<u8>,
    any: bool,
)
    requires
        64 <= offset,
        header.len() == 64,
    ensures
        ({
            let start = offset + section.len();
            let written = spec_write(spec_write(bytes, offset, section), 0, header);
            let out = if any {
                spec_write(written, start, sections)
            } else {
                written
            };
            let end = if any {
                start + sections.len()
            } else {
                start
            };
            &&& out.len() == if bytes.len() >= end {
                bytes.len() as int
            } else {
                end
            }
            &&& out.subrange(0, 64) == header
            &&& out.subrange(offset, start) == section
            &&& any ==> out.subrange(start, end) == sections
            &&& forall|j: int| 64 <= j < offset && j < bytes.len() ==> #[trigger] out[j] == bytes[j]
            &&& forall|j: int| end <= j < bytes.len() ==> #[trigger] out[j] == bytes[j]
        }),
{
    let start = offset + section.len();
    let written = spec_write(spec_write(bytes, offset, section), 0, header);
    let out = if any {
        spec_write(written, start, sections)
    } else {
        written
    };
    let end = if any {
        start + sections.len()
    } else {
        start
    };
    assert(out.subrange(0, 64) =~= header);
    assert(out.subrange(offset, start) =~= section);
    if any {
        assert(out.subrange(start, end) =~= sections);
    }
}

/// The first contents that were kept, which are as long as their entries
/// say, stand in a stream in which the sections of all that were kept stand
/// behind the title metadata.
pub proof fn lemma_front_stands(
    wad: InstallableWad,
    bytes: Seq<u8>,
    entries: Seq<TitleMetadataContentEntry>,
    kept: Seq<Seq<u8>>,
    full: int,
)
    requires
        spec_contents_for(kept, entries, 0, full),
        wad.spec_contents_offset() + spec_sections(kept, 0).len() <= bytes.len(),
        bytes.subrange(
            wad.spec_contents_offset(),
            wad.spec_contents_offset() + spec_sections(kept, 0).len(),
        ) == spec_sections(kept, 0),
    ensures
        spec_sections_stand(wad, bytes, entries, 0, kept.subrange(0, full)),
        wad.spec_content_offset(entries, full) <= wad.spec_contents_offset() + spec_sections(
            kept,
            0,
        ).len(),
{
    let start = wad.spec_contents_offset();
    let sections = spec_sections(kept, 0);
    let front = kept.subrange(0, full);
    wad.lemma_offsets(entries, 0);
    if full > 0 {
        lemma_section_among(kept, entries, 0, full, 0, full - 1);
        assert(spec_aligned_sizes(entries, full) == spec_aligned_sizes(entries, full - 1) + ceil64(
            entries[full - 1].size as int,
        ));
    }
    assert forall|k: int| 0 <= k < front.len() implies spec_section_stands(
        wad,
        bytes,
        entries,
        0 + k,
        #[trigger] front[k],
    ) by {
        assert(front[k] == kept[k]);
        lemma_section_among(kept, entries, 0, full, 0, k);
        wad.lemma_offsets(entries, k);
        crate::bytes::lemma_subrange_of_subrange(
            bytes,
            start,
            start + sections.len(),
            spec_aligned_sizes(entries, k),
            ceil64(entries[k].size as int),
        );
    }
}

impl InstallableWad {
    /// What a safe write of a title metadata leaves at the front of a
    /// stream that holds the first `full` of the contents that the new
    /// entries describe: the header, the title metadata in its section, and
    /// those contents as their sections. What stands between the header
    /// and the title metadata and behind the new end of the contents is
    /// left as it was, and the stream is no shorter than before.
    #[verifier::rlimit(60)]
    pub proof fn lemma_safe_front(
        self,
        state: StreamState,
        title_metadata: TitleMetadataView,
        full: int,
    )
        requires
            state.growable,
            state.bytes.len() <= STREAM_LIMIT,
            state.bytes.len() <= usize::MAX,
            title_metadata.wf(),
            self.spec_layout_fits(title_metadata.content_chunk_entries),
            self.spec_sized_for(title_metadata).spec_logical_size(
                title_metadata.content_chunk_entries,
            ) <= STREAM_LIMIT,
            self.spec_sized_for(title_metadata).spec_logical_size(
                title_metadata.content_chunk_entries,
            ) <= usize::MAX,
            0 <= full <= title_metadata.content_chunk_entries.len(),
            forall|i: int|
                0 <= i < full ==> #[trigger] self.spec_content_offset(
                    title_metadata.content_chunk_entries,
                    i,
                ) + title_metadata.content_chunk_entries[i].size <= state.bytes.len(),
        ensures
            ({
                let entries = title_metadata.content_chunk_entries;
                let sized = self.spec_sized_for(title_metadata);
                let safe = self.spec_write_title_metadata_safe(state, title_metadata);
                let kept = self.spec_store(state.bytes, entries, 0);
                &&& safe is Ok
                &&& safe.unwrap().1 == sized
                &&& safe.unwrap().0.growable
                &&& sized.title_metadata_size == title_metadata.spec_serialize().len()
                &&& sized.spec_title_metadata_offset() == self.spec_title_metadata_offset()
                &&& state.bytes.len() <= safe.unwrap().0.bytes.len()
                &&& sized.spec_content_offset(entries, full) <= safe.unwrap().0.bytes.len()
                &&& safe.unwrap().0.bytes.len() <= sized.spec_logical_size(entries)
                    || safe.unwrap().0.bytes.len() == state.bytes.len()
                &&& safe.unwrap().0.bytes.subrange(0, 64) == sized.spec_serialize()
                &&& safe.unwrap().0.bytes.subrange(
                    sized.spec_title_metadata_offset(),
                    sized.spec_contents_offset(),
                ) == spec_section_bytes(title_metadata.spec_serialize())
                &&& spec_sections_stand(
                    sized,
                    safe.unwrap().0.bytes,
                    entries,
                    0,
                    kept.subrange(0, full),
                )
                &&& forall|j: int|
                    64 <= j < self.spec_title_metadata_offset() && j < state.bytes.len()
                        ==> #[trigger] safe.unwrap().0.bytes[j] == state.bytes[j]
                &&& forall|j: int|
                    sized.spec_logical_size(entries) <= j < state.bytes.len()
                        ==> #[trigger] safe.unwrap().0.bytes[j] == state.bytes[j]
            }),
    {
        let entries = title_metadata.content_chunk_entries;
        let count = entries.len() as int;
        let sized = self.spec_sized_for(title_metadata);
        let image = title_metadata.spec_serialize();
        let section = spec_section_bytes(image);
        let offset = self.spec_title_metadata_offset();
        let kept = self.spec_store(state.bytes, entries, 0);
        let sections = spec_sections(kept, 0);
        self.lemma_safe_shape_clipped(state, title_metadata);
        let out = self.spec_safe_bytes(state.bytes, title_metadata);
        title_metadata.lemma_size();
        lemma_section_bytes(image);
        sized.lemma_header_len();
        sized.lemma_offsets(entries, count);
        sized.lemma_offsets(entries, full);
        lemma_aligned_sizes_grow(entries, full, count);
        lemma_kept_clipped(self, state.bytes, entries, full);
        lemma_sections_len(kept, entries, 0, full, 0);
        lemma_three_writes(
            state.bytes,
            offset,
            section,
            sized.spec_serialize(),
            sections,
            count > 0,
        );
        assert(sized.spec_contents_offset() == offset + section.len());
        if count > 0 {
            lemma_front_stands(sized, out, entries, kept, full);
        } else {
            assert(kept.subrange(0, full) =~= Seq::<Seq<u8>>::empty());
        }
    }
}

/// The sections of contents behind a first one are the sections of those
/// contents alone.
pub proof fn lemma_sections_behind(first: Seq<u8>, contents: Seq<Seq<u8>>, done: int)
    requires
        0 <= done <= contents.len(),
    ensures
        spec_sections(seq![first] + contents, done + 1) == spec_sections(contents, done),
        done == 0 ==> spec_sections(seq![first] + contents, 0) == spec_section_bytes(first)
            + spec_sections(contents, 0),
    decreases contents.len() - done,
{
    let all = seq![first] + contents;
    if done < contents.len() {
        lemma_sections_behind(first, contents, done + 1);
        assert(all[done + 1] == contents[done]);
    }
    if done == 0 {
        assert(all[0] == first);
    }
}

/// A stream that holds a WAD has room for a safe write of the title
/// metadata with another entry at `position`, of the version of the title
/// metadata, where the limits of a stream have room for the WAD that it
/// leaves. The contents before that entry are then read where they stand.
#[verifier::rlimit(60)]
pub proof fn lemma_with_fits(
    wad: InstallableWad,
    state: StreamState,
    title_metadata: TitleMetadataView,
    position: int,
    entry: TitleMetadataContentEntry,
)
    requires
        spec_holds_layout(wad, state, title_metadata),
        0 <= position < title_metadata.content_chunk_entries.len(),
        entry.hash.spec_is_version_1() == title_metadata.spec_is_version_1(),
    ensures
        ({
            let entries = title_metadata.content_chunk_entries;
            let others = entries.update(position, entry);
            let replaced = with_entries(title_metadata, others);
            &&& replaced.wf()
            &&& wad.spec_sized_for(replaced) == wad
            &&& wad.title_metadata_size == replaced.spec_serialize().len()
            &&& replaced.spec_serialize().len() == title_metadata.spec_serialize().len()
            &&& wad.spec_layout_fits(entries)
            &&& wad.spec_logical_size(others) == wad.spec_logical_size(entries) - ceil64(
                entries[position].size as int,
            ) + ceil64(entry.size as int)
            &&& spec_sizes(others, others.len() as int) == spec_sizes(
                entries,
                entries.len() as int,
            ) - entries[position].size + entry.size
            &&& forall|i: int|
                0 <= i <= position ==> #[trigger] wad.spec_content_offset(others, i)
                    == wad.spec_content_offset(entries, i)
            &&& forall|i: int|
                0 <= i < position ==> #[trigger] wad.spec_content_offset(others, i) + others[i].size
                    <= state.bytes.len()
        }),
{
    let entries = title_metadata.content_chunk_entries;
    let count = entries.len() as int;
    let others = entries.update(position, entry);
    let replaced = with_entries(title_metadata, others);
    let version_1 = title_metadata.spec_is_version_1();
    assert(entries_of_version(others, version_1)) by {
        assert forall|i: int| 0 <= i < others.len() implies (#[trigger] others[i]).hash.spec_is_version_1()
            == version_1 by {
            if i != position {
                assert(others[i] == entries[i]);
            }
        }
    }
    lemma_other_entries(wad, title_metadata, others);
    title_metadata.lemma_size();
    replaced.lemma_size();
    lemma_holds_in_full(wad, state.bytes, entries);
    wad.lemma_offsets(entries, count);
    lemma_sizes_with(entries, position, entry, count);
    assert forall|i: int| 0 <= i <= position implies #[trigger] wad.spec_content_offset(others, i)
        == wad.spec_content_offset(entries, i) by {
        lemma_sizes_with(entries, position, entry, i);
    }
    assert forall|i: int| 0 <= i < position implies #[trigger] wad.spec_content_offset(others, i)
        + others[i].size <= state.bytes.len() by {
        lemma_sizes_with(entries, position, entry, i);
        assert(others[i] == entries[i]);
        assert(wad.spec_content_offset(entries, i) + entries[i].size <= state.bytes.len());
    }
}

impl InstallableWad {
    /// The stream in the middle of a replacement that succeeds: the title
    /// metadata was written safely, the new ciphertext as a section at the
    /// offset of the content, and the contents behind it were written back.
    pub open spec fn spec_replacement(
        self,
        state: StreamState,
        replaced: TitleMetadataView,
        position: int,
        cipher: Seq<u8>,
        trailing: Seq<Seq<u8>>,
    ) -> StreamState {
        let entries = replaced.content_chunk_entries;
        let placed = self.spec_write_title_metadata_safe(state, replaced).unwrap().0;
        let written = Self::spec_write_section(
            placed,
            self.spec_content_offset(entries, position),
            cipher,
        ).unwrap();
        self.spec_restore_contents(written, entries, position + 1, trailing).unwrap()
    }

    /// The new ciphertext of a replacement and the contents behind it,
    /// written behind a safe write of the title metadata, stand in the
    /// stream with the contents before them, the header and the title
    /// metadata. What stands between the header and the title metadata and
    /// behind the new end of the contents is left as it was.
    #[verifier::rlimit(60)]
    pub proof fn lemma_replacement_stands(
        self,
        state: StreamState,
        title_metadata: TitleMetadataView,
        position: int,
        entry: TitleMetadataContentEntry,
        cipher: Seq<u8>,
    )
        requires
            spec_holds_layout(self, state, title_metadata),
            0 <= position < title_metadata.content_chunk_entries.len(),
            entry.hash.spec_is_version_1() == title_metadata.spec_is_version_1(),
            cipher.len() == entry.size,
            self.spec_logical_size(title_metadata.content_chunk_entries.update(position, entry))
                <= STREAM_LIMIT,
            self.spec_logical_size(title_metadata.content_chunk_entries.update(position, entry))
                <= usize::MAX,
        ensures
            ({
                let entries = title_metadata.content_chunk_entries;
                let others = entries.update(position, entry);
                let replaced = with_entries(title_metadata, others);
                let all = self.spec_store(state.bytes, entries, 0);
                let trailing = all.subrange(position + 1, entries.len() as int);
                let safe = self.spec_write_title_metadata_safe(state, replaced);
                let restored = self.spec_replacement(state, replaced, position, cipher, trailing);
                &&& self.spec_trailing(state.bytes, entries, position) == Ok::<
                    Seq<Seq<u8>>,
                    InstallableWadError,
                >(trailing)
                &&& safe is Ok
                &&& safe.unwrap().1 == self
                &&& Self::spec_write_section(
                    safe.unwrap().0,
                    self.spec_content_offset(others, position),
                    cipher,
                ) is Ok
                &&& self.spec_restore_contents(
                    Self::spec_write_section(
                        safe.unwrap().0,
                        self.spec_content_offset(others, position),
                        cipher,
                    ).unwrap(),
                    others,
                    position + 1,
                    trailing,
                ) is Ok
                &&& restored.growable
                &&& restored.bytes.len() == if state.bytes.len() >= self.spec_logical_size(others) {
                    state.bytes.len() as int
                } else {
                    self.spec_logical_size(others)
                }
                &&& restored.bytes.subrange(0, 64) == self.spec_serialize()
                &&& restored.bytes.subrange(
                    self.spec_title_metadata_offset(),
                    self.spec_contents_offset(),
                ) == spec_section_bytes(replaced.spec_serialize())
                &&& spec_contents_for(all.update(position, cipher), others, 0, entries.len() as int)
                &&& spec_sections_stand(
                    self,
                    restored.bytes,
                    others,
                    0,
                    all.update(position, cipher),
                )
                &&& forall|j: int|
                    64 <= j < self.spec_title_metadata_offset() ==> #[trigger] restored.bytes[j]
                        == state.bytes[j]
                &&& forall|j: int|
                    self.spec_logical_size(others) <= j < state.bytes.len()
                        ==> #[trigger] restored.bytes[j] == state.bytes[j]
            }),
    {
        let entries = title_metadata.content_chunk_entries;
        let count = entries.len() as int;
        let others = entries.update(position, entry);
        let replaced = with_entries(title_metadata, others);
        let all = self.spec_store(state.bytes, entries, 0);
        let front = all.subrange(0, position);
        let trailing = all.subrange(position + 1, count);
        let back = seq![cipher] + trailing;
        let at = self.spec_content_offset(others, position);
        lemma_with_fits(self, state, title_metadata, position, entry);
        lemma_held_contents(self, state, title_metadata);
        assert(self.spec_trailing(state.bytes, entries, position).unwrap() =~= trailing);
        self.lemma_offsets(others, position);
        self.lemma_offsets(others, count);
        self.lemma_offsets(entries, 0);
        lemma_aligned_sizes_grow(others, position, count);
        self.lemma_safe_front(state, replaced, position);
        let placed = self.spec_write_title_metadata_safe(state, replaced).unwrap().0;
        assert(self.spec_store(state.bytes, others, 0).subrange(0, position) =~= front) by {
            assert forall|k: int| 0 <= k < position implies self.spec_store(
                state.bytes,
                others,
                0,
            )[k] == all[k] by {
                assert(others[k] == entries[k]);
                assert(self.spec_content_offset(others, k) == self.spec_content_offset(entries, k));
            }
        }
        assert(spec_contents_for(back, others, position, back.len() as int)) by {
            assert forall|k: int| 0 <= k < back.len() implies (#[trigger] back[k]).len()
                == others[position + k].size by {
                if k == 0 {
                    assert(back[0] == cipher);
                } else {
                    assert(back[k] == all[position + k]);
                    assert(others[position + k] == entries[position + k]);
                }
            }
        }
        lemma_sections_behind(cipher, trailing, 0);
        lemma_section_bytes(cipher);
        lemma_sections_len(back, others, position, back.len() as int, 0);
        let section = spec_section_bytes(cipher);
        let written = Self::spec_write_section(placed, at, cipher);
        assert(written is Ok);
        assert(spec_aligned_sizes(others, position + 1) == spec_aligned_sizes(others, position)
            + ceil64(others[position].size as int));
        assert(spec_contents_for(trailing, others, position + 1, trailing.len() as int)) by {
            assert forall|k: int| 0 <= k < trailing.len() implies (#[trigger] trailing[k]).len()
                == others[position + 1 + k].size by {
                assert(trailing[k] == all[position + 1 + k]);
                assert(others[position + 1 + k] == entries[position + 1 + k]);
            }
        }
        self.lemma_restored(written.unwrap(), others, position + 1, trailing);
        let restored = self.spec_replacement(state, replaced, position, cipher, trailing);
        crate::stream::lemma_write_write(placed.bytes, at, section, spec_sections(trailing, 0));
        if trailing.len() == 0 {
            assert(spec_sections(trailing, 0) =~= Seq::<u8>::empty());
            assert(section + spec_sections(trailing, 0) =~= section);
        }
        assert(restored.bytes == spec_write(placed.bytes, at, spec_sections(back, 0)));
        lemma_written_sections(self, placed.bytes, others, position, back);
        lemma_sections_stay(self, placed.bytes, restored.bytes, others, 0, front);
        lemma_sections_join(self, restored.bytes, others, front, back);
        let contents = all.update(position, cipher);
        assert(contents =~= front + back);
        assert(spec_contents_for(contents, others, 0, count)) by {
            assert forall|k: int| 0 <= k < contents.len() implies (#[trigger] contents[k]).len()
                == others[0 + k].size by {
                if k != position {
                    assert(contents[k] == all[k]);
                    assert(others[k] == entries[k]);
                }
            }
        }
        let offset = self.spec_title_metadata_offset();
        assert(restored.bytes.subrange(0, 64) =~= placed.bytes.subrange(0, 64));
        assert(restored.bytes.subrange(offset, self.spec_contents_offset())
            =~= placed.bytes.subrange(offset, self.spec_contents_offset()));
    }
}

impl InstallableWad {
    /// What a replacement that succeeds leaves: the stream, the WAD and the
    /// title metadata with the new entry at `position`.
    pub open spec fn spec_replaced(
        self,
        state: StreamState,
        title_metadata: TitleMetadataView,
        position: int,
        entry: TitleMetadataContentEntry,
        cipher: Seq<u8>,
    ) -> (StreamState, InstallableWad, TitleMetadataView) {
        let entries = title_metadata.content_chunk_entries;
        let replaced = with_entries(title_metadata, entries.update(position, entry));
        let restored = self.spec_replacement(
            state,
            replaced,
            position,
            cipher,
            self.spec_store(state.bytes, entries, 0).subrange(position + 1, entries.len() as int),
        );
        let left = self.spec_sync(restored, replaced.content_chunk_entries).unwrap();
        (left.0, left.1, replaced)
    }

    /// What a replacement leaves holds the WAD with the new content: the
    /// header has the new sum of the sizes, the ciphertext stands where the
    /// content stood, and every other content stands in its place with its
    /// bytes.
    #[verifier::rlimit(60)]
    pub proof fn lemma_replaced_holds(
        self,
        state: StreamState,
        title_metadata: TitleMetadataView,
        position: int,
        entry: TitleMetadataContentEntry,
        cipher: Seq<u8>,
    )
        requires
            spec_holds(self, state, title_metadata),
            0 <= position < title_metadata.content_chunk_entries.len(),
            entry.hash.spec_is_version_1() == title_metadata.spec_is_version_1(),
            cipher.len() == entry.size,
            self.spec_logical_size(title_metadata.content_chunk_entries.update(position, entry))
                <= STREAM_LIMIT,
            self.spec_logical_size(title_metadata.content_chunk_entries.update(position, entry))
                <= usize::MAX,
            spec_sizes(
                title_metadata.content_chunk_entries.update(position, entry),
                title_metadata.content_chunk_entries.len() as int,
            ) <= u32::MAX,
        ensures
            ({
                let entries = title_metadata.content_chunk_entries;
                let others = entries.update(position, entry);
                let all = self.spec_store(state.bytes, entries, 0);
                let left = self.spec_replaced(state, title_metadata, position, entry, cipher);
                &&& left.2 == with_entries(title_metadata, others)
                &&& spec_holds(left.1, left.0, left.2)
                &&& left.1 == (InstallableWad {
                    content_size: spec_sizes(others, others.len() as int) as u32,
                    ..self
                })
                &&& left.1.spec_logical_size(others) == self.spec_logical_size(others)
                &&& left.0.bytes.len() == if state.bytes.len() >= self.spec_logical_size(others) {
                    state.bytes.len() as int
                } else {
                    self.spec_logical_size(others)
                }
                &&& forall|i: int|
                    0 <= i < entries.len() ==> left.0.bytes.subrange(
                        #[trigger] left.1.spec_content_offset(others, i),
                        left.1.spec_content_offset(others, i) + others[i].size,
                    ) == all.update(position, cipher)[i]
                &&& forall|j: int|
                    64 <= j < self.spec_title_metadata_offset() ==> #[trigger] left.0.bytes[j]
                        == state.bytes[j]
                &&& forall|j: int|
                    self.spec_logical_size(others) <= j < state.bytes.len()
                        ==> #[trigger] left.0.bytes[j] == state.bytes[j]
            }),
    {
        let entries = title_metadata.content_chunk_entries;
        let count = entries.len() as int;
        let others = entries.update(position, entry);
        let replaced = with_entries(title_metadata, others);
        let all = self.spec_store(state.bytes, entries, 0);
        let trailing = all.subrange(position + 1, count);
        let contents = all.update(position, cipher);
        lemma_with_fits(self, state, title_metadata, position, entry);
        self.lemma_replacement_stands(state, title_metadata, position, entry, cipher);
        let restored = self.spec_replacement(state, replaced, position, cipher, trailing);
        self.lemma_offsets(others, 0);
        self.lemma_offsets(others, count);
        self.lemma_offsets(entries, 0);
        self.lemma_finish(restored, replaced, contents, false);
        let left = self.spec_replaced(state, title_metadata, position, entry, cipher);
        assert(left.1.spec_contents_offset() == self.spec_contents_offset());
    }
}

impl<'c> ModifyContentBuilder<'c> {
    /// Whether a replacement has what it needs on a stream that holds a
    /// WAD: a ticket with a cryptographic method, a selector that stands
    /// for a content, a plaintext that the ticket encrypts to `cipher`, of
    /// the same length, and room within the limits of a stream and of the
    /// header for the WAD that it leaves.
    pub open spec fn spec_can_replace(
        self,
        wad: InstallableWad,
        data: Seq<u8>,
        method: ContentSelectorMethod,
        title_metadata: TitleMetadataView,
        cipher: Seq<u8>,
    ) -> bool {
        let entries = title_metadata.content_chunk_entries;
        let position = spec_select(method, entries).unwrap();
        let entry = self.spec_replaced_entry(
            entries[position],
            title_metadata.spec_is_version_1(),
            data,
        );
        let others = entries.update(position, entry);
        &&& self.spec_cryptography() is Some
        &&& spec_select(method, entries) is Some
        &&& data.len() <= u64::MAX
        &&& spec_encrypt_content(self.spec_cryptography().unwrap(), entry.index, data) == Ok::<
            Seq<u8>,
            InstallableWadError,
        >(cipher)
        &&& cipher.len() == data.len()
        &&& wad.spec_logical_size(others) <= STREAM_LIMIT
        &&& wad.spec_logical_size(others) <= usize::MAX
        &&& spec_sizes(others, others.len() as int) <= u32::MAX
    }

    /// A replacement that has what it needs succeeds on a stream that
    /// holds a WAD, and leaves what `spec_replaced` says.
    #[verifier::rlimit(60)]
    pub proof fn lemma_replace_is(
        self,
        wad: InstallableWad,
        state: StreamState,
        data: Seq<u8>,
        method: ContentSelectorMethod,
        title_metadata: TitleMetadataView,
        cipher: Seq<u8>,
    )
        requires
            spec_holds(wad, state, title_metadata),
            self.spec_can_replace(wad, data, method, title_metadata, cipher),
        ensures
            0 <= spec_select(method, title_metadata.content_chunk_entries).unwrap()
                < title_metadata.content_chunk_entries.len(),
            self.spec_replace(wad, state, data, method, title_metadata) == Ok::<
                (StreamState, InstallableWad, TitleMetadataView),
                InstallableWadError,
            >(
                wad.spec_replaced(
                    state,
                    title_metadata,
                    spec_select(method, title_metadata.content_chunk_entries).unwrap(),
                    self.spec_replaced_entry(
                        title_metadata.content_chunk_entries[spec_select(
                            method,
                            title_metadata.content_chunk_entries,
                        ).unwrap()],
                        title_metadata.spec_is_version_1(),
                        data,
                    ),
                    cipher,
                ),
            ),
    {
        let entries = title_metadata.content_chunk_entries;
        let count = entries.len() as int;
        lemma_select_in_range(method, entries);
        let position = spec_select(method, entries).unwrap();
        let entry = self.spec_replaced_entry(
            entries[position],
            title_metadata.spec_is_version_1(),
            data,
        );
        let others = entries.update(position, entry);
        let replaced = with_entries(title_metadata, others);
        let all = wad.spec_store(state.bytes, entries, 0);
        let trailing = all.subrange(position + 1, count);
        wad.lemma_replacement_stands(state, title_metadata, position, entry, cipher);
        let restored = wad.spec_replacement(state, replaced, position, cipher, trailing);
        wad.lemma_offsets(others, 0);
        wad.lemma_offsets(others, position);
        lemma_aligned_sizes_grow(others, position, count);
        lemma_with_fits(wad, state, title_metadata, position, entry);
        wad.lemma_finish(restored, replaced, all.update(position, cipher), false);
        assert(others[position].index == entry.index);
    }

    /// Replacing a content of a stream that holds a WAD leaves a stream
    /// that holds the WAD with the new content: its entry has the size and
    /// the hash of the new plaintext, and the ID, the index and the kind of
    /// the builder where it has them; the other entries are as they were;
    /// the header has the new sum of the sizes; the ciphertext stands where
    /// the content stood, and every other content stands in its place with
    /// its bytes. What stands between the header and the title metadata and
    /// behind the new end of the contents is left as it was.
    #[verifier::rlimit(60)]
    pub proof fn lemma_replace_holds(
        self,
        wad: InstallableWad,
        state: StreamState,
        data: Seq<u8>,
        method: ContentSelectorMethod,
        title_metadata: TitleMetadataView,
        cipher: Seq<u8>,
    )
        requires
            spec_holds(wad, state, title_metadata),
            self.spec_can_replace(wad, data, method, title_metadata, cipher),
        ensures
            self.spec_replace(wad, state, data, method, title_metadata) is Ok,
            ({
                let entries = title_metadata.content_chunk_entries;
                let position = spec_select(method, entries).unwrap();
                let entry = self.spec_replaced_entry(
                    entries[position],
                    title_metadata.spec_is_version_1(),
                    data,
                );
                let others = entries.update(position, entry);
                let left = self.spec_replace(wad, state, data, method, title_metadata).unwrap();
                &&& 0 <= position < entries.len()
                &&& entry.size == data.len()
                &&& entry.hash == spec_content_hash(title_metadata.spec_is_version_1(), data)
                &&& left.2 == with_entries(title_metadata, others)
                &&& spec_holds(left.1, left.0, left.2)
                &&& left.1 == (InstallableWad {
                    content_size: spec_sizes(others, others.len() as int) as u32,
                    ..wad
                })
                &&& left.0.bytes.len() == if state.bytes.len() >= left.1.spec_logical_size(others) {
                    state.bytes.len() as int
                } else {
                    left.1.spec_logical_size(others)
                }
                &&& left.0.bytes.subrange(
                    left.1.spec_content_offset(others, position),
                    left.1.spec_content_offset(others, position) + cipher.len(),
                ) == cipher
                &&& forall|i: int|
                    0 <= i < entries.len() && i != position ==> left.0.bytes.subrange(
                        #[trigger] left.1.spec_content_offset(others, i),
                        left.1.spec_content_offset(others, i) + others[i].size,
                    ) == state.bytes.subrange(
                        wad.spec_content_offset(entries, i),
                        wad.spec_content_offset(entries, i) + entries[i].size,
                    )
                &&& forall|j: int|
                    64 <= j < wad.spec_title_metadata_offset() ==> #[trigger] left.0.bytes[j]
                        == state.bytes[j]
                &&& forall|j: int|
                    left.1.spec_logical_size(others) <= j < state.bytes.len()
                        ==> #[trigger] left.0.bytes[j] == state.bytes[j]
            }),
    {
        let entries = title_metadata.content_chunk_entries;
        let position = spec_select(method, entries).unwrap();
        let entry = self.spec_replaced_entry(
            entries[position],
            title_metadata.spec_is_version_1(),
            data,
        );
        let others = entries.update(position, entry);
        let all = wad.spec_store(state.bytes, entries, 0);
        let contents = all.update(position, cipher);
        self.lemma_replace_is(wad, state, data, method, title_metadata, cipher);
        lemma_held_contents(wad, state, title_metadata);
        wad.lemma_replaced_holds(state, title_metadata, position, entry, cipher);
        let left = wad.spec_replaced(state, title_metadata, position, entry, cipher);
        assert(left.0.bytes.subrange(
            left.1.spec_content_offset(others, position),
            left.1.spec_content_offset(others, position) + others[position].size,
        ) == contents[position]);
        assert forall|i: int| 0 <= i < entries.len() && i != position implies left.0.bytes.subrange(
            #[trigger] left.1.spec_content_offset(others, i),
            left.1.spec_content_offset(others, i) + others[i].size,
        ) == state.bytes.subrange(
            wad.spec_content_offset(entries, i),
            wad.spec_content_offset(entries, i) + entries[i].size,
        ) by {
            assert(left.0.bytes.subrange(
                left.1.spec_content_offset(others, i),
                left.1.spec_content_offset(others, i) + others[i].size,
            ) == contents[i]);
            assert(contents[i] == all[i]);
            assert(others[i] == entries[i]);
        }
    }
}

/// A section written behind the header, and then a header of 64 bytes at
/// the start: both stand where they were written, and every other byte of
/// the stream is left as it was. Where the stream ended before the
/// section, it now ends behind it.
pub proof fn lemma_raw_bytes(bytes: Seq<u8>, offset: int, section: Seq<u8>, header: Seq<u8>)
    requires
        64 <= offset,
        header.len() == 64,
    ensures
        ({
            let out = spec_write(spec_write(bytes, offset, section), 0, header);
            let end = offset + section.len();
            &&& out.len() == if bytes.len() >= end {
                bytes.len() as int
            } else {
                end
            }
            &&& out.subrange(0, 64) == header
            &&& out.subrange(offset, end) == section
            &&& forall|j: int| 64 <= j < offset && j < bytes.len() ==> #[trigger] out[j] == bytes[j]
            &&& forall|j: int| end <= j < bytes.len() ==> #[trigger] out[j] == bytes[j]
        }),
{
    let out = spec_write(spec_write(bytes, offset, section), 0, header);
    assert(out.subrange(0, 64) =~= header);
    assert(out.subrange(offset, offset + section.len()) =~= section);
}

impl InstallableWad {
    /// A safe write of the ticket succeeds on a stream that holds a WAD
    /// and has room for the WAD that it leaves. The bytes that it leaves
    /// are those of two raw writes, of the ticket and of the title
    /// metadata, and of the contents written back behind them.
    #[verifier::rlimit(60)]
    pub proof fn lemma_ticket_safe_shape(
        self,
        state: StreamState,
        ticket: PreSwitchTicketView,
        title_metadata: TitleMetadataView,
    )
        requires
            spec_holds_layout(self, state, title_metadata),
            ticket.wf(),
            self.spec_with_section_size(
                WadSection::Ticket,
                ticket.spec_serialize().len() as u32,
            ).spec_logical_size(title_metadata.content_chunk_entries) <= STREAM_LIMIT,
            self.spec_with_section_size(
                WadSection::Ticket,
                ticket.spec_serialize().len() as u32,
            ).spec_logical_size(title_metadata.content_chunk_entries) <= usize::MAX,
        ensures
            ({
                let entries = title_metadata.content_chunk_entries;
                let sized = self.spec_with_section_size(
                    WadSection::Ticket,
                    ticket.spec_serialize().len() as u32,
                );
                let safe = self.spec_write_ticket_safe(state, ticket, title_metadata);
                let first = spec_write(
                    spec_write(
                        state.bytes,
                        self.spec_ticket_offset(),
                        spec_section_bytes(ticket.spec_serialize()),
                    ),
                    0,
                    sized.spec_serialize(),
                );
                let second = spec_write(
                    spec_write(
                        first,
                        sized.spec_title_metadata_offset(),
                        spec_section_bytes(title_metadata.spec_serialize()),
                    ),
                    0,
                    sized.spec_serialize(),
                );
                &&& sized.ticket_size == ticket.spec_serialize().len()
                &&& safe is Ok
                &&& safe.unwrap().1 == sized
                &&& safe.unwrap().0.growable
                &&& safe.unwrap().0.bytes == if entries.len() == 0 {
                    second
                } else {
                    spec_write(
                        second,
                        sized.spec_contents_offset(),
                        spec_sections(self.spec_store(state.bytes, entries, 0), 0),
                    )
                }
            }),
    {
        let entries = title_metadata.content_chunk_entries;
        let image = ticket.spec_serialize();
        let sized = self.spec_with_section_size(WadSection::Ticket, image.len() as u32);
        let body = title_metadata.spec_serialize();
        ticket.lemma_size();
        title_metadata.lemma_size();
        lemma_held_contents(self, state, title_metadata);
        lemma_holds_in_full(self, state.bytes, entries);
        self.lemma_offsets(entries, 0);
        sized.lemma_offsets(entries, entries.len() as int);
        sized.lemma_offsets(entries, 0);
        sized.lemma_header_len();
        lemma_section_bytes(image);
        lemma_section_bytes(body);
        self.lemma_kept(state.bytes, entries);
        self.lemma_raw_shape(state, WadSection::Ticket, image);
        let with_ticket = self.spec_raw(state, WadSection::Ticket, image).unwrap().0;
        lemma_raw_bytes(
            state.bytes,
            self.spec_ticket_offset(),
            spec_section_bytes(image),
            sized.spec_serialize(),
        );
        sized.lemma_raw_shape(with_ticket, WadSection::TitleMetadata, body);
        assert(sized.spec_with_section_size(WadSection::TitleMetadata, body.len() as u32)
            == sized);
        let written = sized.spec_raw(with_ticket, WadSection::TitleMetadata, body).unwrap().0;
        sized.lemma_put_back_shape(written, entries, self.spec_kept(state.bytes, entries).unwrap());
    }
}

/// Bytes written at `start`, or nothing written at all: what was written
/// stands there, and every other byte of the stream is left as it was.
pub proof fn lemma_sections_bytes(bytes: Seq<u8>, start: int, sections: Seq<u8>, any: bool)
    requires
        0 <= start,
    ensures
        ({
            let out = if any {
                spec_write(bytes, start, sections)
            } else {
                bytes
            };
            let end = if any {
                start + sections.len()
            } else {
                start
            };
            &&& out.len() == if bytes.len() >= end || !any {
                bytes.len() as int
            } else {
                end
            }
            &&& any ==> out.subrange(start, end) == sections
            &&& forall|j: int| 0 <= j < start && j < bytes.len() ==> #[trigger] out[j] == bytes[j]
            &&& forall|j: int| end <= j < bytes.len() ==> #[trigger] out[j] == bytes[j]
        }),
{
    if any {
        lemma_written_part(bytes, start, sections);
    }
}

/// Two sections written one behind the other behind the header, a header
/// of 64 bytes at the start behind each, and, where there are any, bytes
/// written behind the second section: each stands where it was written,
/// and every other byte of the stream is left as it was.
pub proof fn lemma_two_raw_bytes(
    bytes: Seq<u8>,
    at: int,
    one: Seq<u8>,
    two: Seq<u8>,
    header: Seq<u8>,
    sections: Seq<u8>,
    any: bool,
)
    requires
        64 <= at,
        header.len() == 64,
    ensures
        ({
            let behind = at + one.len();
            let start = behind + two.len();
            let first = spec_write(spec_write(bytes, at, one), 0, header);
            let second = spec_write(spec_write(first, behind, two), 0, header);
            let out = if any {
                spec_write(second, start, sections)
            } else {
                second
            };
            let end = if any {
                start + sections.len()
            } else {
                start
            };
            &&& out.len() == if bytes.len() >= end {
                bytes.len() as int
            } else {
                end
            }
            &&& out.subrange(0, 64) == header
            &&& out.subrange(at, behind) == one
            &&& out.subrange(behind, start) == two
            &&& any ==> out.subrange(start, end) == sections
            &&& forall|j: int| 64 <= j < at && j < bytes.len() ==> #[trigger] out[j] == bytes[j]
            &&& forall|j: int| end <= j < bytes.len() ==> #[trigger] out[j] == bytes[j]
        }),
{
    let behind = at + one.len();
    let start = behind + two.len();
    let first = spec_write(spec_write(bytes, at, one), 0, header);
    let second = spec_write(spec_write(first, behind, two), 0, header);
    let out = if any {
        spec_write(second, start, sections)
    } else {
        second
    };
    lemma_raw_bytes(bytes, at, one, header);
    lemma_raw_bytes(first, behind, two, header);
    lemma_sections_bytes(second, start, sections, any);
    assert(out.subrange(0, 64) =~= header);
    assert(out.subrange(at, behind) =~= one);
    assert(out.subrange(behind, start) =~= two);
}

impl InstallableWad {
    /// A safe write of the ticket on a stream that holds a WAD and has
    /// room leaves a stream that holds the WAD with the size of the new
    /// ticket: the ticket stands in its section, the title metadata behind
    /// it, and every content behind them with its bytes. The certificate
    /// chain and what stands behind the new end of the contents are left
    /// as they were.
    #[verifier::rlimit(60)]
    pub proof fn lemma_ticket_safe_holds(
        self,
        state: StreamState,
        ticket: PreSwitchTicketView,
        title_metadata: TitleMetadataView,
    )
        requires
            spec_holds_layout(self, state, title_metadata),
            ticket.wf(),
            self.spec_with_section_size(
                WadSection::Ticket,
                ticket.spec_serialize().len() as u32,
            ).spec_logical_size(title_metadata.content_chunk_entries) <= STREAM_LIMIT,
            self.spec_with_section_size(
                WadSection::Ticket,
                ticket.spec_serialize().len() as u32,
            ).spec_logical_size(title_metadata.content_chunk_entries) <= usize::MAX,
        ensures
            self.spec_write_ticket_safe(state, ticket, title_metadata) is Ok,
            ({
                let entries = title_metadata.content_chunk_entries;
                let left = self.spec_write_ticket_safe(state, ticket, title_metadata).unwrap();
                &&& left.1 == (InstallableWad {
                    ticket_size: ticket.spec_serialize().len() as u32,
                    ..self
                })
                &&& left.1.ticket_size == ticket.spec_serialize().len()
                &&& spec_holds_layout(left.1, left.0, title_metadata)
                &&& left.0.bytes.subrange(
                    left.1.spec_ticket_offset(),
                    left.1.spec_title_metadata_offset(),
                ) == spec_section_bytes(ticket.spec_serialize())
                &&& left.0.bytes.len() == if state.bytes.len() >= left.1.spec_logical_size(entries) {
                    state.bytes.len() as int
                } else {
                    left.1.spec_logical_size(entries)
                }
                &&& forall|i: int|
                    0 <= i < entries.len() ==> left.0.bytes.subrange(
                        #[trigger] left.1.spec_content_offset(entries, i),
                        left.1.spec_content_offset(entries, i) + entries[i].size,
                    ) == state.bytes.subrange(
                        self.spec_content_offset(entries, i),
                        self.spec_content_offset(entries, i) + entries[i].size,
                    )
                &&& forall|j: int|
                    64 <= j < self.spec_ticket_offset() ==> #[trigger] left.0.bytes[j]
                        == state.bytes[j]
                &&& forall|j: int|
                    left.1.spec_logical_size(entries) <= j < state.bytes.len()
                        ==> #[trigger] left.0.bytes[j] == state.bytes[j]
            }),
    {
        let entries = title_metadata.content_chunk_entries;
        let count = entries.len() as int;
        let image = ticket.spec_serialize();
        let body = title_metadata.spec_serialize();
        let sized = self.spec_with_section_size(WadSection::Ticket, image.len() as u32);
        let all = self.spec_store(state.bytes, entries, 0);
        let sections = spec_sections(all, 0);
        let at = self.spec_ticket_offset();
        self.lemma_ticket_safe_shape(state, ticket, title_metadata);
        lemma_held_contents(self, state, title_metadata);
        title_metadata.lemma_size();
        self.lemma_offsets(entries, 0);
        sized.lemma_offsets(entries, 0);
        sized.lemma_offsets(entries, count);
        sized.lemma_header_len();
        lemma_section_bytes(image);
        lemma_section_bytes(body);
        let placed = self.spec_write_ticket_safe(state, ticket, title_metadata).unwrap().0;
        assert(spec_contents_for(all, entries, 0, count));
        lemma_sections_len(all, entries, 0, count, 0);
        lemma_two_raw_bytes(
            state.bytes,
            at,
            spec_section_bytes(image),
            spec_section_bytes(body),
            sized.spec_serialize(),
            sections,
            count > 0,
        );
        assert(sized.spec_title_metadata_offset() == at + spec_section_bytes(image).len());
        assert(sized.spec_contents_offset() == sized.spec_title_metadata_offset()
            + spec_section_bytes(body).len());
        if count > 0 {
            lemma_front_stands(sized, placed.bytes, entries, all, count);
            assert(all.subrange(0, count) =~= all);
        } else {
            assert(spec_sections_stand(sized, placed.bytes, entries, 0, all));
        }
        lemma_layout_of_parts(sized, placed, title_metadata, all);
        assert forall|i: int| 0 <= i < entries.len() implies placed.bytes.subrange(
            #[trigger] sized.spec_content_offset(entries, i),
            sized.spec_content_offset(entries, i) + entries[i].size,
        ) == state.bytes.subrange(
            self.spec_content_offset(entries, i),
            self.spec_content_offset(entries, i) + entries[i].size,
        ) by {
            assert(placed.bytes.subrange(
                sized.spec_content_offset(entries, i),
                sized.spec_content_offset(entries, i) + entries[i].size,
            ) == all[i]);
        }
    }
}

/// Three sections written one behind the other behind the header, a
/// header of 64 bytes at the start behind each, and, where there are any,
/// bytes written behind the third section: each section stands where it
/// was written, the last header at the start, and every other byte of the
/// stream is left as it was.
pub proof fn lemma_three_raw_bytes(
    bytes: Seq<u8>,
    one: Seq<u8>,
    two: Seq<u8>,
    three: Seq<u8>,
    headers: (Seq<u8>, Seq<u8>, Seq<u8>),
    sections: Seq<u8>,
    any: bool,
)
    requires
        headers.0.len() == 64,
        headers.1.len() == 64,
        headers.2.len() == 64,
    ensures
        ({
            let second_at: int = 64int + one.len();
            let third_at: int = second_at + two.len();
            let start: int = third_at + three.len();
            let first = spec_write(spec_write(bytes, 64, one), 0, headers.0);
            let second = spec_write(spec_write(first, second_at, two), 0, headers.1);
            let third = spec_write(spec_write(second, third_at, three), 0, headers.2);
            let out = if any {
                spec_write(third, start, sections)
            } else {
                third
            };
            let end: int = if any {
                start + sections.len()
            } else {
                start
            };
            &&& out.len() == if bytes.len() >= end {
                bytes.len() as int
            } else {
                end
            }
            &&& out.subrange(0, 64) == headers.2
            &&& out.subrange(64, second_at) == one
            &&& out.subrange(second_at, third_at) == two
            &&& out.subrange(third_at, start) == three
            &&& any ==> out.subrange(start, end) == sections
            &&& forall|j: int| end <= j < bytes.len() ==> #[trigger] out[j] == bytes[j]
        }),
{
    let second_at: int = 64int + one.len();
    let third_at: int = second_at + two.len();
    let start: int = third_at + three.len();
    let first = spec_write(spec_write(bytes, 64, one), 0, headers.0);
    let second = spec_write(spec_write(first, second_at, two), 0, headers.1);
    let third = spec_write(spec_write(second, third_at, three), 0, headers.2);
    let out = if any {
        spec_write(third, start, sections)
    } else {
        third
    };
    lemma_raw_bytes(bytes, 64, one, headers.0);
    lemma_raw_bytes(first, second_at, two, headers.1);
    lemma_raw_bytes(second, third_at, three, headers.2);
    lemma_sections_bytes(third, start, sections, any);
    assert(out.subrange(0, 64) =~= headers.2);
    assert(out.subrange(64, second_at) =~= one);
    assert(out.subrange(second_at, third_at) =~= two);
    assert(out.subrange(third_at, start) =~= three);
}

impl InstallableWad {
    /// The WAD with the sizes of a certificate chain and of a ticket.
    pub open spec fn spec_sized_with(self, chain: Seq<u8>, ticket: PreSwitchTicketView) -> InstallableWad {
        InstallableWad {
            certificate_chain_size: chain.len() as u32,
            ticket_size: ticket.spec_serialize().len() as u32,
            ..self
        }
    }

    /// A safe write of the certificate chain succeeds on a stream that
    /// holds a WAD and has room for the WAD that it leaves. The bytes that
    /// it leaves are those of three raw writes, of the chain, of the ticket
    /// and of the title metadata, and of the contents written back behind
    /// them.
    #[verifier::rlimit(60)]
    pub proof fn lemma_chain_safe_shape(
        self,
        state: StreamState,
        chain: Seq<u8>,
        ticket: PreSwitchTicketView,
        title_metadata: TitleMetadataView,
    )
        requires
            spec_holds_layout(self, state, title_metadata),
            ticket.wf(),
            chain.len() <= u32::MAX,
            self.spec_sized_with(chain, ticket).spec_logical_size(
                title_metadata.content_chunk_entries,
            ) <= STREAM_LIMIT,
            self.spec_sized_with(chain, ticket).spec_logical_size(
                title_metadata.content_chunk_entries,
            ) <= usize::MAX,
        ensures
            ({
                let entries = title_metadata.content_chunk_entries;
                let sized = self.spec_sized_with(chain, ticket);
                let partly = self.spec_with_section_size(
                    WadSection::CertificateChain,
                    chain.len() as u32,
                );
                let safe = self.spec_write_certificate_chain_safe(
                    state,
                    chain,
                    ticket,
                    title_metadata,
                );
                let first = spec_write(
                    spec_write(state.bytes, 64, spec_section_bytes(chain)),
                    0,
                    partly.spec_serialize(),
                );
                let second = spec_write(
                    spec_write(
                        first,
                        sized.spec_ticket_offset(),
                        spec_section_bytes(ticket.spec_serialize()),
                    ),
                    0,
                    sized.spec_serialize(),
                );
                let third = spec_write(
                    spec_write(
                        second,
                        sized.spec_title_metadata_offset(),
                        spec_section_bytes(title_metadata.spec_serialize()),
                    ),
                    0,
                    sized.spec_serialize(),
                );
                &&& sized.certificate_chain_size == chain.len()
                &&& sized.ticket_size == ticket.spec_serialize().len()
                &&& safe is Ok
                &&& safe.unwrap().1 == sized
                &&& safe.unwrap().0.growable
                &&& safe.unwrap().0.bytes == if entries.len() == 0 {
                    third
                } else {
                    spec_write(
                        third,
                        sized.spec_contents_offset(),
                        spec_sections(self.spec_store(state.bytes, entries, 0), 0),
                    )
                }
            }),
    {
        let entries = title_metadata.content_chunk_entries;
        let image = ticket.spec_serialize();
        let body = title_metadata.spec_serialize();
        let partly = self.spec_with_section_size(WadSection::CertificateChain, chain.len() as u32);
        let sized = self.spec_sized_with(chain, ticket);
        assert(partly.spec_with_section_size(WadSection::Ticket, image.len() as u32) == sized);
        assert(sized.spec_with_section_size(WadSection::TitleMetadata, body.len() as u32)
            == sized) by {
            title_metadata.lemma_size();
        }
        ticket.lemma_size();
        title_metadata.lemma_size();
        lemma_held_contents(self, state, title_metadata);
        lemma_holds_in_full(self, state.bytes, entries);
        self.lemma_offsets(entries, 0);
        sized.lemma_offsets(entries, entries.len() as int);
        sized.lemma_offsets(entries, 0);
        partly.lemma_header_len();
        sized.lemma_header_len();
        lemma_section_bytes(chain);
        lemma_section_bytes(image);
        lemma_section_bytes(body);
        self.lemma_kept(state.bytes, entries);
        self.lemma_raw_shape(state, WadSection::CertificateChain, chain);
        let with_chain = self.spec_raw(state, WadSection::CertificateChain, chain).unwrap().0;
        lemma_raw_bytes(state.bytes, 64, spec_section_bytes(chain), partly.spec_serialize());
        partly.lemma_raw_shape(with_chain, WadSection::Ticket, image);
        let with_ticket = partly.spec_raw(with_chain, WadSection::Ticket, image).unwrap().0;
        lemma_raw_bytes(
            with_chain.bytes,
            sized.spec_ticket_offset(),
            spec_section_bytes(image),
            sized.spec_serialize(),
        );
        sized.lemma_raw_shape(with_ticket, WadSection::TitleMetadata, body);
        let written = sized.spec_raw(with_ticket, WadSection::TitleMetadata, body).unwrap().0;
        sized.lemma_put_back_shape(written, entries, self.spec_kept(state.bytes, entries).unwrap());
    }

    /// A safe write of the certificate chain on a stream that holds a WAD
    /// and has room leaves a stream that holds the WAD with the sizes of
    /// the new chain and of the ticket: the chain, the ticket and the title
    /// metadata stand in their sections, and every content behind them with
    /// its bytes. What stands behind the new end of the contents is left
    /// as it was.
    #[verifier::rlimit(60)]
    pub proof fn lemma_chain_safe_holds(
        self,
        state: StreamState,
        chain: Seq<u8>,
        ticket: PreSwitchTicketView,
        title_metadata: TitleMetadataView,
    )
        requires
            spec_holds_layout(self, state, title_metadata),
            ticket.wf(),
            chain.len() <= u32::MAX,
            self.spec_sized_with(chain, ticket).spec_logical_size(
                title_metadata.content_chunk_entries,
            ) <= STREAM_LIMIT,
            self.spec_sized_with(chain, ticket).spec_logical_size(
                title_metadata.content_chunk_entries,
            ) <= usize::MAX,
        ensures
            self.spec_write_certificate_chain_safe(state, chain, ticket, title_metadata) is Ok,
            ({
                let entries = title_metadata.content_chunk_entries;
                let left = self.spec_write_certificate_chain_safe(
                    state,
                    chain,
                    ticket,
                    title_metadata,
                ).unwrap();
                &&& left.1 == self.spec_sized_with(chain, ticket)
                &&& left.1.certificate_chain_size == chain.len()
                &&& left.1.ticket_size == ticket.spec_serialize().len()
                &&& spec_holds_layout(left.1, left.0, title_metadata)
                &&& left.0.bytes.subrange(64, left.1.spec_ticket_offset()) == spec_section_bytes(
                    chain,
                )
                &&& left.0.bytes.subrange(
                    left.1.spec_ticket_offset(),
                    left.1.spec_title_metadata_offset(),
                ) == spec_section_bytes(ticket.spec_serialize())
                &&& left.0.bytes.len() == if state.bytes.len() >= left.1.spec_logical_size(entries) {
                    state.bytes.len() as int
                } else {
                    left.1.spec_logical_size(entries)
                }
                &&& forall|i: int|
                    0 <= i < entries.len() ==> left.0.bytes.subrange(
                        #[trigger] left.1.spec_content_offset(entries, i),
                        left.1.spec_content_offset(entries, i) + entries[i].size,
                    ) == state.bytes.subrange(
                        self.spec_content_offset(entries, i),
                        self.spec_content_offset(entries, i) + entries[i].size,
                    )
                &&& forall|j: int|
                    left.1.spec_logical_size(entries) <= j < state.bytes.len()
                        ==> #[trigger] left.0.bytes[j] == state.bytes[j]
            }),
    {
        let entries = title_metadata.content_chunk_entries;
        let count = entries.len() as int;
        let image = ticket.spec_serialize();
        let body = title_metadata.spec_serialize();
        let partly = self.spec_with_section_size(WadSection::CertificateChain, chain.len() as u32);
        let sized = self.spec_sized_with(chain, ticket);
        let all = self.spec_store(state.bytes, entries, 0);
        let sections = spec_sections(all, 0);
        self.lemma_chain_safe_shape(state, chain, ticket, title_metadata);
        lemma_held_contents(self, state, title_metadata);
        title_metadata.lemma_size();
        sized.lemma_offsets(entries, 0);
        sized.lemma_offsets(entries, count);
        partly.lemma_header_len();
        sized.lemma_header_len();
        lemma_section_bytes(chain);
        lemma_section_bytes(image);
        lemma_section_bytes(body);
        let placed = self.spec_write_certificate_chain_safe(
            state,
            chain,
            ticket,
            title_metadata,
        ).unwrap().0;
        assert(spec_contents_for(all, entries, 0, count));
        lemma_sections_len(all, entries, 0, count, 0);
        lemma_three_raw_bytes(
            state.bytes,
            spec_section_bytes(chain),
            spec_section_bytes(image),
            spec_section_bytes(body),
            (partly.spec_serialize(), sized.spec_serialize(), sized.spec_serialize()),
            sections,
            count > 0,
        );
        assert(sized.spec_ticket_offset() == 64 + spec_section_bytes(chain).len());
        assert(sized.spec_title_metadata_offset() == sized.spec_ticket_offset()
            + spec_section_bytes(image).len());
        assert(sized.spec_contents_offset() == sized.spec_title_metadata_offset()
            + spec_section_bytes(body).len());
        if count > 0 {
            lemma_front_stands(sized, placed.bytes, entries, all, count);
            assert(all.subrange(0, count) =~= all);
        } else {
            assert(spec_sections_stand(sized, placed.bytes, entries, 0, all));
        }
        lemma_layout_of_parts(sized, placed, title_metadata, all);
        assert forall|i: int| 0 <= i < entries.len() implies placed.bytes.subrange(
            #[trigger] sized.spec_content_offset(entries, i),
            sized.spec_content_offset(entries, i) + entries[i].size,
        ) == state.bytes.subrange(
            self.spec_content_offset(entries, i),
            self.spec_content_offset(entries, i) + entries[i].size,
        ) by {
            assert(placed.bytes.subrange(
                sized.spec_content_offset(entries, i),
                sized.spec_content_offset(entries, i) + entries[i].size,
            ) == all[i]);
        }
    }
}

impl InstallableWad {
    /// A safe write of the ticket that a stream holds, on a stream that
    /// holds the WAD, leaves every byte of the stream and the WAD as they
    /// are.
    #[verifier::rlimit(60)]
    pub proof fn lemma_ticket_safe_same(
        self,
        state: StreamState,
        ticket: PreSwitchTicketView,
        title_metadata: TitleMetadataView,
    )
        requires
            spec_holds_layout(self, state, title_metadata),
            ticket.wf(),
            self.ticket_size == ticket.spec_serialize().len(),
            state.bytes.subrange(self.spec_ticket_offset(), self.spec_title_metadata_offset())
                == spec_section_bytes(ticket.spec_serialize()),
        ensures
            self.spec_write_ticket_safe(state, ticket, title_metadata) is Ok,
            self.spec_write_ticket_safe(state, ticket, title_metadata).unwrap().1 == self,
            self.spec_write_ticket_safe(state, ticket, title_metadata).unwrap().0.bytes
                == state.bytes,
    {
        let entries = title_metadata.content_chunk_entries;
        let at = self.spec_ticket_offset();
        let behind = self.spec_title_metadata_offset();
        lemma_held_contents(self, state, title_metadata);
        self.lemma_offsets(entries, 0);
        self.lemma_offsets(entries, entries.len() as int);
        assert(self.spec_with_section_size(
            WadSection::Ticket,
            ticket.spec_serialize().len() as u32,
        ) == self);
        self.lemma_ticket_safe_holds(state, ticket, title_metadata);
        let left = self.spec_write_ticket_safe(state, ticket, title_metadata).unwrap();
        assert forall|j: int| 64 <= j < behind implies #[trigger] left.0.bytes[j]
            == state.bytes[j] by {
            if j >= at {
                crate::wad::installable::remove_add::lemma_equal_in_part(
                    left.0.bytes,
                    state.bytes,
                    at,
                    behind,
                    j,
                );
            }
        }
        crate::wad::installable::remove_add::lemma_same_wad(self, left.0, state, title_metadata);
    }

    /// A safe write of the certificate chain and the ticket that a stream
    /// holds, on a stream that holds the WAD, leaves every byte of the
    /// stream and the WAD as they are.
    #[verifier::rlimit(60)]
    pub proof fn lemma_chain_safe_same(
        self,
        state: StreamState,
        chain: Seq<u8>,
        ticket: PreSwitchTicketView,
        title_metadata: TitleMetadataView,
    )
        requires
            spec_holds_layout(self, state, title_metadata),
            ticket.wf(),
            self.certificate_chain_size == chain.len(),
            self.ticket_size == ticket.spec_serialize().len(),
            state.bytes.subrange(64, self.spec_ticket_offset()) == spec_section_bytes(chain),
            state.bytes.subrange(self.spec_ticket_offset(), self.spec_title_metadata_offset())
                == spec_section_bytes(ticket.spec_serialize()),
        ensures
            self.spec_write_certificate_chain_safe(state, chain, ticket, title_metadata) is Ok,
            self.spec_write_certificate_chain_safe(state, chain, ticket, title_metadata).unwrap().1
                == self,
            self.spec_write_certificate_chain_safe(
                state,
                chain,
                ticket,
                title_metadata,
            ).unwrap().0.bytes == state.bytes,
    {
        let entries = title_metadata.content_chunk_entries;
        let at = self.spec_ticket_offset();
        let behind = self.spec_title_metadata_offset();
        lemma_held_contents(self, state, title_metadata);
        self.lemma_offsets(entries, 0);
        self.lemma_offsets(entries, entries.len() as int);
        assert(self.spec_sized_with(chain, ticket) == self);
        self.lemma_chain_safe_holds(state, chain, ticket, title_metadata);
        let left = self.spec_write_certificate_chain_safe(
            state,
            chain,
            ticket,
            title_metadata,
        ).unwrap();
        assert forall|j: int| 64 <= j < behind implies #[trigger] left.0.bytes[j]
            == state.bytes[j] by {
            if j >= at {
                crate::wad::installable::remove_add::lemma_equal_in_part(
                    left.0.bytes,
                    state.bytes,
                    at,
                    behind,
                    j,
                );
            } else {
                crate::wad::installable::remove_add::lemma_equal_in_part(
                    left.0.bytes,
                    state.bytes,
                    64,
                    at,
                    j,
                );
            }
        }
        crate::wad::installable::remove_add::lemma_same_wad(self, left.0, state, title_metadata);
    }
}

} // verus!
