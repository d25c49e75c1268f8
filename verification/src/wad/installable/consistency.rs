//! Streams that hold a WAD as its header and its title metadata describe
//! it, and the edits that leave such a stream as it is.

use vstd::prelude::*;
use crate::align::lemma_ceil_align;
use crate::bytes::zeros;
use crate::stream::{
    lemma_write_same, lemma_write_write, lemma_written_part, spec_write, StreamError,
    StreamState, STREAM_LIMIT,
};
use crate::title_metadata::content_selector::{
    lemma_select_in_range, spec_select, ContentSelectorMethod,
};
use crate::title_metadata::{TitleMetadataContentEntry, TitleMetadataView};
use crate::ticket::PreSwitchTicket;
use crate::wad::installable::content::{
    spec_content_hash, spec_encrypt_content, with_entries, ModifyContentBuilder,
};
use crate::wad::installable::{
    ceil64, lemma_aligned_sizes, lemma_aligned_sizes_grow, lemma_section_bytes,
    spec_aligned_sizes, spec_restore, spec_section_bytes, spec_sizes, spec_stored_content,
    InstallableWad, InstallableWadError, WadSection,
};

verus! {

/// Whether the content at `position` stands in the stream in full, with
/// zeros behind it up to the boundary.
pub open spec fn spec_holds_content(
    wad: InstallableWad,
    bytes: Seq<u8>,
    entries: Seq<TitleMetadataContentEntry>,
    position: int,
) -> bool {
    let offset = wad.spec_content_offset(entries, position);
    let size = entries[position].size as int;
    &&& offset + ceil64(size) <= bytes.len()
    &&& bytes.subrange(offset + size, offset + ceil64(size)) == zeros(ceil64(size) - size)
}

/// Whether a stream holds a WAD as the header and the title metadata
/// describe it, but for the sum of the sizes of the contents: the stream
/// grows; the header stands at its start; the title metadata stands in its
/// section with zeros up to the boundary, and the header holds its size;
/// and every content stands in full with zeros up to the boundary.
pub open spec fn spec_holds_layout(
    wad: InstallableWad,
    state: StreamState,
    title_metadata: TitleMetadataView,
) -> bool {
    let entries = title_metadata.content_chunk_entries;
    let image = title_metadata.spec_serialize();
    &&& state.growable
    &&& 64 <= state.bytes.len() <= STREAM_LIMIT
    &&& state.bytes.len() <= usize::MAX
    &&& state.bytes.subrange(0, 64) == wad.spec_serialize()
    &&& title_metadata.wf()
    &&& wad.title_metadata_size == image.len()
    &&& wad.spec_title_metadata_offset() + ceil64(image.len() as int) <= state.bytes.len()
    &&& state.bytes.subrange(
        wad.spec_title_metadata_offset(),
        wad.spec_title_metadata_offset() + ceil64(image.len() as int),
    ) == spec_section_bytes(image)
    &&& forall|position: int|
        0 <= position < entries.len() ==> #[trigger] spec_holds_content(
            wad,
            state.bytes,
            entries,
            position,
        )
}

/// Whether a stream holds a WAD as the header and the title metadata
/// describe it: as `spec_holds_layout` has it, and the header holds the sum
/// of the sizes of the contents.
pub open spec fn spec_holds(wad: InstallableWad, state: StreamState, title_metadata: TitleMetadataView) -> bool {
    &&& spec_holds_layout(wad, state, title_metadata)
    &&& wad.content_size == spec_sizes(
        title_metadata.content_chunk_entries,
        title_metadata.content_chunk_entries.len() as int,
    )
}

/// A section that stands in a stream is written over itself without a
/// change.
#[verifier::rlimit(50)]
pub proof fn lemma_write_section_same(state: StreamState, offset: int, image: Seq<u8>)
    requires
        state.growable,
        0 <= offset,
        offset + ceil64(image.len() as int) <= state.bytes.len(),
        state.bytes.len() <= STREAM_LIMIT,
        state.bytes.len() <= usize::MAX,
        state.bytes.subrange(offset, offset + ceil64(image.len() as int)) == spec_section_bytes(
            image,
        ),
    ensures
        InstallableWad::spec_write_section(state, offset, image) == Ok::<
            StreamState,
            StreamError,
        >(state.at(offset + ceil64(image.len() as int))),
{
    lemma_section_bytes(image);
    lemma_write_same(state.at(offset), spec_section_bytes(image));
}

/// A content that stands in a stream in full, with zeros behind it, is the
/// section that its bytes make.
#[verifier::rlimit(50)]
pub proof fn lemma_content_section(
    wad: InstallableWad,
    bytes: Seq<u8>,
    entries: Seq<TitleMetadataContentEntry>,
    position: int,
)
    requires
        0 <= position < entries.len(),
        spec_holds_content(wad, bytes, entries, position),
        0 <= wad.spec_content_offset(entries, position),
    ensures
        ({
            let offset = wad.spec_content_offset(entries, position);
            let size = entries[position].size as int;
            let content = spec_stored_content(bytes, offset, size);
            &&& content == bytes.subrange(offset, offset + size)
            &&& bytes.subrange(offset, offset + ceil64(size)) == spec_section_bytes(content)
            &&& offset + ceil64(size) == wad.spec_content_offset(entries, position + 1)
        }),
{
    let offset = wad.spec_content_offset(entries, position);
    let size = entries[position].size as int;
    lemma_ceil_align(size, 64);
    let content = spec_stored_content(bytes, offset, size);
    if size == 0 {
        assert(content =~= bytes.subrange(offset, offset + size));
    }
    let padding = bytes.subrange(offset + size, offset + ceil64(size));
    assert(bytes.subrange(offset, offset + ceil64(size)) =~= bytes.subrange(offset, offset + size)
        + padding);
}

impl InstallableWad {
    /// The contents of a stream that holds a WAD are written back over
    /// themselves without a change: the contents from `done` on, which were
    /// kept from `first` on, where the stream stands at the offset of the
    /// content at `done`.
    #[verifier::rlimit(50)]
    pub proof fn lemma_restore_same(
        self,
        state: StreamState,
        title_metadata: TitleMetadataView,
        first: int,
        done: int,
    )
        requires
            spec_holds(self, state, title_metadata),
            0 <= first <= done <= title_metadata.content_chunk_entries.len(),
        ensures
            spec_restore(
                state.at(self.spec_content_offset(title_metadata.content_chunk_entries, done)),
                self.spec_store(state.bytes, title_metadata.content_chunk_entries, first),
                done - first,
            ) == Ok::<StreamState, StreamError>(
                state.at(self.spec_logical_size(title_metadata.content_chunk_entries)),
            ),
        decreases title_metadata.content_chunk_entries.len() - done,
    {
        let entries = title_metadata.content_chunk_entries;
        let kept = self.spec_store(state.bytes, entries, first);
        if done < entries.len() {
            self.lemma_offsets(entries, done);
            assert(spec_holds_content(self, state.bytes, entries, done));
            lemma_content_section(self, state.bytes, entries, done);
            let offset = self.spec_content_offset(entries, done);
            let content = kept[done - first];
            lemma_write_section_same(state, offset, content);
            self.lemma_restore_same(state, title_metadata, first, done + 1);
        }
    }

    /// The title metadata of a stream that holds a WAD is written over
    /// itself safely without a change.
    #[verifier::rlimit(50)]
    pub proof fn lemma_write_title_metadata_safe_same(
        self,
        state: StreamState,
        title_metadata: TitleMetadataView,
    )
        requires
            spec_holds(self, state, title_metadata),
        ensures
            self.spec_write_title_metadata_safe(state, title_metadata) is Ok,
            self.spec_write_title_metadata_safe(state, title_metadata).unwrap().0.bytes
                == state.bytes,
            self.spec_write_title_metadata_safe(state, title_metadata).unwrap().0.growable,
            self.spec_write_title_metadata_safe(state, title_metadata).unwrap().1 == self,
    {
        let entries = title_metadata.content_chunk_entries;
        let image = title_metadata.spec_serialize();
        self.lemma_holds_fits(state, title_metadata);
        self.lemma_raw_same(state, title_metadata);
        if entries.len() > 0 {
            self.lemma_restore_same(state.at(64), title_metadata, 0, 0);
        }
    }

    /// The offsets of the contents of a stream that holds a WAD fit 64
    /// bits.
    #[verifier::rlimit(50)]
    pub proof fn lemma_holds_fits(self, state: StreamState, title_metadata: TitleMetadataView)
        requires
            spec_holds(self, state, title_metadata),
        ensures
            self.spec_layout_fits(title_metadata.content_chunk_entries),
            self.spec_logical_size(title_metadata.content_chunk_entries) <= state.bytes.len()
                || title_metadata.content_chunk_entries.len() == 0,
            self.spec_logical_size(title_metadata.content_chunk_entries) <= u64::MAX,
    {
        let entries = title_metadata.content_chunk_entries;
        let count = entries.len() as int;
        self.lemma_offsets(entries, count);
        if count > 0 {
            self.lemma_offsets(entries, count - 1);
            assert(spec_holds_content(self, state.bytes, entries, count - 1));
            lemma_content_section(self, state.bytes, entries, count - 1);
        } else {
            lemma_ceil_align(self.title_metadata_size as int, 64);
        }
    }

    /// The title metadata of a stream that holds a WAD is written over
    /// itself raw without a change.
    #[verifier::rlimit(50)]
    pub proof fn lemma_raw_same(self, state: StreamState, title_metadata: TitleMetadataView)
        requires
            spec_holds(self, state, title_metadata),
        ensures
            self.spec_raw(state, WadSection::TitleMetadata, title_metadata.spec_serialize()) == Ok::<
                (StreamState, InstallableWad),
                StreamError,
            >((state.at(64), self)),
    {
        let image = title_metadata.spec_serialize();
        let offset = self.spec_title_metadata_offset();
        self.lemma_offsets(Seq::empty(), 0);
        lemma_write_section_same(state, offset, image);
        self.lemma_header_same(state.at(offset + ceil64(image.len() as int)));
    }

    /// The header of a stream that holds it is written over itself without
    /// a change.
    #[verifier::rlimit(50)]
    pub proof fn lemma_header_same(self, state: StreamState)
        requires
            state.growable,
            64 <= state.bytes.len() <= STREAM_LIMIT,
            state.bytes.len() <= usize::MAX,
            state.bytes.subrange(0, 64) == self.spec_serialize(),
        ensures
            self.spec_write_header(state) == Ok::<StreamState, StreamError>(state.at(64)),
    {
        lemma_write_same(state.at(0), self.spec_serialize());
    }
}

impl InstallableWad {
    /// The sum of the sizes in the header of a stream that holds a WAD is
    /// brought up to date without a change.
    #[verifier::rlimit(50)]
    pub proof fn lemma_sync_same(self, state: StreamState, title_metadata: TitleMetadataView)
        requires
            spec_holds(self, state, title_metadata),
        ensures
            self.spec_sync(state, title_metadata.content_chunk_entries) == Ok::<
                (StreamState, InstallableWad),
                InstallableWadError,
            >((state.at(64), self)),
    {
        self.lemma_header_same(state);
    }

    /// The contents behind a content of a stream that holds a WAD are kept
    /// and written back over themselves without a change.
    #[verifier::rlimit(50)]
    pub proof fn lemma_trailing_same(
        self,
        state: StreamState,
        title_metadata: TitleMetadataView,
        position: int,
    )
        requires
            spec_holds(self, state, title_metadata),
            0 <= position < title_metadata.content_chunk_entries.len(),
        ensures
            self.spec_trailing(state.bytes, title_metadata.content_chunk_entries, position) is Ok,
            ({
                let entries = title_metadata.content_chunk_entries;
                let trailing = self.spec_trailing(state.bytes, entries, position).unwrap();
                let restored = self.spec_restore_contents(
                    state.at(self.spec_content_offset(entries, position + 1)),
                    entries,
                    position + 1,
                    trailing,
                );
                &&& restored is Ok
                &&& restored.unwrap().bytes == state.bytes
                &&& restored.unwrap().growable
            }),
    {
        let entries = title_metadata.content_chunk_entries;
        self.lemma_holds_fits(state, title_metadata);
        self.lemma_offsets(entries, position + 1);
        lemma_aligned_sizes_grow(entries, position + 1, entries.len() as int);
        if position + 1 < entries.len() {
            self.lemma_restore_same(state, title_metadata, position + 1, position + 1);
        }
    }
}

impl<'c> ModifyContentBuilder<'c> {
    /// Replacing a content of a stream that holds a WAD with the plaintext
    /// that it holds, without another ID, index or kind, leaves every byte
    /// of the stream, the WAD and the title metadata as they are.
    ///
    /// The plaintext is the one of the content where its size and its hash
    /// are those of the entry, and it encrypts to the bytes that the stream
    /// holds of the content.
    #[verifier::rlimit(50)]
    pub proof fn lemma_replace_same(
        self,
        wad: InstallableWad,
        state: StreamState,
        data: Seq<u8>,
        method: ContentSelectorMethod,
        title_metadata: TitleMetadataView,
    )
        requires
            spec_holds(wad, state, title_metadata),
            self.spec_cryptography() is Some,
            self.new_id is None,
            self.new_index is None,
            self.new_kind is None,
            spec_select(method, title_metadata.content_chunk_entries) is Some,
            ({
                let entries = title_metadata.content_chunk_entries;
                let position = spec_select(method, entries).unwrap();
                let offset = wad.spec_content_offset(entries, position);
                &&& data.len() == entries[position].size
                &&& spec_content_hash(title_metadata.spec_is_version_1(), data)
                    == entries[position].hash
                &&& spec_encrypt_content(
                    self.spec_cryptography().unwrap(),
                    entries[position].index,
                    data,
                ) == Ok::<Seq<u8>, InstallableWadError>(
                    state.bytes.subrange(offset, offset + data.len()),
                )
            }),
        ensures
            self.spec_replace(wad, state, data, method, title_metadata) is Ok,
            self.spec_replace(wad, state, data, method, title_metadata).unwrap().0.bytes
                == state.bytes,
            self.spec_replace(wad, state, data, method, title_metadata).unwrap().1 == wad,
            self.spec_replace(wad, state, data, method, title_metadata).unwrap().2
                == title_metadata,
    {
        let entries = title_metadata.content_chunk_entries;
        lemma_select_in_range(method, entries);
        let position = spec_select(method, entries).unwrap();
        let entry = self.spec_replaced_entry(
            entries[position],
            title_metadata.spec_is_version_1(),
            data,
        );
        assert(entry == entries[position]);
        assert(entries.update(position, entry) =~= entries);
        assert(with_entries(title_metadata, entries.update(position, entry)) == title_metadata);
        wad.lemma_trailing_same(state, title_metadata, position);
        wad.lemma_write_title_metadata_safe_same(state, title_metadata);
        let placed = wad.spec_write_title_metadata_safe(state, title_metadata).unwrap().0;
        wad.lemma_replace_content_same(
            placed,
            self.spec_cryptography().unwrap(),
            data,
            position,
            title_metadata,
            state,
        );
    }
}

impl InstallableWad {
    /// The second half of `lemma_replace_same`: the ciphertext that a stream
    /// holds of a content is written over itself, and the contents behind
    /// it and the header over themselves, without a change. `kept` is the
    /// stream from which the contents behind were kept.
    #[verifier::rlimit(50)]
    pub proof fn lemma_replace_content_same(
        self,
        state: StreamState,
        ticket: PreSwitchTicket,
        data: Seq<u8>,
        position: int,
        title_metadata: TitleMetadataView,
        kept: StreamState,
    )
        requires
            spec_holds(self, state, title_metadata),
            kept.bytes == state.bytes,
            0 <= position < title_metadata.content_chunk_entries.len(),
            data.len() == title_metadata.content_chunk_entries[position].size,
            spec_encrypt_content(
                ticket,
                title_metadata.content_chunk_entries[position].index,
                data,
            ) == Ok::<Seq<u8>, InstallableWadError>(
                state.bytes.subrange(
                    self.spec_content_offset(title_metadata.content_chunk_entries, position),
                    self.spec_content_offset(title_metadata.content_chunk_entries, position)
                        + data.len(),
                ),
            ),
            self.spec_trailing(kept.bytes, title_metadata.content_chunk_entries, position) is Ok,
        ensures
            ({
                let replaced = self.spec_replace_content(
                    state,
                    ticket,
                    data,
                    position,
                    title_metadata,
                    self.spec_trailing(
                        kept.bytes,
                        title_metadata.content_chunk_entries,
                        position,
                    ).unwrap(),
                );
                &&& replaced is Ok
                &&& replaced.unwrap().0.bytes == state.bytes
                &&& replaced.unwrap().1 == self
                &&& replaced.unwrap().2 == title_metadata
            }),
    {
        let entries = title_metadata.content_chunk_entries;
        let offset = self.spec_content_offset(entries, position);
        let size = entries[position].size as int;
        let cipher = state.bytes.subrange(offset, offset + size);
        self.lemma_holds_fits(state, title_metadata);
        self.lemma_offsets(entries, position);
        lemma_aligned_sizes_grow(entries, position, entries.len() as int);
        assert(spec_holds_content(self, state.bytes, entries, position));
        lemma_content_section(self, state.bytes, entries, position);
        lemma_write_section_same(state, offset, cipher);
        let written = state.at(offset + ceil64(size));
        self.lemma_trailing_same(written, title_metadata, position);
        let trailing = self.spec_trailing(kept.bytes, entries, position).unwrap();
        let restored = self.spec_restore_contents(written, entries, position + 1, trailing).unwrap();
        self.lemma_sync_same(restored, title_metadata);
    }
}

/// The sections that the contents from `done` on make, one behind the
/// other.
pub open spec fn spec_sections(contents: Seq<Seq<u8>>, done: int) -> Seq<u8>
    decreases contents.len() - done,
{
    if done < 0 || done >= contents.len() {
        Seq::empty()
    } else {
        spec_section_bytes(contents[done]) + spec_sections(contents, done + 1)
    }
}

/// Writing contents back, each as a section, is one write of their
/// sections.
#[verifier::rlimit(50)]
pub proof fn lemma_restore_is_write(state: StreamState, contents: Seq<Seq<u8>>, done: int)
    requires
        state.growable,
        0 <= state.pos,
        0 <= done,
        state.pos + spec_sections(contents, done).len() <= STREAM_LIMIT,
        state.pos + spec_sections(contents, done).len() <= usize::MAX,
    ensures
        spec_restore(state, contents, done) == Ok::<StreamState, StreamError>(
            StreamState {
                bytes: if done < contents.len() {
                    spec_write(state.bytes, state.pos, spec_sections(contents, done))
                } else {
                    state.bytes
                },
                pos: state.pos + spec_sections(contents, done).len(),
                growable: true,
            },
        ),
    decreases contents.len() - done,
{
    if done < contents.len() {
        let section = spec_section_bytes(contents[done]);
        let rest = spec_sections(contents, done + 1);
        assert(spec_sections(contents, done) == section + rest);
        assert((section + rest).len() == section.len() + rest.len());
        let next = state.write_all(section).unwrap();
        lemma_restore_is_write(next, contents, done + 1);
        lemma_write_write(state.bytes, state.pos, section, rest);
        if done + 1 >= contents.len() {
            assert(section + rest =~= section);
        }
    }
}

/// Whether a stream holds the contents that the entries describe in full,
/// where the sizes of the WAD and the entries place them.
pub open spec fn spec_contents_in_full(
    wad: InstallableWad,
    bytes: Seq<u8>,
    entries: Seq<TitleMetadataContentEntry>,
) -> bool {
    forall|position: int|
        0 <= position < entries.len() ==> #[trigger] wad.spec_content_offset(entries, position)
            + entries[position].size <= bytes.len()
}

/// The contents of a stream that holds them in full, as they are kept.
#[verifier::rlimit(50)]
pub proof fn lemma_store_in_full(
    wad: InstallableWad,
    bytes: Seq<u8>,
    entries: Seq<TitleMetadataContentEntry>,
    position: int,
)
    requires
        spec_contents_in_full(wad, bytes, entries),
        0 <= position < entries.len(),
    ensures
        wad.spec_store(bytes, entries, 0)[position] == bytes.subrange(
            wad.spec_content_offset(entries, position),
            wad.spec_content_offset(entries, position) + entries[position].size,
        ),
        wad.spec_store(bytes, entries, 0)[position].len() == entries[position].size,
        wad.spec_store(bytes, entries, 0).len() == entries.len(),
{
    wad.lemma_offsets(entries, position);
    let offset = wad.spec_content_offset(entries, position);
    let size = entries[position].size as int;
    assert(offset + size <= bytes.len());
    if size == 0 {
        assert(spec_stored_content(bytes, offset, size) =~= bytes.subrange(offset, offset + size));
    }
}

/// The sections of contents with the sizes of the entries are as long as
/// the aligned sizes of the entries say, and the section of each content
/// stands in them behind those of the contents before it.
#[verifier::rlimit(50)]
pub proof fn lemma_sections_layout(
    contents: Seq<Seq<u8>>,
    entries: Seq<TitleMetadataContentEntry>,
    done: int,
    position: int,
)
    requires
        contents.len() == entries.len(),
        forall|i: int| 0 <= i < contents.len() ==> (#[trigger] contents[i]).len() == entries[i].size,
        0 <= done <= position <= entries.len(),
    ensures
        spec_sections(contents, done).len() == spec_aligned_sizes(entries, entries.len() as int)
            - spec_aligned_sizes(entries, done),
        spec_aligned_sizes(entries, done) <= spec_aligned_sizes(entries, position)
            <= spec_aligned_sizes(entries, entries.len() as int),
        position < entries.len() ==> {
            let from = spec_aligned_sizes(entries, position) - spec_aligned_sizes(entries, done);
            &&& from + ceil64(entries[position].size as int) <= spec_sections(contents, done).len()
            &&& spec_sections(contents, done).subrange(
                from,
                from + ceil64(entries[position].size as int),
            ) == spec_section_bytes(contents[position])
        },
    decreases entries.len() - done,
{
    let total = entries.len() as int;
    lemma_aligned_sizes_grow(entries, done, position);
    lemma_aligned_sizes_grow(entries, position, total);
    if done < total {
        let section = spec_section_bytes(contents[done]);
        let rest = spec_sections(contents, done + 1);
        lemma_section_bytes(contents[done]);
        assert(contents[done].len() == entries[done].size);
        assert(spec_sections(contents, done) == section + rest);
        crate::bytes::lemma_parts_of_concat(section, rest);
        if position == done {
            lemma_sections_layout(contents, entries, done + 1, done + 1);
        } else {
            lemma_sections_layout(contents, entries, done + 1, position);
            if position < total {
                let from = spec_aligned_sizes(entries, position) - spec_aligned_sizes(
                    entries,
                    done + 1,
                );
                let width = ceil64(entries[position].size as int);
                crate::bytes::lemma_subrange_of_subrange(
                    section + rest,
                    section.len() as int,
                    (section + rest).len() as int,
                    from,
                    width,
                );
            }
        }
    }
}

impl InstallableWad {
    /// The WAD with the size of a title metadata in its header.
    pub open spec fn spec_sized_for(self, title_metadata: TitleMetadataView) -> InstallableWad {
        self.spec_with_section_size(
            WadSection::TitleMetadata,
            title_metadata.spec_serialize().len() as u32,
        )
    }

    /// The bytes that a safe write of a title metadata leaves: its section,
    /// the header with its size, and behind it the sections of the contents
    /// that were kept.
    pub open spec fn spec_safe_bytes(self, bytes: Seq<u8>, title_metadata: TitleMetadataView) -> Seq<
        u8,
    > {
        let entries = title_metadata.content_chunk_entries;
        let sized = self.spec_sized_for(title_metadata);
        let written = spec_write(
            spec_write(
                bytes,
                self.spec_title_metadata_offset(),
                spec_section_bytes(title_metadata.spec_serialize()),
            ),
            0,
            sized.spec_serialize(),
        );
        if entries.len() == 0 {
            written
        } else {
            spec_write(
                written,
                sized.spec_contents_offset(),
                spec_sections(self.spec_store(bytes, entries, 0), 0),
            )
        }
    }

    /// What a safe write of a title metadata needs to succeed on a stream
    /// that grows: a well-formed title metadata, the contents that its
    /// entries describe in full in the stream, and room within the limits
    /// of a stream for the WAD that it leaves.
    pub open spec fn spec_safe_write_fits(self, state: StreamState, title_metadata: TitleMetadataView) -> bool {
        let entries = title_metadata.content_chunk_entries;
        let sized = self.spec_sized_for(title_metadata);
        &&& state.growable
        &&& state.bytes.len() <= STREAM_LIMIT
        &&& state.bytes.len() <= usize::MAX
        &&& title_metadata.wf()
        &&& spec_contents_in_full(self, state.bytes, entries)
        &&& sized.spec_logical_size(entries) <= STREAM_LIMIT
        &&& sized.spec_logical_size(entries) <= usize::MAX
    }

    /// The contents of a stream that holds them in full are kept.
    #[verifier::rlimit(50)]
    pub proof fn lemma_kept(self, bytes: Seq<u8>, entries: Seq<TitleMetadataContentEntry>)
        requires
            spec_contents_in_full(self, bytes, entries),
            bytes.len() <= STREAM_LIMIT,
        ensures
            self.spec_kept(bytes, entries) == Ok::<Seq<Seq<u8>>, InstallableWadError>(
                if entries.len() == 0 {
                    Seq::empty()
                } else {
                    self.spec_store(bytes, entries, 0)
                },
            ),
            self.spec_store(bytes, entries, 0).len() == entries.len(),
            forall|i: int|
                0 <= i < entries.len() ==> (#[trigger] self.spec_store(bytes, entries, 0)[i]).len()
                    == entries[i].size,
    {
        let count = entries.len() as int;
        if count > 0 {
            self.lemma_offsets(entries, count - 1);
            lemma_ceil_align(entries[count - 1].size as int, 64);
            assert(self.spec_content_offset(entries, count - 1) + entries[count - 1].size
                <= bytes.len());
        }
        assert forall|i: int| 0 <= i < entries.len() implies (#[trigger] self.spec_store(
            bytes,
            entries,
            0,
        )[i]).len() == entries[i].size by {
            lemma_store_in_full(self, bytes, entries, i);
        }
    }

    /// A raw write of a section on a stream that grows and has room for it
    /// leaves the section and the header written.
    #[verifier::rlimit(50)]
    pub proof fn lemma_raw_shape(self, state: StreamState, section: WadSection, image: Seq<u8>)
        requires
            state.growable,
            state.bytes.len() <= STREAM_LIMIT,
            state.bytes.len() <= usize::MAX,
            self.spec_section_offset(section) + ceil64(image.len() as int) <= STREAM_LIMIT,
            self.spec_section_offset(section) + ceil64(image.len() as int) <= usize::MAX,
        ensures
            self.spec_raw(state, section, image) == Ok::<(StreamState, InstallableWad), StreamError>(
                (
                    StreamState {
                        bytes: spec_write(
                            spec_write(
                                state.bytes,
                                self.spec_section_offset(section),
                                spec_section_bytes(image),
                            ),
                            0,
                            self.spec_with_section_size(
                                section,
                                image.len() as u32,
                            ).spec_serialize(),
                        ),
                        pos: 64,
                        growable: true,
                    },
                    self.spec_with_section_size(section, image.len() as u32),
                ),
            ),
    {
        let offset = self.spec_section_offset(section);
        let sized = self.spec_with_section_size(section, image.len() as u32);
        lemma_section_bytes(image);
        self.lemma_offsets(Seq::empty(), 0);
        sized.lemma_header_len();
        let with_section = state.at(offset).write_all(spec_section_bytes(image));
        assert(with_section is Ok);
    }

    /// The header has 64 bytes.
    #[verifier::rlimit(50)]
    pub proof fn lemma_header_len(self)
        ensures
            self.spec_serialize().len() == 64,
    {
    }

    /// Putting contents with the sizes of the entries back on a stream that
    /// grows and has room for them leaves their sections written behind
    /// the title metadata.
    #[verifier::rlimit(50)]
    pub proof fn lemma_put_back_shape(
        self,
        state: StreamState,
        entries: Seq<TitleMetadataContentEntry>,
        kept: Seq<Seq<u8>>,
    )
        requires
            state.growable,
            kept.len() == entries.len() || kept.len() == 0,
            forall|i: int| 0 <= i < kept.len() ==> (#[trigger] kept[i]).len() == entries[i].size,
            kept.len() > 0 ==> self.spec_logical_size(entries) <= STREAM_LIMIT,
            kept.len() > 0 ==> self.spec_logical_size(entries) <= usize::MAX,
        ensures
            self.spec_put_back(state, entries, kept) is Ok,
            self.spec_put_back(state, entries, kept).unwrap().1 == self,
            self.spec_put_back(state, entries, kept).unwrap().0.growable,
            self.spec_put_back(state, entries, kept).unwrap().0.bytes == if kept.len() == 0 {
                state.bytes
            } else {
                spec_write(state.bytes, self.spec_contents_offset(), spec_sections(kept, 0))
            },
            self.spec_put_back(state, entries, kept).unwrap().0.pos == if kept.len() == 0 {
                state.pos
            } else {
                self.spec_logical_size(entries)
            },
    {
        if kept.len() > 0 {
            self.lemma_offsets(entries, 0);
            lemma_sections_layout(kept, entries, 0, 0);
            lemma_restore_is_write(state.at(self.spec_contents_offset()), kept, 0);
        }
    }

    /// A safe write of a title metadata that fits succeeds, and leaves the
    /// bytes that `spec_safe_bytes` gives.
    #[verifier::rlimit(50)]
    pub proof fn lemma_safe_shape(self, state: StreamState, title_metadata: TitleMetadataView)
        requires
            self.spec_safe_write_fits(state, title_metadata),
        ensures
            self.spec_write_title_metadata_safe(state, title_metadata) is Ok,
            self.spec_write_title_metadata_safe(state, title_metadata).unwrap().1
                == self.spec_sized_for(title_metadata),
            self.spec_write_title_metadata_safe(state, title_metadata).unwrap().0.growable,
            self.spec_write_title_metadata_safe(state, title_metadata).unwrap().0.bytes
                == self.spec_safe_bytes(state.bytes, title_metadata),
    {
        let entries = title_metadata.content_chunk_entries;
        let image = title_metadata.spec_serialize();
        let sized = self.spec_sized_for(title_metadata);
        title_metadata.lemma_size();
        sized.lemma_offsets(entries, entries.len() as int);
        self.lemma_kept(state.bytes, entries);
        self.lemma_raw_shape(state, WadSection::TitleMetadata, image);
        let written = self.spec_raw(state, WadSection::TitleMetadata, image).unwrap().0;
        sized.lemma_put_back_shape(written, entries, self.spec_kept(state.bytes, entries).unwrap());
    }
}

impl InstallableWad {
    /// What a safe write of a title metadata leaves holds the WAD with the
    /// size of the title metadata, but for the sum of the sizes of the
    /// contents.
    #[verifier::rlimit(50)]
    pub proof fn lemma_safe_bytes_hold(self, state: StreamState, title_metadata: TitleMetadataView)
        requires
            self.spec_safe_write_fits(state, title_metadata),
        ensures
            spec_holds_layout(
                self.spec_sized_for(title_metadata),
                StreamState {
                    bytes: self.spec_safe_bytes(state.bytes, title_metadata),
                    pos: 0,
                    growable: true,
                },
                title_metadata,
            ),
            self.spec_safe_bytes(state.bytes, title_metadata).len() == if state.bytes.len()
                >= self.spec_sized_for(title_metadata).spec_logical_size(
                title_metadata.content_chunk_entries,
            ) {
                state.bytes.len() as int
            } else {
                self.spec_sized_for(title_metadata).spec_logical_size(
                    title_metadata.content_chunk_entries,
                )
            },
    {
        let entries = title_metadata.content_chunk_entries;
        let sized = self.spec_sized_for(title_metadata);
        let out = self.spec_safe_bytes(state.bytes, title_metadata);
        self.lemma_safe_bytes_front(state, title_metadata);
        assert forall|position: int| 0 <= position < entries.len() implies #[trigger] spec_holds_content(
            sized,
            out,
            entries,
            position,
        ) by {
            self.lemma_safe_bytes_content(state, title_metadata, position);
            let offset = sized.spec_content_offset(entries, position);
            let size = entries[position].size as int;
            let content = state.bytes.subrange(
                self.spec_content_offset(entries, position),
                self.spec_content_offset(entries, position) + size,
            );
            lemma_section_bytes(content);
            lemma_ceil_align(size, 64);
            sized.lemma_offsets(entries, position);
            crate::bytes::lemma_parts_of_concat(content, zeros(ceil64(size) - size));
            crate::bytes::lemma_subrange_of_subrange(
                out,
                offset,
                offset + ceil64(size),
                size,
                ceil64(size) - size,
            );
        }
    }

    /// What a safe write of a title metadata leaves at the front of the
    /// stream: the header, and the title metadata in its section; and how
    /// long the stream is.
    #[verifier::rlimit(50)]
    pub proof fn lemma_safe_bytes_front(self, state: StreamState, title_metadata: TitleMetadataView)
        requires
            self.spec_safe_write_fits(state, title_metadata),
        ensures
            ({
                let entries = title_metadata.content_chunk_entries;
                let sized = self.spec_sized_for(title_metadata);
                let out = self.spec_safe_bytes(state.bytes, title_metadata);
                let image = title_metadata.spec_serialize();
                let offset = self.spec_title_metadata_offset();
                &&& sized.title_metadata_size == image.len()
                &&& sized.spec_title_metadata_offset() == offset
                &&& 64 <= out.len()
                &&& out.len() == if state.bytes.len() >= sized.spec_logical_size(entries) {
                    state.bytes.len() as int
                } else {
                    sized.spec_logical_size(entries)
                }
                &&& out.subrange(0, 64) == sized.spec_serialize()
                &&& offset + ceil64(image.len() as int) <= out.len()
                &&& out.subrange(offset, offset + ceil64(image.len() as int))
                    == spec_section_bytes(image)
                &&& forall|j: int| 64 <= j < offset && j < state.bytes.len() ==> out[j] == state.bytes[j]
                &&& forall|j: int|
                    sized.spec_logical_size(entries) <= j < state.bytes.len() ==> out[j]
                        == state.bytes[j]
            }),
    {
        let entries = title_metadata.content_chunk_entries;
        let count = entries.len() as int;
        let sized = self.spec_sized_for(title_metadata);
        let out = self.spec_safe_bytes(state.bytes, title_metadata);
        let image = title_metadata.spec_serialize();
        let section = spec_section_bytes(image);
        let offset = self.spec_title_metadata_offset();
        let header = sized.spec_serialize();
        title_metadata.lemma_size();
        lemma_section_bytes(image);
        sized.lemma_header_len();
        self.lemma_offsets(entries, count);
        sized.lemma_offsets(entries, count);
        self.lemma_kept(state.bytes, entries);
        let kept = self.spec_store(state.bytes, entries, 0);
        if count > 0 {
            lemma_sections_layout(kept, entries, 0, 0);
        }
        assert(out.subrange(0, 64) =~= header);
        assert(out.subrange(offset, offset + ceil64(image.len() as int)) =~= section);
    }

    /// What a safe write of a title metadata leaves of a content: its
    /// bytes as the stream held them, with zeros up to the boundary, at the
    /// offset that the new size of the title metadata gives.
    #[verifier::rlimit(50)]
    pub proof fn lemma_safe_bytes_content(
        self,
        state: StreamState,
        title_metadata: TitleMetadataView,
        position: int,
    )
        requires
            self.spec_safe_write_fits(state, title_metadata),
            0 <= position < title_metadata.content_chunk_entries.len(),
        ensures
            ({
                let entries = title_metadata.content_chunk_entries;
                let sized = self.spec_sized_for(title_metadata);
                let out = self.spec_safe_bytes(state.bytes, title_metadata);
                let size = entries[position].size as int;
                let from = self.spec_content_offset(entries, position);
                let to = sized.spec_content_offset(entries, position);
                &&& 0 <= from
                &&& from + size <= state.bytes.len()
                &&& 0 <= to
                &&& to + ceil64(size) <= out.len()
                &&& out.subrange(to, to + ceil64(size)) == spec_section_bytes(
                    state.bytes.subrange(from, from + size),
                )
            }),
    {
        let entries = title_metadata.content_chunk_entries;
        let count = entries.len() as int;
        let sized = self.spec_sized_for(title_metadata);
        let out = self.spec_safe_bytes(state.bytes, title_metadata);
        let size = entries[position].size as int;
        let to = sized.spec_content_offset(entries, position);
        title_metadata.lemma_size();
        sized.lemma_header_len();
        self.lemma_offsets(entries, position);
        sized.lemma_offsets(entries, position);
        sized.lemma_offsets(entries, count);
        self.lemma_kept(state.bytes, entries);
        lemma_store_in_full(self, state.bytes, entries, position);
        let kept = self.spec_store(state.bytes, entries, 0);
        let sections = spec_sections(kept, 0);
        lemma_sections_layout(kept, entries, 0, position);
        let at = spec_aligned_sizes(entries, position);
        let start = sized.spec_contents_offset();
        assert(to == start + at);
        let written = spec_write(
            spec_write(
                state.bytes,
                self.spec_title_metadata_offset(),
                spec_section_bytes(title_metadata.spec_serialize()),
            ),
            0,
            sized.spec_serialize(),
        );
        assert(out == spec_write(written, start, sections));
        lemma_written_part(written, start, sections);
        crate::bytes::lemma_subrange_of_subrange(
            out,
            start,
            start + sections.len(),
            at,
            ceil64(size),
        );
    }
}

} // verus!
