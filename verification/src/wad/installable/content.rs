//! The contents of an installable WAD, and the editor that adds, removes
//! and replaces them.

use vstd::prelude::*;
use crate::bytes::{array_of, lemma_array_of_view};
use crate::cbc_stream::AesCbcStream;
use crate::crypto::{
    aes128_cbc_encrypt, aes128_cbc_encrypted, sha1_digest, sha1_of, sha256_digest, sha256_of,
};
use crate::stream::{Stream, StreamError, StreamState};
use crate::stream_view::StreamView;
use crate::ticket::{
    content_iv, spec_content_iv, CryptographicMethod, PreSwitchTicket, PreSwitchTicketError,
};
use crate::title_metadata::content_selector::{
    lemma_select_in_range, spec_select, ContentSelector, ContentSelectorMethod,
};
use crate::title_metadata::{
    TitleMetadata, TitleMetadataContentEntry, TitleMetadataContentEntryHashKind,
    TitleMetadataContentEntryKind, TitleMetadataError, TitleMetadataView, MAX_CONTENT_ENTRIES,
};
use crate::wad::installable::{
    contents_view, lemma_aligned_sizes, spec_section_bytes, spec_sizes, ContentsStore,
    InstallableWad, InstallableWadError, ModifyContentSetting,
};
use crate::wii_common_key::CommonKeyKindError;

verus! {

broadcast use vstd::array::group_array_axioms;

/// The hash of a content in a title metadata: SHA-256 of its plaintext in
/// version 1, SHA-1 in version 0.
pub open spec fn spec_content_hash(version_1: bool, data: Seq<u8>) -> TitleMetadataContentEntryHashKind {
    if version_1 {
        TitleMetadataContentEntryHashKind::Version1(array_of::<32>(sha256_of(data)))
    } else {
        TitleMetadataContentEntryHashKind::Version0(array_of::<20>(sha1_of(data)))
    }
}

/// The hash of a content in a title metadata.
pub fn content_hash(version_1: bool, data: &[u8]) -> (hash: TitleMetadataContentEntryHashKind)
    ensures
        hash == spec_content_hash(version_1, data@),
        hash.spec_is_version_1() == version_1,
{
    if version_1 {
        let digest = sha256_digest(data);
        proof {
            lemma_array_of_view::<32>(digest);
        }
        TitleMetadataContentEntryHashKind::Version1(digest)
    } else {
        let digest = sha1_digest(data);
        proof {
            lemma_array_of_view::<20>(digest);
        }
        TitleMetadataContentEntryHashKind::Version0(digest)
    }
}

/// The ciphertext of a content with the given index under the title key of
/// a ticket, or why there is none: the ticket has to name a common key, and
/// the plaintext has to be a whole number of blocks.
pub open spec fn spec_encrypt_content(ticket: PreSwitchTicket, index: u16, data: Seq<u8>) -> Result<
    Seq<u8>,
    InstallableWadError,
> {
    match ticket.spec_title_key() {
        None => Err(
            InstallableWadError::TicketError(
                PreSwitchTicketError::CommonKeyError(
                    CommonKeyKindError::UnknownCommonKeyIndex(ticket.common_key_kind_index),
                ),
            ),
        ),
        Some(title_key) => if data.len() % 16 != 0 {
            Err(InstallableWadError::IoError(StreamError::Cipher))
        } else {
            Ok(aes128_cbc_encrypted(title_key, spec_content_iv(index), data))
        },
    }
}

/// Encrypt a content with the given index under the title key of a ticket.
pub fn encrypt_content(
    ticket: &PreSwitchTicket,
    cryptographic_method: CryptographicMethod,
    index: u16,
    data: &[u8],
) -> (result: Result<Vec<u8>, InstallableWadError>)
    ensures
        match spec_encrypt_content(*ticket, index, data@) {
            Ok(cipher) => {
                &&& result is Ok
                &&& result->Ok_0@ == cipher
                &&& cipher.len() == data@.len()
                &&& crate::crypto::aes128_cbc_decrypted(
                    ticket.spec_title_key().unwrap(),
                    spec_content_iv(index),
                    cipher,
                ) == data@
            },
            Err(error) => result == Err::<Vec<u8>, InstallableWadError>(error),
        },
{
    let title_key = match ticket.decrypt_title_key(cryptographic_method) {
        Ok(title_key) => title_key,
        Err(error) => return Err(InstallableWadError::TicketError(error)),
    };
    let iv = content_iv(index);
    match aes128_cbc_encrypt(&title_key, &iv, data) {
        Ok(cipher) => Ok(cipher),
        Err(_) => Err(InstallableWadError::IoError(StreamError::Cipher)),
    }
}

/// The state after a stream was cut behind `size` bytes; a size that does
/// not fit 64 bits is refused.
pub open spec fn spec_trim(state: StreamState, size: int) -> Result<StreamState, InstallableWadError> {
    if size > u64::MAX {
        Err(InstallableWadError::IoError(StreamError::InvalidSeek))
    } else {
        Ok(
            StreamState {
                bytes: if size < state.bytes.len() {
                    state.bytes.subrange(0, size)
                } else {
                    state.bytes
                },
                ..state
            },
        )
    }
}

/// The title metadata with other content entries.
pub open spec fn with_entries(
    title_metadata: TitleMetadataView,
    entries: Seq<TitleMetadataContentEntry>,
) -> TitleMetadataView {
    TitleMetadataView { content_chunk_entries: entries, ..title_metadata }
}

/// The builder of a change to the contents of a WAD: the settings of the
/// change are collected first, and `add`, `remove` or `replace` then makes
/// it.
#[derive(Debug, Clone, Copy)]
pub struct ModifyContentBuilder<'c> {
    /// The ID of the content.
    pub new_id: Option<u32>,
    /// The index of the content.
    pub new_index: Option<u16>,
    /// The kind of the content.
    pub new_kind: Option<TitleMetadataContentEntryKind>,
    /// The ticket whose title key encrypts the content.
    pub ticket: Option<&'c PreSwitchTicket>,
    /// The cryptographic method.
    pub cryptographic_method: Option<CryptographicMethod>,
    /// Whether the stream is cut behind the last content after a removal.
    pub trim_if_is_file: bool,
}

impl InstallableWad {
    /// Where `seek_content` goes, or why it does not: a selector that stands
    /// for no content is refused, and so is an offset that does not fit 64
    /// bits.
    pub open spec fn spec_seek_content(
        self,
        entries: Seq<TitleMetadataContentEntry>,
        method: ContentSelectorMethod,
    ) -> Result<int, InstallableWadError> {
        match spec_select(method, entries) {
            None => if method is WithPhysicalPosition {
                Err(InstallableWadError::TitleMetadataEntryNotFoundError)
            } else {
                Err(InstallableWadError::TitleMetadataError(TitleMetadataError::ContentNotFound()))
            },
            Some(position) => if self.spec_content_offset(entries, position) > u64::MAX {
                Err(InstallableWadError::IoError(StreamError::InvalidSeek))
            } else {
                Ok(self.spec_content_offset(entries, position))
            },
        }
    }

    /// Seek the stream of the WAD to the start of the desired content.
    pub fn seek_content(
        &self,
        stream: &mut Stream,
        title_metadata: &TitleMetadata,
        selector: ContentSelector,
    ) -> (result: Result<(), InstallableWadError>)
        ensures
            final(stream).same_content(old(stream)),
            match self.spec_seek_content(title_metadata.content_chunk_entries@, selector.method) {
                Ok(offset) => result is Ok && final(stream).pos() == offset,
                Err(error) => {
                    &&& result == Err::<(), InstallableWadError>(error)
                    &&& final(stream).pos() == old(stream).pos()
                },
            },
    {
        let position = match selector.physical_position(title_metadata) {
            Ok(position) => position,
            Err(error) => {
                return match selector.method {
                    ContentSelectorMethod::WithPhysicalPosition(_) => Err(
                        InstallableWadError::TitleMetadataEntryNotFoundError,
                    ),
                    _ => Err(InstallableWadError::TitleMetadataError(error)),
                };
            },
        };
        match self.content_offset(title_metadata, position) {
            Some(offset) => {
                stream.seek_to(offset);
                Ok(())
            },
            None => Err(InstallableWadError::IoError(StreamError::InvalidSeek)),
        }
    }

    /// Create a view into the desired content stored inside the WAD stream:
    /// the encrypted bytes of the content. A content without bytes, or with
    /// more than memory can address, has no view.
    pub fn encrypted_content_view(
        &self,
        stream: Stream,
        title_metadata: &TitleMetadata,
        selector: ContentSelector,
    ) -> (result: Result<StreamView, InstallableWadError>)
        requires
            stream.wf(),
        ensures
            match self.spec_seek_content(title_metadata.content_chunk_entries@, selector.method) {
                Err(error) => result is Err && result->Err_0 == error,
                Ok(offset) => {
                    let size = title_metadata.content_chunk_entries@[spec_select(
                        selector.method,
                        title_metadata.content_chunk_entries@,
                    ).unwrap()].size;
                    if size == 0 || size > usize::MAX {
                        result is Err && result->Err_0 == InstallableWadError::IoError(
                            StreamError::InvalidInput,
                        )
                    } else {
                        &&& result is Ok
                        &&& result->Ok_0.wf()
                        &&& result->Ok_0.inner().same_content(&stream)
                        &&& result->Ok_0.inner().pos() == offset
                        &&& result->Ok_0.start() == offset
                        &&& result->Ok_0.length() == size
                    }
                },
            },
    {
        let mut stream = stream;
        match self.seek_content(&mut stream, title_metadata, selector) {
            Ok(()) => {},
            Err(error) => return Err(error),
        }
        let entry = match selector.content_entry(title_metadata) {
            Ok(entry) => entry,
            Err(error) => return Err(InstallableWadError::TitleMetadataError(error)),
        };
        if entry.size == 0 || entry.size > usize::MAX as u64 {
            return Err(InstallableWadError::IoError(StreamError::InvalidInput));
        }
        match StreamView::new(stream, entry.size as usize) {
            Ok(view) => Ok(view),
            Err(error) => Err(InstallableWadError::IoError(error)),
        }
    }

    /// Create a stream over the desired content stored inside the WAD stream
    /// that decrypts what is read from it. Nothing is cached.
    pub fn decrypted_content_view(
        &self,
        stream: Stream,
        ticket: &PreSwitchTicket,
        title_metadata: &TitleMetadata,
        cryptographic_method: CryptographicMethod,
        selector: ContentSelector,
    ) -> (result: Result<AesCbcStream, InstallableWadError>)
        requires
            stream.wf(),
        ensures
            match self.spec_seek_content(title_metadata.content_chunk_entries@, selector.method) {
                Err(error) => result is Err && result->Err_0 == error,
                Ok(offset) => {
                    let entry = title_metadata.content_chunk_entries@[spec_select(
                        selector.method,
                        title_metadata.content_chunk_entries@,
                    ).unwrap()];
                    if entry.size == 0 || entry.size > usize::MAX {
                        result is Err && result->Err_0 == InstallableWadError::IoError(
                            StreamError::InvalidInput,
                        )
                    } else {
                        match ticket.spec_title_key() {
                            None => result is Err && result->Err_0
                                == InstallableWadError::TicketError(
                                PreSwitchTicketError::CommonKeyError(
                                    CommonKeyKindError::UnknownCommonKeyIndex(
                                        ticket.common_key_kind_index,
                                    ),
                                ),
                            ),
                            Some(title_key) => {
                                &&& result is Ok
                                &&& result->Ok_0.wf()
                                &&& result->Ok_0.key() == title_key
                                &&& result->Ok_0.iv() == spec_content_iv(entry.index)
                                &&& result->Ok_0.stream().inner().same_content(&stream)
                                &&& result->Ok_0.stream().inner().pos() == offset
                                &&& result->Ok_0.stream().start() == offset
                                &&& result->Ok_0.stream().length() == entry.size
                            },
                        }
                    }
                },
            },
    {
        let content_view = match self.encrypted_content_view(stream, title_metadata, selector) {
            Ok(content_view) => content_view,
            Err(error) => return Err(error),
        };
        match ticket.cryptographic_stream(
            content_view,
            title_metadata,
            selector,
            cryptographic_method,
        ) {
            Ok(stream) => Ok(stream),
            Err(error) => Err(InstallableWadError::TicketError(error)),
        }
    }

    /// Get a builder to modify the contents stored in the WAD, without any
    /// setting.
    pub fn modify_content<'c>(&self) -> (builder: ModifyContentBuilder<'c>)
        ensures
            builder.new_id is None,
            builder.new_index is None,
            builder.new_kind is None,
            builder.ticket is None,
            builder.cryptographic_method is None,
            !builder.trim_if_is_file,
    {
        ModifyContentBuilder {
            new_id: None,
            new_index: None,
            new_kind: None,
            ticket: None,
            cryptographic_method: None,
            trim_if_is_file: false,
        }
    }

    /// What `sync_wad_header_content_size` leaves: the header holds the sum
    /// of the sizes of the contents, which has to fit 32 bits.
    pub open spec fn spec_sync(self, state: StreamState, entries: Seq<TitleMetadataContentEntry>) -> Result<
        (StreamState, InstallableWad),
        InstallableWadError,
    > {
        let total = spec_sizes(entries, entries.len() as int);
        if total > u32::MAX {
            Err(InstallableWadError::IoError(StreamError::InvalidInput))
        } else {
            let wad = InstallableWad { content_size: total as u32, ..self };
            match wad.spec_write_header(state) {
                Err(error) => Err(InstallableWadError::IoError(error)),
                Ok(written) => Ok((written, wad)),
            }
        }
    }

    /// The contents behind the physical position `position`, as a removal
    /// or a replacement there keeps them.
    pub open spec fn spec_trailing(
        self,
        bytes: Seq<u8>,
        entries: Seq<TitleMetadataContentEntry>,
        position: int,
    ) -> Result<Seq<Seq<u8>>, InstallableWadError> {
        if position + 1 >= entries.len() {
            Ok(Seq::empty())
        } else if !self.spec_layout_fits(entries) {
            Err(InstallableWadError::IoError(StreamError::InvalidSeek))
        } else {
            Ok(self.spec_store(bytes, entries, position + 1))
        }
    }
}

/// What an optional store holds.
pub open spec fn store_view(store: Option<ContentsStore>) -> Seq<Seq<u8>> {
    match store {
        None => Seq::empty(),
        Some(store) => contents_view(store.contents@),
    }
}

impl<'c> ModifyContentBuilder<'c> {
    /// Set the ticket whose title key encrypts the content, and the
    /// cryptographic method. `add` and `replace` need both.
    pub fn set_cryptography(
        self,
        ticket: &'c PreSwitchTicket,
        crytographic_method: CryptographicMethod,
    ) -> (builder: Self)
        ensures
            builder == (ModifyContentBuilder {
                ticket: Some(ticket),
                cryptographic_method: Some(crytographic_method),
                ..self
            }),
    {
        ModifyContentBuilder {
            ticket: Some(ticket),
            cryptographic_method: Some(crytographic_method),
            ..self
        }
    }

    /// Set the ID of the content. `add` needs it; `replace` keeps the ID
    /// without it.
    pub fn set_id(self, id: u32) -> (builder: Self)
        ensures
            builder == (ModifyContentBuilder { new_id: Some(id), ..self }),
    {
        ModifyContentBuilder { new_id: Some(id), ..self }
    }

    /// Set the index of the content. `add` needs it; `replace` keeps the
    /// index without it.
    pub fn set_index(self, index: u16) -> (builder: Self)
        ensures
            builder == (ModifyContentBuilder { new_index: Some(index), ..self }),
    {
        ModifyContentBuilder { new_index: Some(index), ..self }
    }

    /// Set the kind of the content. `add` needs it; `replace` keeps the
    /// kind without it.
    pub fn set_kind(self, kind: TitleMetadataContentEntryKind) -> (builder: Self)
        ensures
            builder == (ModifyContentBuilder { new_kind: Some(kind), ..self }),
    {
        ModifyContentBuilder { new_kind: Some(kind), ..self }
    }

    /// Set whether `remove` cuts the stream behind the last content.
    pub fn trim_if_file(self, flag: bool) -> (builder: Self)
        ensures
            builder == (ModifyContentBuilder { trim_if_is_file: flag, ..self }),
    {
        ModifyContentBuilder { trim_if_is_file: flag, ..self }
    }

    /// Write the sum of the sizes of the contents into the header of the
    /// WAD. A sum that does not fit 32 bits is refused.
    pub fn sync_wad_header_content_size(
        wad: &mut InstallableWad,
        stream: &mut Stream,
        title_metadata: &TitleMetadata,
    ) -> (result: Result<(), InstallableWadError>)
        requires
            old(stream).wf(),
        ensures
            final(stream).wf(),
            match old(wad).spec_sync(old(stream).state(), title_metadata.content_chunk_entries@) {
                Ok((state, synced)) => {
                    &&& result is Ok
                    &&& final(stream).state() == state
                    &&& *final(wad) == synced
                },
                Err(error) => {
                    &&& result == Err::<(), InstallableWadError>(error)
                    &&& *final(wad) == *old(wad)
                },
            },
    {
        let total = match total_content_size(title_metadata) {
            Some(total) => total,
            None => return Err(InstallableWadError::IoError(StreamError::InvalidInput)),
        };
        let synced = InstallableWad { content_size: total, ..*wad };
        stream.rewind();
        match synced.dump(stream) {
            Ok(()) => {},
            Err(error) => return Err(InstallableWadError::IoError(error)),
        }
        *wad = synced;
        Ok(())
    }
}

/// The sum of the sizes of the contents, where it fits 32 bits.
pub fn total_content_size(title_metadata: &TitleMetadata) -> (total: Option<u32>)
    ensures
        match total {
            Some(total) => total == spec_sizes(
                title_metadata.content_chunk_entries@,
                title_metadata.content_chunk_entries@.len() as int,
            ),
            None => spec_sizes(
                title_metadata.content_chunk_entries@,
                title_metadata.content_chunk_entries@.len() as int,
            ) > u32::MAX,
        },
{
    let ghost entries = title_metadata.content_chunk_entries@;
    let mut total: u64 = 0;
    let mut i: usize = 0;
    while i < title_metadata.content_chunk_entries.len()
        invariant
            i <= entries.len(),
            entries == title_metadata.content_chunk_entries@,
            total == spec_sizes(entries, i as int),
            total <= u32::MAX,
        decreases entries.len() - i,
    {
        let size = title_metadata.content_chunk_entries[i].size;
        if size > u32::MAX as u64 || total + size > u32::MAX as u64 {
            proof {
                lemma_sizes_grow(entries, i as int + 1, entries.len() as int);
            }
            return None;
        }
        total = total + size;
        i += 1;
    }
    Some(total as u32)
}

/// The sizes of more contents add up to no less.
pub proof fn lemma_sizes_grow(entries: Seq<TitleMetadataContentEntry>, count: int, more: int)
    requires
        0 <= count <= more <= entries.len(),
    ensures
        spec_sizes(entries, count) <= spec_sizes(entries, more),
    decreases more - count,
{
    if count < more {
        lemma_sizes_grow(entries, count, more - 1);
    }
}

impl<'c> ModifyContentBuilder<'c> {
    /// The ticket of the builder, where it has one and a cryptographic
    /// method.
    pub open spec fn spec_cryptography(self) -> Option<PreSwitchTicket> {
        if self.ticket is Some && self.cryptographic_method is Some {
            Some(*self.ticket.unwrap())
        } else {
            None
        }
    }

    /// The entry of a content that `add` appends: the ID, the index and the
    /// kind of the builder, the size of the plaintext and its hash.
    pub open spec fn spec_new_entry(self, version_1: bool, data: Seq<u8>) -> TitleMetadataContentEntry {
        TitleMetadataContentEntry {
            id: self.new_id.unwrap(),
            index: self.new_index.unwrap(),
            kind: self.new_kind.unwrap(),
            size: data.len() as u64,
            hash: spec_content_hash(version_1, data),
        }
    }

    /// The entry of a content that `replace` leaves: the size of the new
    /// plaintext and its hash, and the ID, the index and the kind of the
    /// builder where it has them.
    pub open spec fn spec_replaced_entry(
        self,
        entry: TitleMetadataContentEntry,
        version_1: bool,
        data: Seq<u8>,
    ) -> TitleMetadataContentEntry {
        TitleMetadataContentEntry {
            id: match self.new_id {
                Some(id) => id,
                None => entry.id,
            },
            index: match self.new_index {
                Some(index) => index,
                None => entry.index,
            },
            kind: match self.new_kind {
                Some(kind) => kind,
                None => entry.kind,
            },
            size: data.len() as u64,
            hash: spec_content_hash(version_1, data),
        }
    }

    /// What `add` leaves of the stream, the WAD and the title metadata, or
    /// why it fails. In this order: the builder has to hold an ID, an
    /// index, a kind, and a ticket with a cryptographic method; the title
    /// metadata has to have room for one more entry; the offset behind the
    /// last content has to fit 64 bits. The entry is appended, the
    /// plaintext is encrypted and written behind the last content, the
    /// title metadata is written safely, and the header takes the new sum
    /// of the sizes.
    pub open spec fn spec_add(
        self,
        wad: InstallableWad,
        state: StreamState,
        data: Seq<u8>,
        title_metadata: TitleMetadataView,
    ) -> Result<(StreamState, InstallableWad, TitleMetadataView), InstallableWadError> {
        let entries = title_metadata.content_chunk_entries;
        if self.new_id is None {
            Err(InstallableWadError::ModifyContentMissingSetting(ModifyContentSetting::Id))
        } else if self.new_index is None {
            Err(InstallableWadError::ModifyContentMissingSetting(ModifyContentSetting::Index))
        } else if self.new_kind is None {
            Err(InstallableWadError::ModifyContentMissingSetting(ModifyContentSetting::Kind))
        } else if self.spec_cryptography() is None {
            Err(
                InstallableWadError::ModifyContentMissingSetting(
                    ModifyContentSetting::Cryptography,
                ),
            )
        } else if entries.len() >= MAX_CONTENT_ENTRIES {
            Err(InstallableWadError::IoError(StreamError::InvalidInput))
        } else if wad.spec_content_offset(entries, entries.len() as int) > u64::MAX {
            Err(InstallableWadError::IoError(StreamError::InvalidSeek))
        } else {
            let entry = self.spec_new_entry(title_metadata.spec_is_version_1(), data);
            let added = with_entries(title_metadata, entries.push(entry));
            match spec_encrypt_content(self.spec_cryptography().unwrap(), entry.index, data) {
                Err(error) => Err(error),
                Ok(cipher) => match state.at(
                    wad.spec_content_offset(entries, entries.len() as int),
                ).write_all(cipher) {
                    Err(error) => Err(InstallableWadError::IoError(error)),
                    Ok(written) => match wad.spec_write_title_metadata_safe(written, added) {
                        Err(error) => Err(error),
                        Ok((placed, sized)) => match sized.spec_sync(
                            placed,
                            added.content_chunk_entries,
                        ) {
                            Err(error) => Err(error),
                            Ok((synced, result)) => Ok((synced, result, added)),
                        },
                    },
                },
            }
        }
    }

    /// What `remove` leaves of the stream, the WAD and the title metadata,
    /// or why it fails. The selector has to stand for a content. The
    /// contents behind it are kept, its entry is removed, the title
    /// metadata is written safely, the contents that were kept are written
    /// at their new offsets, the stream is cut behind the last content
    /// where the builder says so, and the header takes the new sum of the
    /// sizes.
    pub open spec fn spec_remove(
        self,
        wad: InstallableWad,
        state: StreamState,
        method: ContentSelectorMethod,
        title_metadata: TitleMetadataView,
    ) -> Result<(StreamState, InstallableWad, TitleMetadataView), InstallableWadError> {
        let entries = title_metadata.content_chunk_entries;
        match spec_select(method, entries) {
            None => Err(
                InstallableWadError::TitleMetadataError(TitleMetadataError::ContentNotFound()),
            ),
            Some(position) => match wad.spec_trailing(state.bytes, entries, position) {
                Err(error) => Err(error),
                Ok(trailing) => {
                    let removed = with_entries(title_metadata, entries.remove(position));
                    match wad.spec_write_title_metadata_safe(state, removed) {
                        Err(error) => Err(error),
                        Ok((placed, sized)) => match sized.spec_restore_contents(
                            placed,
                            removed.content_chunk_entries,
                            position,
                            trailing,
                        ) {
                            Err(error) => Err(InstallableWadError::IoError(error)),
                            Ok(restored) => match if self.trim_if_is_file {
                                spec_trim(
                                    restored,
                                    sized.spec_logical_size(removed.content_chunk_entries),
                                )
                            } else {
                                Ok(restored)
                            } {
                                Err(error) => Err(error),
                                Ok(trimmed) => match sized.spec_sync(
                                    trimmed,
                                    removed.content_chunk_entries,
                                ) {
                                    Err(error) => Err(error),
                                    Ok((synced, result)) => Ok((synced, result, removed)),
                                },
                            },
                        },
                    }
                },
            },
        }
    }

    /// What `replace` leaves of the stream, the WAD and the title metadata,
    /// or why it fails. The builder has to hold a ticket with a
    /// cryptographic method, and the selector has to stand for a content.
    /// The contents behind it are kept, its entry takes the size and the
    /// hash of the new plaintext, the title metadata is written safely, the
    /// new plaintext is encrypted and written at the offset of the content
    /// with zeros up to the boundary, the contents that were kept are
    /// written behind it, and the header takes the new sum of the sizes.
    pub open spec fn spec_replace(
        self,
        wad: InstallableWad,
        state: StreamState,
        data: Seq<u8>,
        method: ContentSelectorMethod,
        title_metadata: TitleMetadataView,
    ) -> Result<(StreamState, InstallableWad, TitleMetadataView), InstallableWadError> {
        let entries = title_metadata.content_chunk_entries;
        if self.spec_cryptography() is None {
            Err(
                InstallableWadError::ModifyContentMissingSetting(
                    ModifyContentSetting::Cryptography,
                ),
            )
        } else {
            match spec_select(method, entries) {
                None => Err(
                    InstallableWadError::TitleMetadataError(TitleMetadataError::ContentNotFound()),
                ),
                Some(position) => match wad.spec_trailing(state.bytes, entries, position) {
                    Err(error) => Err(error),
                    Ok(trailing) => {
                        let entry = self.spec_replaced_entry(
                            entries[position],
                            title_metadata.spec_is_version_1(),
                            data,
                        );
                        let replaced = with_entries(
                            title_metadata,
                            entries.update(position, entry),
                        );
                        match wad.spec_write_title_metadata_safe(state, replaced) {
                            Err(error) => Err(error),
                            Ok((placed, sized)) => sized.spec_replace_content(
                                placed,
                                self.spec_cryptography().unwrap(),
                                data,
                                position,
                                replaced,
                                trailing,
                            ),
                        }
                    },
                },
            }
        }
    }
}

impl InstallableWad {
    /// The second half of `spec_replace`, behind the safe write of the
    /// title metadata: the new ciphertext at the offset of the content, the
    /// contents that were kept behind it, and the new sum of the sizes in
    /// the header.
    pub open spec fn spec_replace_content(
        self,
        state: StreamState,
        ticket: PreSwitchTicket,
        data: Seq<u8>,
        position: int,
        title_metadata: TitleMetadataView,
        trailing: Seq<Seq<u8>>,
    ) -> Result<(StreamState, InstallableWad, TitleMetadataView), InstallableWadError> {
        let entries = title_metadata.content_chunk_entries;
        if self.spec_content_offset(entries, position) > u64::MAX {
            Err(InstallableWadError::IoError(StreamError::InvalidSeek))
        } else {
            match spec_encrypt_content(ticket, entries[position].index, data) {
                Err(error) => Err(error),
                Ok(cipher) => match Self::spec_write_section(
                    state,
                    self.spec_content_offset(entries, position),
                    cipher,
                ) {
                    Err(error) => Err(InstallableWadError::IoError(error)),
                    Ok(written) => match self.spec_restore_contents(
                        written,
                        entries,
                        position + 1,
                        trailing,
                    ) {
                        Err(error) => Err(InstallableWadError::IoError(error)),
                        Ok(restored) => match self.spec_sync(restored, entries) {
                            Err(error) => Err(error),
                            Ok((synced, result)) => Ok((synced, result, title_metadata)),
                        },
                    },
                },
            }
        }
    }

    /// Keep the contents behind the physical position `position`.
    fn store_trailing(
        &self,
        stream: &mut Stream,
        title_metadata: &TitleMetadata,
        position: usize,
    ) -> (result: Result<Option<ContentsStore>, InstallableWadError>)
        requires
            old(stream).wf(),
            position < title_metadata.content_chunk_entries@.len(),
        ensures
            final(stream).same_content(old(stream)),
            match self.spec_trailing(
                old(stream).bytes(),
                title_metadata.content_chunk_entries@,
                position as int,
            ) {
                Ok(trailing) => {
                    &&& result is Ok
                    &&& store_view(result->Ok_0) == trailing
                    &&& result->Ok_0 is Some ==> result->Ok_0->Some_0.first_content_physical_position
                        == position + 1
                },
                Err(error) => result == Err::<Option<ContentsStore>, InstallableWadError>(error),
            },
    {
        let _len = title_metadata.content_chunk_entries.len();
        self.store_contents(stream, title_metadata, position + 1)
    }

    /// Encrypt the new plaintext of the content at `position`, write it at
    /// the offset of the content with zeros up to the boundary, write the
    /// contents that were kept behind it, and bring the header up to date.
    fn replace_content(
        &mut self,
        stream: &mut Stream,
        ticket: &PreSwitchTicket,
        cryptographic_method: CryptographicMethod,
        new_data: &[u8],
        position: usize,
        title_metadata: &TitleMetadata,
        contents: &Option<ContentsStore>,
    ) -> (result: Result<(), InstallableWadError>)
        requires
            old(stream).wf(),
            position < title_metadata.content_chunk_entries@.len(),
            contents is Some ==> contents->Some_0.first_content_physical_position == position + 1,
        ensures
            final(stream).wf(),
            match old(self).spec_replace_content(
                old(stream).state(),
                *ticket,
                new_data@,
                position as int,
                title_metadata@,
                store_view(*contents),
            ) {
                Ok((state, wad, _)) => {
                    &&& result is Ok
                    &&& final(stream).state() == state
                    &&& *final(self) == wad
                },
                Err(error) => result == Err::<(), InstallableWadError>(error),
            },
    {
        let offset = match self.content_offset(title_metadata, position) {
            Some(offset) => offset,
            None => return Err(InstallableWadError::IoError(StreamError::InvalidSeek)),
        };
        let index = title_metadata.content_chunk_entries[position].index;
        let cipher = match encrypt_content(ticket, cryptographic_method, index, new_data) {
            Ok(cipher) => cipher,
            Err(error) => return Err(error),
        };
        match Self::write_section(stream, offset, &cipher) {
            Ok(()) => {},
            Err(error) => return Err(InstallableWadError::IoError(error)),
        }
        match self.restore_contents(stream, title_metadata, contents) {
            Ok(()) => {},
            Err(error) => return Err(error),
        }
        ModifyContentBuilder::sync_wad_header_content_size(self, stream, title_metadata)
    }
}

impl<'c> ModifyContentBuilder<'c> {
    /// The ticket and the cryptographic method of the builder.
    fn cryptography(&self) -> (result: Result<
        (&'c PreSwitchTicket, CryptographicMethod),
        InstallableWadError,
    >)
        ensures
            match self.spec_cryptography() {
                Some(ticket) => result is Ok && *result->Ok_0.0 == ticket,
                None => result is Err && result->Err_0
                    == InstallableWadError::ModifyContentMissingSetting(
                    ModifyContentSetting::Cryptography,
                ),
            },
    {
        let ticket = match self.ticket {
            Some(ticket) => ticket,
            None => return Err(
                InstallableWadError::ModifyContentMissingSetting(
                    ModifyContentSetting::Cryptography,
                ),
            ),
        };
        let cryptographic_method = match self.cryptographic_method {
            Some(cryptographic_method) => cryptographic_method,
            None => return Err(
                InstallableWadError::ModifyContentMissingSetting(
                    ModifyContentSetting::Cryptography,
                ),
            ),
        };
        Ok((ticket, cryptographic_method))
    }

    /// Add a content behind the last one: `new_data` is its plaintext, a
    /// whole number of blocks of 16 bytes. The title metadata gets its
    /// entry.
    #[verifier::rlimit(50)]
    pub fn add(
        &self,
        wad: &mut InstallableWad,
        stream: &mut Stream,
        new_data: &[u8],
        title_metadata: &mut TitleMetadata,
    ) -> (result: Result<(), InstallableWadError>)
        requires
            old(stream).wf(),
            old(title_metadata).wf(),
        ensures
            final(stream).wf(),
            match self.spec_add(*old(wad), old(stream).state(), new_data@, old(title_metadata)@) {
                Ok((state, added_wad, added)) => {
                    &&& result is Ok
                    &&& final(stream).state() == state
                    &&& *final(wad) == added_wad
                    &&& final(title_metadata)@ == added
                    &&& final(title_metadata).wf()
                },
                Err(error) => result == Err::<(), InstallableWadError>(error),
            },
    {
        let id = match self.new_id {
            Some(id) => id,
            None => return Err(
                InstallableWadError::ModifyContentMissingSetting(ModifyContentSetting::Id),
            ),
        };
        let index = match self.new_index {
            Some(index) => index,
            None => return Err(
                InstallableWadError::ModifyContentMissingSetting(ModifyContentSetting::Index),
            ),
        };
        let kind = match self.new_kind {
            Some(kind) => kind,
            None => return Err(
                InstallableWadError::ModifyContentMissingSetting(ModifyContentSetting::Kind),
            ),
        };
        let (ticket, cryptographic_method) = match self.cryptography() {
            Ok(cryptography) => cryptography,
            Err(error) => return Err(error),
        };
        let count = title_metadata.content_chunk_entries.len();
        if count >= MAX_CONTENT_ENTRIES {
            return Err(InstallableWadError::IoError(StreamError::InvalidInput));
        }
        let offset = match wad.content_offset(title_metadata, count) {
            Some(offset) => offset,
            None => return Err(InstallableWadError::IoError(StreamError::InvalidSeek)),
        };
        let version_1 = title_metadata.version_1_extension.is_some();
        let entry = TitleMetadataContentEntry {
            id,
            index,
            kind,
            hash: content_hash(version_1, new_data),
            size: new_data.len() as u64,
        };
        let ghost before = title_metadata@;
        title_metadata.content_chunk_entries.push(entry);
        proof {
            assert(title_metadata@ == with_entries(
                before,
                before.content_chunk_entries.push(entry),
            ));
            assert(title_metadata.wf());
        }
        let cipher = match encrypt_content(ticket, cryptographic_method, index, new_data) {
            Ok(cipher) => cipher,
            Err(error) => return Err(error),
        };
        stream.seek_to(offset);
        match stream.write_all(cipher.as_slice()) {
            Ok(()) => {},
            Err(error) => return Err(InstallableWadError::IoError(error)),
        }
        match wad.write_title_metadata_safe(stream, title_metadata) {
            Ok(()) => {},
            Err(error) => return Err(error),
        }
        Self::sync_wad_header_content_size(wad, stream, title_metadata)
    }

    /// Remove the selected content: its entry leaves the title metadata,
    /// and the contents behind it move up.
    #[verifier::rlimit(50)]
    pub fn remove(
        &self,
        wad: &mut InstallableWad,
        stream: &mut Stream,
        content_selector: ContentSelector,
        title_metadata: &mut TitleMetadata,
    ) -> (result: Result<(), InstallableWadError>)
        requires
            old(stream).wf(),
            old(title_metadata).wf(),
        ensures
            final(stream).wf(),
            match self.spec_remove(
                *old(wad),
                old(stream).state(),
                content_selector.method,
                old(title_metadata)@,
            ) {
                Ok((state, removed_wad, removed)) => {
                    &&& result is Ok
                    &&& final(stream).state() == state
                    &&& *final(wad) == removed_wad
                    &&& final(title_metadata)@ == removed
                    &&& final(title_metadata).wf()
                },
                Err(error) => result == Err::<(), InstallableWadError>(error),
            },
    {
        let physical_position = match content_selector.physical_position(title_metadata) {
            Ok(physical_position) => physical_position,
            Err(error) => return Err(InstallableWadError::TitleMetadataError(error)),
        };
        let contents = match wad.store_trailing(stream, title_metadata, physical_position) {
            Ok(Some(store)) => Some(
                ContentsStore {
                    contents: store.contents,
                    first_content_physical_position: physical_position,
                },
            ),
            Ok(None) => None,
            Err(error) => return Err(error),
        };
        let ghost before = title_metadata@;
        title_metadata.content_chunk_entries.remove(physical_position);
        proof {
            assert(title_metadata@ == with_entries(
                before,
                before.content_chunk_entries.remove(physical_position as int),
            ));
            assert(title_metadata.wf());
        }
        match wad.write_title_metadata_safe(stream, title_metadata) {
            Ok(()) => {},
            Err(error) => return Err(error),
        }
        match wad.restore_contents(stream, title_metadata, &contents) {
            Ok(()) => {},
            Err(error) => return Err(error),
        }
        if self.trim_if_is_file {
            match wad.trim(stream, title_metadata) {
                Ok(()) => {},
                Err(error) => return Err(error),
            }
        }
        Self::sync_wad_header_content_size(wad, stream, title_metadata)
    }

    /// Replace the selected content: `new_data` is its new plaintext, a
    /// whole number of blocks of 16 bytes. Its entry takes the new size and
    /// hash, and the ID, the index and the kind of the builder where it has
    /// them.
    #[verifier::rlimit(50)]
    pub fn replace(
        &self,
        wad: &mut InstallableWad,
        stream: &mut Stream,
        new_data: &[u8],
        content_selector: ContentSelector,
        title_metadata: &mut TitleMetadata,
    ) -> (result: Result<(), InstallableWadError>)
        requires
            old(stream).wf(),
            old(title_metadata).wf(),
        ensures
            final(stream).wf(),
            match self.spec_replace(
                *old(wad),
                old(stream).state(),
                new_data@,
                content_selector.method,
                old(title_metadata)@,
            ) {
                Ok((state, replaced_wad, replaced)) => {
                    &&& result is Ok
                    &&& final(stream).state() == state
                    &&& *final(wad) == replaced_wad
                    &&& final(title_metadata)@ == replaced
                    &&& final(title_metadata).wf()
                },
                Err(error) => result == Err::<(), InstallableWadError>(error),
            },
    {
        let (ticket, cryptographic_method) = match self.cryptography() {
            Ok(cryptography) => cryptography,
            Err(error) => return Err(error),
        };
        let physical_position = match content_selector.physical_position(title_metadata) {
            Ok(physical_position) => physical_position,
            Err(error) => return Err(InstallableWadError::TitleMetadataError(error)),
        };
        let contents = match wad.store_trailing(stream, title_metadata, physical_position) {
            Ok(contents) => contents,
            Err(error) => return Err(error),
        };
        let version_1 = title_metadata.version_1_extension.is_some();
        let old_entry = title_metadata.content_chunk_entries[physical_position];
        let entry = TitleMetadataContentEntry {
            id: match self.new_id {
                Some(id) => id,
                None => old_entry.id,
            },
            index: match self.new_index {
                Some(index) => index,
                None => old_entry.index,
            },
            kind: match self.new_kind {
                Some(kind) => kind,
                None => old_entry.kind,
            },
            hash: content_hash(version_1, new_data),
            size: new_data.len() as u64,
        };
        let ghost before = title_metadata@;
        title_metadata.content_chunk_entries.set(physical_position, entry);
        proof {
            assert(title_metadata@ == with_entries(
                before,
                before.content_chunk_entries.update(physical_position as int, entry),
            ));
            assert(title_metadata.wf());
        }
        match wad.write_title_metadata_safe(stream, title_metadata) {
            Ok(()) => {},
            Err(error) => return Err(error),
        }
        wad.replace_content(
            stream,
            ticket,
            cryptographic_method,
            new_data,
            physical_position,
            title_metadata,
            &contents,
        )
    }
}

} // verus!
