//! The selector of a content entry of a title metadata.

use vstd::prelude::*;
use crate::title_metadata::{TitleMetadata, TitleMetadataContentEntry, TitleMetadataError};

verus! {

/// Lazy evaluated selector of a content, made by the `select_` methods of a
/// title metadata.
#[derive(Debug, Clone, Copy, PartialEq, Eq, Structural)]
pub struct ContentSelector {
    /// How the content is selected.
    pub method: ContentSelectorMethod,
}

/// The ways to select a content.
#[derive(Debug, Clone, Copy, PartialEq, Eq, Structural)]
pub enum ContentSelectorMethod {
    /// By its place among the content entries.
    WithPhysicalPosition(usize),
    /// The first with the given index.
    WithIndex(u16),
    /// The first with the given ID.
    WithId(u32),
    /// The last content entry.
    Last,
}

/// Whether a method selects an entry by what the entry holds.
pub open spec fn entry_matches(method: ContentSelectorMethod, entry: TitleMetadataContentEntry) -> bool {
    match method {
        ContentSelectorMethod::WithIndex(index) => entry.index == index,
        ContentSelectorMethod::WithId(id) => entry.id == id,
        _ => false,
    }
}

/// The position of the first of the entries from `from` on that the method
/// matches, if there is one.
pub open spec fn spec_first_match(
    method: ContentSelectorMethod,
    entries: Seq<TitleMetadataContentEntry>,
    from: int,
) -> Option<int>
    decreases entries.len() - from,
{
    if from < 0 || from >= entries.len() {
        None
    } else if entry_matches(method, entries[from]) {
        Some(from)
    } else {
        spec_first_match(method, entries, from + 1)
    }
}

/// The physical position that a selector stands for among the given entries,
/// if it stands for one.
pub open spec fn spec_select(
    method: ContentSelectorMethod,
    entries: Seq<TitleMetadataContentEntry>,
) -> Option<int> {
    match method {
        ContentSelectorMethod::WithPhysicalPosition(position) => if position < entries.len() {
            Some(position as int)
        } else {
            None
        },
        ContentSelectorMethod::Last => if entries.len() > 0 {
            Some(entries.len() - 1)
        } else {
            None
        },
        _ => spec_first_match(method, entries, 0),
    }
}

/// A first match is a position of an entry that matches, with no match
/// before it; where there is none, no entry matches.
pub proof fn lemma_first_match(
    method: ContentSelectorMethod,
    entries: Seq<TitleMetadataContentEntry>,
    from: int,
)
    requires
        0 <= from <= entries.len(),
    ensures
        match spec_first_match(method, entries, from) {
            Some(position) => {
                &&& from <= position < entries.len()
                &&& entry_matches(method, entries[position])
                &&& forall|i: int| from <= i < position ==> !entry_matches(method, entries[i])
            },
            None => forall|i: int| from <= i < entries.len() ==> !entry_matches(method, entries[i]),
        },
    decreases entries.len() - from,
{
    if from < entries.len() && !entry_matches(method, entries[from]) {
        lemma_first_match(method, entries, from + 1);
    }
}

/// A selector stands for a position among the entries.
pub proof fn lemma_select_in_range(
    method: ContentSelectorMethod,
    entries: Seq<TitleMetadataContentEntry>,
)
    ensures
        spec_select(method, entries) is Some ==> 0 <= spec_select(method, entries).unwrap()
            < entries.len(),
{
    lemma_first_match(method, entries, 0);
}

impl ContentSelector {
    /// The selector of the last content entry, by its physical position.
    pub fn get_last(title_metadata: &TitleMetadata) -> (selector: Self)
        requires
            title_metadata.content_chunk_entries@.len() > 0,
        ensures
            selector.method == ContentSelectorMethod::WithPhysicalPosition(
                (title_metadata.content_chunk_entries@.len() - 1) as usize,
            ),
    {
        ContentSelector {
            method: ContentSelectorMethod::WithPhysicalPosition(
                title_metadata.content_chunk_entries.len() - 1,
            ),
        }
    }

    /// Get the physical position of the selected content entry. Without
    /// an entry that the selector stands for, the content is not found.
    #[verifier::loop_isolation(false)]
    pub fn physical_position(&self, title_metadata: &TitleMetadata) -> (result: Result<
        usize,
        TitleMetadataError,
    >)
        ensures
            match spec_select(self.method, title_metadata.content_chunk_entries@) {
                Some(position) => {
                    &&& result is Ok
                    &&& result.unwrap() == position
                    &&& 0 <= position < title_metadata.content_chunk_entries@.len()
                },
                None => result == Err::<usize, TitleMetadataError>(
                    TitleMetadataError::ContentNotFound(),
                ),
            },
    {
        let entries = &title_metadata.content_chunk_entries;
        proof {
            lemma_select_in_range(self.method, entries@);
        }
        match self.method {
            ContentSelectorMethod::Last => {
                if entries.len() == 0 {
                    return Err(TitleMetadataError::ContentNotFound());
                }
                Ok(entries.len() - 1)
            },
            ContentSelectorMethod::WithPhysicalPosition(position) => {
                if position < entries.len() {
                    Ok(position)
                } else {
                    Err(TitleMetadataError::ContentNotFound())
                }
            },
            ContentSelectorMethod::WithId(id) => {
                let mut i: usize = 0;
                while i < entries.len()
                    invariant
                        i <= entries@.len(),
                        self.method == ContentSelectorMethod::WithId(id),
                        spec_first_match(self.method, entries@, 0) == spec_first_match(
                            self.method,
                            entries@,
                            i as int,
                        ),
                    decreases entries@.len() - i,
                {
                    if entries[i].id == id {
                        return Ok(i);
                    }
                    i += 1;
                }
                Err(TitleMetadataError::ContentNotFound())
            },
            ContentSelectorMethod::WithIndex(index) => {
                let mut i: usize = 0;
                while i < entries.len()
                    invariant
                        i <= entries@.len(),
                        self.method == ContentSelectorMethod::WithIndex(index),
                        spec_first_match(self.method, entries@, 0) == spec_first_match(
                            self.method,
                            entries@,
                            i as int,
                        ),
                    decreases entries@.len() - i,
                {
                    if entries[i].index == index {
                        return Ok(i);
                    }
                    i += 1;
                }
                Err(TitleMetadataError::ContentNotFound())
            },
        }
    }

    /// Get the selected content entry.
    pub fn content_entry(&self, title_metadata: &TitleMetadata) -> (result: Result<
        TitleMetadataContentEntry,
        TitleMetadataError,
    >)
        ensures
            result == match spec_select(self.method, title_metadata.content_chunk_entries@) {
                Some(position) => Ok::<TitleMetadataContentEntry, TitleMetadataError>(
                    title_metadata.content_chunk_entries@[position],
                ),
                None => Err::<TitleMetadataContentEntry, TitleMetadataError>(
                    TitleMetadataError::ContentNotFound(),
                ),
            },
    {
        proof {
            lemma_select_in_range(self.method, title_metadata.content_chunk_entries@);
        }
        match self.physical_position(title_metadata) {
            Ok(position) => {
                Ok(title_metadata.content_chunk_entries[position])
            },
            Err(error) => Err(error),
        }
    }

    /// Get the ID of the selected content entry.
    pub fn id(&self, title_metadata: &TitleMetadata) -> (result: Result<u32, TitleMetadataError>)
        ensures
            result == match spec_select(self.method, title_metadata.content_chunk_entries@) {
                Some(position) => Ok::<u32, TitleMetadataError>(
                    title_metadata.content_chunk_entries@[position].id,
                ),
                None => Err::<u32, TitleMetadataError>(TitleMetadataError::ContentNotFound()),
            },
    {
        match self.content_entry(title_metadata) {
            Ok(entry) => Ok(entry.id),
            Err(error) => Err(error),
        }
    }

    /// Get the index of the selected content entry.
    pub fn index(&self, title_metadata: &TitleMetadata) -> (result: Result<u16, TitleMetadataError>)
        ensures
            result == match spec_select(self.method, title_metadata.content_chunk_entries@) {
                Some(position) => Ok::<u16, TitleMetadataError>(
                    title_metadata.content_chunk_entries@[position].index,
                ),
                None => Err::<u16, TitleMetadataError>(TitleMetadataError::ContentNotFound()),
            },
    {
        match self.content_entry(title_metadata) {
            Ok(entry) => Ok(entry.index),
            Err(error) => Err(error),
        }
    }
}

} // verus!
