//! The title metadata of an installable WAD.

use vstd::prelude::*;
use crate::certificate_chain::{
    spec_chain_parse, CertificateChain, CertificateChainError, CertificateView,
};
use crate::stream::{Stream, StreamError, StreamState};
use crate::stream_view::StreamView;
use crate::ticket::{PreSwitchTicket, PreSwitchTicketError, PreSwitchTicketView};
use crate::title_metadata::{
    TitleMetadata, TitleMetadataContentEntry, TitleMetadataError, TitleMetadataView,
};
use crate::wad::installable::{
    InstallableWad, InstallableWadError, WadSection, NUMBER_OF_CERTIFICATES_STORED,
};

verus! {

impl InstallableWad {
    /// What a safe write of the title metadata leaves: the contents are
    /// read where the sizes of the WAD and the entries of the new title
    /// metadata place them, the title metadata is written raw, and the
    /// contents are written back behind it, each on the boundary.
    pub open spec fn spec_write_title_metadata_safe(
        self,
        state: StreamState,
        title_metadata: TitleMetadataView,
    ) -> Result<(StreamState, InstallableWad), InstallableWadError> {
        let entries = title_metadata.content_chunk_entries;
        match self.spec_kept(state.bytes, entries) {
            Err(error) => Err(error),
            Ok(kept) => match self.spec_raw(
                state,
                WadSection::TitleMetadata,
                title_metadata.spec_serialize(),
            ) {
                Err(error) => Err(
                    InstallableWadError::TitleMetadataError(TitleMetadataError::IoError(error)),
                ),
                Ok((written, wad)) => wad.spec_put_back(written, entries, kept),
            },
        }
    }

    /// Seek the stream of the WAD to the start of the title metadata.
    pub fn seek_title_metadata(&self, stream: &mut Stream) -> (result: Result<
        (),
        TitleMetadataError,
    >)
        ensures
            result is Ok,
            final(stream).same_content(old(stream)),
            final(stream).pos() == self.spec_title_metadata_offset(),
    {
        stream.seek_to(self.section_offset(WadSection::TitleMetadata));
        Ok(())
    }

    /// Create a view into the title metadata stored inside the WAD stream,
    /// which has to have a size above zero.
    pub fn title_metadata_view(&self, stream: Stream) -> (result: Result<
        StreamView,
        TitleMetadataError,
    >)
        requires
            stream.wf(),
            self.title_metadata_size > 0,
        ensures
            result is Ok,
            result->Ok_0.wf(),
            result->Ok_0.inner().same_content(&stream),
            result->Ok_0.inner().pos() == self.spec_title_metadata_offset(),
            result->Ok_0.start() == self.spec_title_metadata_offset(),
            result->Ok_0.length() == self.title_metadata_size,
    {
        let mut stream = stream;
        stream.seek_to(self.section_offset(WadSection::TitleMetadata));
        match StreamView::new(stream, self.title_metadata_size as usize) {
            Ok(view) => Ok(view),
            Err(error) => Err(TitleMetadataError::IoError(error)),
        }
    }

    /// Parse the title metadata stored inside the WAD stream.
    pub fn title_metadata(&self, stream: &mut Stream) -> (result: Result<
        TitleMetadata,
        TitleMetadataError,
    >)
        requires
            old(stream).wf(),
        ensures
            final(stream).same_content(old(stream)),
            match TitleMetadataView::spec_parse(
                old(stream).bytes(),
                self.spec_title_metadata_offset(),
            ) {
                Ok((title_metadata, end)) => {
                    &&& result is Ok
                    &&& result->Ok_0@ == title_metadata
                    &&& final(stream).pos() == end
                },
                Err(error) => result == Err::<TitleMetadata, TitleMetadataError>(error),
            },
    {
        stream.seek_to(self.section_offset(WadSection::TitleMetadata));
        TitleMetadata::new(stream)
    }

    /// Write a new title metadata into the stream of a WAD, and its size
    /// into the header. The contents behind the title metadata are left as
    /// they are: where the new title metadata has another size they are
    /// overwritten or no longer where the header places them.
    /// [Self::write_title_metadata_safe] avoids that.
    pub fn write_title_metadata_raw(
        &mut self,
        new_title_metadata: &TitleMetadata,
        stream: &mut Stream,
    ) -> (result: Result<(), TitleMetadataError>)
        requires
            old(stream).wf(),
            new_title_metadata.wf(),
        ensures
            final(stream).wf(),
            match old(self).spec_raw(
                old(stream).state(),
                WadSection::TitleMetadata,
                new_title_metadata@.spec_serialize(),
            ) {
                Ok((state, wad)) => {
                    &&& result is Ok
                    &&& final(stream).state() == state
                    &&& *final(self) == wad
                    &&& wad.title_metadata_size == new_title_metadata@.spec_size()
                },
                Err(error) => {
                    &&& result == Err::<(), TitleMetadataError>(TitleMetadataError::IoError(error))
                    &&& *final(self) == *old(self)
                },
            },
    {
        let mut image: Vec<u8> = Vec::new();
        new_title_metadata.serialize_into(&mut image);
        assert(image@ =~= new_title_metadata@.spec_serialize());
        proof {
            new_title_metadata@.signed_blob_header.lemma_size();
        }
        match self.write_raw(stream, WadSection::TitleMetadata, &image) {
            Ok(()) => Ok(()),
            Err(error) => Err(TitleMetadataError::IoError(error)),
        }
    }

    /// Like [Self::write_title_metadata_raw] but keeps the contents: they
    /// are read into memory before the title metadata is written and
    /// written back behind it, each on the boundary.
    ///
    /// The contents are read where the entries of the new title metadata
    /// place them, so its entries have to describe the contents that the
    /// WAD holds.
    pub fn write_title_metadata_safe(
        &mut self,
        stream: &mut Stream,
        new_title_metadata: &TitleMetadata,
    ) -> (result: Result<(), InstallableWadError>)
        requires
            old(stream).wf(),
            new_title_metadata.wf(),
        ensures
            final(stream).wf(),
            match old(self).spec_write_title_metadata_safe(
                old(stream).state(),
                new_title_metadata@,
            ) {
                Ok((state, wad)) => {
                    &&& result is Ok
                    &&& final(stream).state() == state
                    &&& *final(self) == wad
                },
                Err(error) => result == Err::<(), InstallableWadError>(error),
            },
    {
        let contents = match self.store_contents(stream, new_title_metadata, 0) {
            Ok(contents) => contents,
            Err(error) => return Err(error),
        };
        match self.write_title_metadata_raw(new_title_metadata, stream) {
            Ok(()) => {},
            Err(error) => return Err(InstallableWadError::TitleMetadataError(error)),
        }
        self.restore_contents(stream, new_title_metadata, &contents)
    }

    /// Like [Self::write_title_metadata_safe] but also cuts the stream
    /// behind the last content.
    pub fn write_title_metadata_safe_file(
        &mut self,
        stream: &mut Stream,
        new_title_metadata: &TitleMetadata,
    ) -> (result: Result<(), InstallableWadError>)
        requires
            old(stream).wf(),
            new_title_metadata.wf(),
        ensures
            final(stream).wf(),
            match old(self).spec_write_title_metadata_safe(
                old(stream).state(),
                new_title_metadata@,
            ) {
                Ok((state, wad)) => {
                    &&& *final(self) == wad
                    &&& crate::wad::installable::trimmed(
                        state,
                        wad.spec_logical_size(new_title_metadata@.content_chunk_entries),
                        final(stream).state(),
                        result,
                    )
                },
                Err(error) => result == Err::<(), InstallableWadError>(error),
            },
    {
        match self.write_title_metadata_safe(stream, new_title_metadata) {
            Ok(()) => {},
            Err(error) => return Err(error),
        }
        self.trim(stream, new_title_metadata)
    }
}

} // verus!
