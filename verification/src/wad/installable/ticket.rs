//! The ticket of an installable WAD.

use vstd::prelude::*;
use crate::certificate_chain::{
    spec_chain_parse, CertificateChain, CertificateChainError, CertificateView,
};
use crate::stream::{Stream, StreamError, StreamState};
use crate::stream_view::StreamView;
use crate::ticket::{PreSwitchTicket, PreSwitchTicketError, PreSwitchTicketView};
use crate::title_metadata::{
    TitleMetadata, TitleMetadataContentEntry, TitleMetadataError, TitleMetadataView,
};
use crate::wad::installable::{
    InstallableWad, InstallableWadError, WadSection, NUMBER_OF_CERTIFICATES_STORED,
};

verus! {

impl InstallableWad {
    /// What a safe write of the ticket leaves: the contents are read where
    /// the sizes of the WAD and the entries of the title metadata place
    /// them, the ticket and the title metadata are written raw, and the
    /// contents are written back behind them, each on the boundary.
    pub open spec fn spec_write_ticket_safe(
        self,
        state: StreamState,
        ticket: PreSwitchTicketView,
        title_metadata: TitleMetadataView,
    ) -> Result<(StreamState, InstallableWad), InstallableWadError> {
        let entries = title_metadata.content_chunk_entries;
        match self.spec_kept(state.bytes, entries) {
            Err(error) => Err(error),
            Ok(kept) => match self.spec_raw(state, WadSection::Ticket, ticket.spec_serialize()) {
                Err(error) => Err(
                    InstallableWadError::TicketError(PreSwitchTicketError::IoError(error)),
                ),
                Ok((with_ticket, first)) => match first.spec_raw(
                    with_ticket,
                    WadSection::TitleMetadata,
                    title_metadata.spec_serialize(),
                ) {
                    Err(error) => Err(
                        InstallableWadError::TitleMetadataError(TitleMetadataError::IoError(error)),
                    ),
                    Ok((written, wad)) => wad.spec_put_back(written, entries, kept),
                },
            },
        }
    }

    /// Seek the stream of the WAD to the start of the ticket.
    pub fn seek_ticket(&self, stream: &mut Stream) -> (result: Result<(), PreSwitchTicketError>)
        ensures
            result is Ok,
            final(stream).same_content(old(stream)),
            final(stream).pos() == self.spec_ticket_offset(),
    {
        stream.seek_to(self.section_offset(WadSection::Ticket));
        Ok(())
    }

    /// Create a view into the ticket stored inside the WAD stream, which has
    /// to have a size above zero.
    pub fn ticket_view(&self, stream: Stream) -> (result: Result<StreamView, PreSwitchTicketError>)
        requires
            stream.wf(),
            self.ticket_size > 0,
        ensures
            result is Ok,
            result->Ok_0.wf(),
            result->Ok_0.inner().same_content(&stream),
            result->Ok_0.inner().pos() == self.spec_ticket_offset(),
            result->Ok_0.start() == self.spec_ticket_offset(),
            result->Ok_0.length() == self.ticket_size,
    {
        let mut stream = stream;
        stream.seek_to(self.section_offset(WadSection::Ticket));
        match StreamView::new(stream, self.ticket_size as usize) {
            Ok(view) => Ok(view),
            Err(error) => Err(PreSwitchTicketError::IoError(error)),
        }
    }

    /// Parse the ticket stored inside the WAD stream.
    pub fn ticket(&self, stream: &mut Stream) -> (result: Result<
        PreSwitchTicket,
        PreSwitchTicketError,
    >)
        requires
            old(stream).wf(),
        ensures
            final(stream).same_content(old(stream)),
            match PreSwitchTicketView::spec_parse(old(stream).bytes(), self.spec_ticket_offset()) {
                Ok((ticket, end)) => {
                    &&& result is Ok
                    &&& result->Ok_0@ == ticket
                    &&& final(stream).pos() == end
                },
                Err(error) => result == Err::<PreSwitchTicket, PreSwitchTicketError>(error),
            },
    {
        stream.seek_to(self.section_offset(WadSection::Ticket));
        PreSwitchTicket::new(stream)
    }

    /// Write a new ticket into the stream of a WAD, and its size into the
    /// header. The title metadata and the contents behind the ticket are
    /// left as they are: where the new ticket has another size they are
    /// overwritten or no longer where the header places them.
    /// [Self::write_ticket_safe] avoids that.
    pub fn write_ticket_raw(&mut self, new_ticket: &PreSwitchTicket, stream: &mut Stream) -> (result:
        Result<(), PreSwitchTicketError>)
        requires
            old(stream).wf(),
            new_ticket.wf(),
        ensures
            final(stream).wf(),
            match old(self).spec_raw(
                old(stream).state(),
                WadSection::Ticket,
                new_ticket@.spec_serialize(),
            ) {
                Ok((state, wad)) => {
                    &&& result is Ok
                    &&& final(stream).state() == state
                    &&& *final(self) == wad
                    &&& wad.ticket_size == new_ticket@.spec_size()
                },
                Err(error) => {
                    &&& result == Err::<(), PreSwitchTicketError>(
                        PreSwitchTicketError::IoError(error),
                    )
                    &&& *final(self) == *old(self)
                },
            },
    {
        let mut image: Vec<u8> = Vec::new();
        new_ticket.serialize_into(&mut image);
        assert(image@ =~= new_ticket@.spec_serialize());
        match self.write_raw(stream, WadSection::Ticket, &image) {
            Ok(()) => Ok(()),
            Err(error) => Err(PreSwitchTicketError::IoError(error)),
        }
    }

    /// Like [Self::write_ticket_raw] but keeps what stands behind the
    /// ticket: the contents are read into memory, the ticket and the title
    /// metadata are written, and the contents are written back behind them,
    /// each on the boundary.
    pub fn write_ticket_safe(
        &mut self,
        stream: &mut Stream,
        new_ticket: &PreSwitchTicket,
        title_metadata: &TitleMetadata,
    ) -> (result: Result<(), InstallableWadError>)
        requires
            old(stream).wf(),
            new_ticket.wf(),
            title_metadata.wf(),
        ensures
            final(stream).wf(),
            match old(self).spec_write_ticket_safe(
                old(stream).state(),
                new_ticket@,
                title_metadata@,
            ) {
                Ok((state, wad)) => {
                    &&& result is Ok
                    &&& final(stream).state() == state
                    &&& *final(self) == wad
                },
                Err(error) => result == Err::<(), InstallableWadError>(error),
            },
    {
        let contents = match self.store_contents(stream, title_metadata, 0) {
            Ok(contents) => contents,
            Err(error) => return Err(error),
        };
        match self.write_ticket_raw(new_ticket, stream) {
            Ok(()) => {},
            Err(error) => return Err(InstallableWadError::TicketError(error)),
        }
        match self.write_title_metadata_raw(title_metadata, stream) {
            Ok(()) => {},
            Err(error) => return Err(InstallableWadError::TitleMetadataError(error)),
        }
        self.restore_contents(stream, title_metadata, &contents)
    }

    /// Like [Self::write_ticket_safe] but also cuts the stream behind the
    /// last content.
    pub fn write_ticket_safe_file(
        &mut self,
        stream: &mut Stream,
        new_ticket: &PreSwitchTicket,
        title_metadata: &TitleMetadata,
    ) -> (result: Result<(), InstallableWadError>)
        requires
            old(stream).wf(),
            new_ticket.wf(),
            title_metadata.wf(),
        ensures
            final(stream).wf(),
            match old(self).spec_write_ticket_safe(
                old(stream).state(),
                new_ticket@,
                title_metadata@,
            ) {
                Ok((state, wad)) => {
                    &&& *final(self) == wad
                    &&& crate::wad::installable::trimmed(
                        state,
                        wad.spec_logical_size(title_metadata@.content_chunk_entries),
                        final(stream).state(),
                        result,
                    )
                },
                Err(error) => result == Err::<(), InstallableWadError>(error),
            },
    {
        match self.write_ticket_safe(stream, new_ticket, title_metadata) {
            Ok(()) => {},
            Err(error) => return Err(error),
        }
        self.trim(stream, title_metadata)
    }
}

} // verus!
