//! The certificate chain of an installable WAD.

use vstd::prelude::*;
use crate::certificate_chain::{
    spec_chain_parse, CertificateChain, CertificateChainError, CertificateView,
};
use crate::stream::{Stream, StreamError, StreamState};
use crate::stream_view::StreamView;
use crate::ticket::{PreSwitchTicket, PreSwitchTicketError, PreSwitchTicketView};
use crate::title_metadata::{
    TitleMetadata, TitleMetadataContentEntry, TitleMetadataError, TitleMetadataView,
};
use crate::wad::installable::{
    InstallableWad, InstallableWadError, WadSection, NUMBER_OF_CERTIFICATES_STORED,
};

verus! {

impl InstallableWad {
    /// What a safe write of the certificate chain leaves: the contents are
    /// read where the sizes of the WAD and the entries of the title
    /// metadata place them, the chain, the ticket and the title metadata
    /// are written raw, and the contents are written back behind them, each
    /// on the boundary.
    pub open spec fn spec_write_certificate_chain_safe(
        self,
        state: StreamState,
        chain: Seq<u8>,
        ticket: PreSwitchTicketView,
        title_metadata: TitleMetadataView,
    ) -> Result<(StreamState, InstallableWad), InstallableWadError> {
        let entries = title_metadata.content_chunk_entries;
        match self.spec_kept(state.bytes, entries) {
            Err(error) => Err(error),
            Ok(kept) => match self.spec_raw(state, WadSection::CertificateChain, chain) {
                Err(error) => Err(
                    InstallableWadError::CertificateChainError(
                        CertificateChainError::IoError(error),
                    ),
                ),
                Ok((with_chain, first)) => match first.spec_raw(
                    with_chain,
                    WadSection::Ticket,
                    ticket.spec_serialize(),
                ) {
                    Err(error) => Err(
                        InstallableWadError::TicketError(PreSwitchTicketError::IoError(error)),
                    ),
                    Ok((with_ticket, second)) => match second.spec_raw(
                        with_ticket,
                        WadSection::TitleMetadata,
                        title_metadata.spec_serialize(),
                    ) {
                        Err(error) => Err(
                            InstallableWadError::TitleMetadataError(
                                TitleMetadataError::IoError(error),
                            ),
                        ),
                        Ok((written, wad)) => wad.spec_put_back(written, entries, kept),
                    },
                },
            },
        }
    }

    /// Seek the stream of the WAD to the start of the certificate chain.
    pub fn seek_certificate_chain(&self, stream: &mut Stream) -> (result: Result<
        (),
        CertificateChainError,
    >)
        ensures
            result is Ok,
            final(stream).same_content(old(stream)),
            final(stream).pos() == self.spec_certificate_chain_offset(),
    {
        stream.seek_to(self.section_offset(WadSection::CertificateChain));
        Ok(())
    }

    /// Create a view into the certificate chain stored inside the WAD
    /// stream, which has to have a size above zero.
    pub fn take_certificate_chain(&self, stream: Stream) -> (result: Result<
        StreamView,
        CertificateChainError,
    >)
        requires
            stream.wf(),
            self.certificate_chain_size > 0,
        ensures
            result is Ok,
            result->Ok_0.wf(),
            result->Ok_0.inner().same_content(&stream),
            result->Ok_0.inner().pos() == self.spec_certificate_chain_offset(),
            result->Ok_0.start() == self.spec_certificate_chain_offset(),
            result->Ok_0.length() == self.certificate_chain_size,
    {
        let mut stream = stream;
        stream.seek_to(self.section_offset(WadSection::CertificateChain));
        match StreamView::new(stream, self.certificate_chain_size as usize) {
            Ok(view) => Ok(view),
            Err(error) => Err(CertificateChainError::IoError(error)),
        }
    }

    /// Parse the certificate chain stored inside the WAD stream: three
    /// certificates.
    pub fn certificate_chain(&self, stream: &mut Stream) -> (result: Result<
        CertificateChain,
        CertificateChainError,
    >)
        requires
            old(stream).wf(),
        ensures
            final(stream).same_content(old(stream)),
            match spec_chain_parse(
                old(stream).bytes(),
                self.spec_certificate_chain_offset(),
                self.spec_certificate_chain_offset(),
                NUMBER_OF_CERTIFICATES_STORED as nat,
                Seq::empty(),
            ) {
                Ok((certificates, end)) => {
                    &&& result is Ok
                    &&& result->Ok_0@ == certificates
                    &&& final(stream).pos() == end
                },
                Err(error) => result == Err::<CertificateChain, CertificateChainError>(error),
            },
    {
        stream.seek_to(self.section_offset(WadSection::CertificateChain));
        CertificateChain::new(stream, NUMBER_OF_CERTIFICATES_STORED)
    }

    /// Write a new certificate chain into the stream of a WAD, and its size
    /// into the header. The ticket, the title metadata and the contents
    /// behind the chain are left as they are: where the new chain has
    /// another size they are overwritten or no longer where the header
    /// places them. [Self::write_certificate_chain_safe] avoids that.
    pub fn write_certificate_chain_raw(
        &mut self,
        new_certificate_chain: &CertificateChain,
        stream: &mut Stream,
    ) -> (result: Result<(), CertificateChainError>)
        requires
            old(stream).wf(),
            new_certificate_chain.wf(),
        ensures
            final(stream).wf(),
            match old(self).spec_raw(
                old(stream).state(),
                WadSection::CertificateChain,
                new_certificate_chain.spec_serialize(),
            ) {
                Ok((state, wad)) => {
                    &&& result is Ok
                    &&& final(stream).state() == state
                    &&& *final(self) == wad
                    &&& wad.certificate_chain_size == new_certificate_chain.spec_size()
                },
                Err(error) => {
                    &&& result == Err::<(), CertificateChainError>(
                        CertificateChainError::IoError(error),
                    )
                    &&& *final(self) == *old(self)
                },
            },
    {
        let mut image: Vec<u8> = Vec::new();
        new_certificate_chain.serialize_into(&mut image);
        assert(image@ =~= new_certificate_chain.spec_serialize());
        proof {
            crate::certificate_chain::lemma_chain_size(
                new_certificate_chain@,
                new_certificate_chain@.len() as int,
            );
        }
        match self.write_raw(stream, WadSection::CertificateChain, &image) {
            Ok(()) => Ok(()),
            Err(error) => Err(CertificateChainError::IoError(error)),
        }
    }

    /// Like [Self::write_certificate_chain_raw] but keeps what stands behind
    /// the chain: the contents are read into memory, the chain, the ticket
    /// and the title metadata are written, and the contents are written back
    /// behind them, each on the boundary.
    pub fn write_certificate_chain_safe(
        &mut self,
        stream: &mut Stream,
        new_certificate_chain: &CertificateChain,
        ticket: &PreSwitchTicket,
        title_metadata: &TitleMetadata,
    ) -> (result: Result<(), InstallableWadError>)
        requires
            old(stream).wf(),
            new_certificate_chain.wf(),
            ticket.wf(),
            title_metadata.wf(),
        ensures
            final(stream).wf(),
            match old(self).spec_write_certificate_chain_safe(
                old(stream).state(),
                new_certificate_chain.spec_serialize(),
                ticket@,
                title_metadata@,
            ) {
                Ok((state, wad)) => {
                    &&& result is Ok
                    &&& final(stream).state() == state
                    &&& *final(self) == wad
                },
                Err(error) => result == Err::<(), InstallableWadError>(error),
            },
    {
        let contents = match self.store_contents(stream, title_metadata, 0) {
            Ok(contents) => contents,
            Err(error) => return Err(error),
        };
        match self.write_certificate_chain_raw(new_certificate_chain, stream) {
            Ok(()) => {},
            Err(error) => return Err(InstallableWadError::CertificateChainError(error)),
        }
        match self.write_ticket_raw(ticket, stream) {
            Ok(()) => {},
            Err(error) => return Err(InstallableWadError::TicketError(error)),
        }
        match self.write_title_metadata_raw(title_metadata, stream) {
            Ok(()) => {},
            Err(error) => return Err(InstallableWadError::TitleMetadataError(error)),
        }
        self.restore_contents(stream, title_metadata, &contents)
    }

    /// Like [Self::write_certificate_chain_safe] but also cuts the stream
    /// behind the last content.
    pub fn write_certificate_chain_safe_file(
        &mut self,
        stream: &mut Stream,
        new_certificate_chain: &CertificateChain,
        ticket: &PreSwitchTicket,
        title_metadata: &TitleMetadata,
    ) -> (result: Result<(), InstallableWadError>)
        requires
            old(stream).wf(),
            new_certificate_chain.wf(),
            ticket.wf(),
            title_metadata.wf(),
        ensures
            final(stream).wf(),
            match old(self).spec_write_certificate_chain_safe(
                old(stream).state(),
                new_certificate_chain.spec_serialize(),
                ticket@,
                title_metadata@,
            ) {
                Ok((state, wad)) => {
                    &&& *final(self) == wad
                    &&& crate::wad::installable::trimmed(
                        state,
                        wad.spec_logical_size(title_metadata@.content_chunk_entries),
                        final(stream).state(),
                        result,
                    )
                },
                Err(error) => result == Err::<(), InstallableWadError>(error),
            },
    {
        match self.write_certificate_chain_safe(
            stream,
            new_certificate_chain,
            ticket,
            title_metadata,
        ) {
            Ok(()) => {},
            Err(error) => return Err(error),
        }
        self.trim(stream, title_metadata)
    }
}

} // verus!
