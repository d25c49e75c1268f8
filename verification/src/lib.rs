//! Parsing, authoring and in-place editing of the signed container formats of
//! the Nintendo Wii, DSi, 3DS and Wii U (installable WAD, certificate chain,
//! ticket, title metadata), together with the derivation of the
//! parental-control master key.

pub mod align;
pub mod bytes;
pub mod cbc_stream;
pub mod certificate_chain;
pub mod crypto;
pub mod extensions;
pub mod icebrk;
pub mod recall_view;
pub mod signed_blob_header;
pub mod stream;
pub mod stream_pin;
pub mod stream_view;
pub mod text;
pub mod ticket;
pub mod title_id;
pub mod title_metadata;
pub mod wad;
pub mod wii_common_key;

pub use align::align_to_boundary;
pub use cbc_stream::AesCbcStream;
pub use certificate_chain::CertificateChain;
pub use extensions::{ReadEx, StringEx, WriteEx};
pub use icebrk::{
    calculate_v0_master_key, calculate_v1_master_key, calculate_v2_master_key,
    calculate_v3_master_key, Platform, V1Error, V2Error, V3Error,
};
pub use recall_view::RecallView;
pub use stream::{SeekFrom, Stream, StreamError};
pub use stream_pin::StreamPin;
pub use stream_view::StreamView;
pub use ticket::{CryptographicMethod, PreSwitchTicket};
pub use title_metadata::content_selector::ContentSelector;
pub use title_metadata::{TitleMetadata, TitleMetadataContentEntryKind};
pub use wad::Wad;
