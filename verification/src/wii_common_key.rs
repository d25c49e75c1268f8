//! The common encryption keys of the Nintendo Wii.

use vstd::prelude::*;
use crate::extensions::wrote_all;
use crate::stream::{Stream, StreamError};

verus! {

/// Kinds of encryption keys used on the Nintendo Wii.
#[derive(Debug, Clone, Copy, PartialEq, Eq, Structural)]
pub enum WiiCommonKeyKind {
    /// Key used in most retail consoles.
    Normal,
    /// Key used on consoles with Korea set as its internal region (KOR).
    Korean,
    /// Key used on the virtual Wii console (vWii) inside the Nintendo Wii U.
    WiiUvWii,
}

/// Why a common key could not be chosen.
#[derive(Debug, Clone, Copy, PartialEq, Eq, Structural)]
pub enum CommonKeyKindError {
    /// The index names none of the three keys.
    UnknownCommonKeyIndex(u8),
}

/// The sixteen bytes of a common key.
pub open spec fn spec_common_key(kind: WiiCommonKeyKind) -> Seq<u8> {
    match kind {
        WiiCommonKeyKind::Normal => seq![
            0xebu8,
            0xe4,
            0x2a,
            0x22,
            0x5e,
            0x85,
            0x93,
            0xe4,
            0x48,
            0xd9,
            0xc5,
            0x45,
            0x73,
            0x81,
            0xaa,
            0xf7,
        ],
        WiiCommonKeyKind::Korean => seq![
            0x63u8,
            0xb8,
            0x2b,
            0xb4,
            0xf4,
            0x61,
            0x4e,
            0x2e,
            0x13,
            0xf2,
            0xfe,
            0xfb,
            0xba,
            0x4c,
            0x9b,
            0x7e,
        ],
        WiiCommonKeyKind::WiiUvWii => seq![
            0x30u8,
            0xbf,
            0xc7,
            0x6e,
            0x7c,
            0x19,
            0xaf,
            0xbb,
            0x23,
            0x16,
            0x33,
            0x30,
            0xce,
            0xd7,
            0xc2,
            0x8d,
        ],
    }
}

impl WiiCommonKeyKind {
    /// The key that a common key index names; none for an index above 2.
    pub open spec fn spec_new(identifier: u8) -> Option<WiiCommonKeyKind> {
        if identifier == 0 {
            Some(WiiCommonKeyKind::Normal)
        } else if identifier == 1 {
            Some(WiiCommonKeyKind::Korean)
        } else if identifier == 2 {
            Some(WiiCommonKeyKind::WiiUvWii)
        } else {
            None
        }
    }

    /// The common key index of the key.
    pub open spec fn spec_identifier(self) -> u8 {
        match self {
            WiiCommonKeyKind::Normal => 0,
            WiiCommonKeyKind::Korean => 1,
            WiiCommonKeyKind::WiiUvWii => 2,
        }
    }

    /// Get a common key given its "common key index" (identifier).
    pub fn new(identifier: u8) -> (result: Result<Self, CommonKeyKindError>)
        ensures
            result == match Self::spec_new(identifier) {
                Some(kind) => Ok::<Self, CommonKeyKindError>(kind),
                None => Err::<Self, CommonKeyKindError>(
                    CommonKeyKindError::UnknownCommonKeyIndex(identifier),
                ),
            },
    {
        if identifier == 0 {
            Ok(WiiCommonKeyKind::Normal)
        } else if identifier == 1 {
            Ok(WiiCommonKeyKind::Korean)
        } else if identifier == 2 {
            Ok(WiiCommonKeyKind::WiiUvWii)
        } else {
            Err(CommonKeyKindError::UnknownCommonKeyIndex(identifier))
        }
    }

    /// Write the identifier associated with the given common key.
    pub fn dump_identifier(&self, stream: &mut Stream) -> (result: Result<(), StreamError>)
        requires
            old(stream).wf(),
        ensures
            final(stream).wf(),
            wrote_all(*old(stream), *final(stream), seq![self.spec_identifier()], result),
    {
        let mut bytes: Vec<u8> = Vec::new();
        bytes.push(
            match self {
                WiiCommonKeyKind::Normal => 0u8,
                WiiCommonKeyKind::Korean => 1u8,
                WiiCommonKeyKind::WiiUvWii => 2u8,
            },
        );
        assert(bytes@ =~= seq![self.spec_identifier()]);
        stream.write_all(bytes.as_slice())
    }

    /// Get the bytes of the correct kind of common key.
    pub fn bytes(&self) -> (key: [u8; 16])
        ensures
            key@ == spec_common_key(*self),
    {
        let key: [u8; 16] = match self {
            WiiCommonKeyKind::Normal => [
                0xeb,
                0xe4,
                0x2a,
                0x22,
                0x5e,
                0x85,
                0x93,
                0xe4,
                0x48,
                0xd9,
                0xc5,
                0x45,
                0x73,
                0x81,
                0xaa,
                0xf7,
            ],
            WiiCommonKeyKind::Korean => [
                0x63,
                0xb8,
                0x2b,
                0xb4,
                0xf4,
                0x61,
                0x4e,
                0x2e,
                0x13,
                0xf2,
                0xfe,
                0xfb,
                0xba,
                0x4c,
                0x9b,
                0x7e,
            ],
            WiiCommonKeyKind::WiiUvWii => [
                0x30,
                0xbf,
                0xc7,
                0x6e,
                0x7c,
                0x19,
                0xaf,
                0xbb,
                0x23,
                0x16,
                0x33,
                0x30,
                0xce,
                0xd7,
                0xc2,
                0x8d,
            ],
        };
        assert(key@ =~= spec_common_key(*self));
        key
    }
}

/// The index of a key names that key.
pub proof fn lemma_common_key_identifier(kind: WiiCommonKeyKind)
    ensures
        WiiCommonKeyKind::spec_new(kind.spec_identifier()) == Some(kind),
{
}

} // verus!
