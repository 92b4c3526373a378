//! Error taxonomy of the storage core.

use vstd::prelude::*;

verus! {

/// Errors surfaced by the storage core.
///
/// `InvalidMediaType` is rejected before any write; `NotFound` covers a
/// missing blob, thumbnail, topic or tag; `Unauthorized` is an ownership or
/// verification failure, distinct from `NotFound`; `NoChallenge` is a
/// verification attempt with no outstanding challenge; `StorageIO` is a disk
/// failure or a corrupt stored record; `CorruptDerivedAsset` is a thumbnail
/// generation failure, always recovered locally.
#[derive(Clone, Copy, Debug, PartialEq, Eq, Structural)]
pub enum ServerErr {
    InvalidMediaType,
    NotFound,
    Unauthorized,
    NoChallenge,
    StorageIO,
    CorruptDerivedAsset,
}

} // verus!
