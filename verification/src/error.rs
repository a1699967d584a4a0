use vstd::prelude::*;

use crate::BspVersion;

verus! {

/// Every failure a decode can report.
///
/// Header and lump decoding are strict: any of these aborts the whole file
/// decode and no partial structure is returned.
#[derive(Debug, Clone, PartialEq, Eq, Structural)]
pub enum Error {
    /// An enumerated wire value (plane type, leaf contents) was not recognised.
    Custom(CustomKind),
    /// The file identifier is not a supported BSP version.
    InvalidOrUnimplementedIdent { ident: i32 },
    /// A typed decode was requested for a file of another version.
    InvalidBspFormat { version: BspVersion },
    /// A WAD archive did not start with the WAD2 or WAD3 magic.
    InvalidWadFormat,
    /// The byte source ended before a full value could be read.
    Io,
}

/// Which enumerated wire field held an unrecognised value.
#[derive(Debug, Clone, Copy, PartialEq, Eq, Structural)]
pub enum CustomKind {
    /// A plane record's type code was outside 0..=5.
    PlaneType,
    /// A leaf record's contents code was outside -15..=-1.
    Contents,
}

} // verus!
