use vstd::prelude::*;

verus! {

/// Failure while decoding a flash-algorithm image.
#[derive(Clone, Copy, Debug, PartialEq, Eq, Structural)]
pub enum ExtractionError {
    /// The byte stream is not a well-formed image of the expected container
    /// format, or a mandatory entry point lies outside the code blob.
    InvalidImage,
    /// A required program-code or initialized-data section is absent.
    MissingSection,
    /// The device-descriptor symbol is absent.
    MissingDescriptor,
    /// The sector table does not tile the declared flash size.
    InconsistentGeometry,
}

/// Failure while accessing a pack source.
#[derive(Clone, Copy, Debug, PartialEq, Eq, Structural)]
pub enum SourceError {
    /// The backing path does not exist or cannot be opened.
    MissingPath,
    /// A named member is absent from the source.
    MissingMember,
    /// The archive container itself is corrupt.
    InvalidContainer,
    /// No descriptor entry could be located inside the source.
    NoDescriptor,
}

} // verus!
