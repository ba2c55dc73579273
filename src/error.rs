use vstd::prelude::*;

verus! {

/// Why a dictionary, a record or a name could not be read.
#[derive(Debug, Clone, Copy, PartialEq, Eq, Structural)]
pub enum CpeError {
    /// A structured name without exactly thirteen segments, or with the wrong prefix
    /// or version.
    MalformedName,
    /// A required attribute is absent.
    MissingAttribute,
    /// A required child element is absent.
    MissingElement,
    /// The dictionary path has no extension that names a known container.
    UnsupportedArchiveFormat,
    /// The container could not be decoded to text.
    IoFailure,
}

} // verus!
