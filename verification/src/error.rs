use vstd::prelude::*;

verus! {

/// What can go wrong while links are read, written or followed.
#[derive(Clone, Copy, Debug, PartialEq, Eq, Structural)]
pub enum LinkErrorKind {
    /// The store could not be read.
    StoreReadError,
    /// The store could not be written.
    StoreWriteError,
    /// An element of the link field is neither a text nor a table that holds
    /// exactly a link and an annotation, both texts.
    LinkParserError,
    /// A stored text is no entry identifier.
    StoreIdError,
    /// The link field is present but is no sequence.
    ExistingLinkTypeWrong,
    /// A link could not be turned into a header value.
    InternalConversionError,
}

/// Why the store refused to read or to write.
#[derive(Clone, Copy, Debug, PartialEq, Eq, Structural)]
pub enum StoreError {
    /// An entry could not be read.
    ReadFailed,
    /// An entry could not be written or removed.
    WriteFailed,
    /// An entry was to be made where one lives already.
    EntryAlreadyExists,
    /// An entry was to be changed or removed that the store does not hold.
    EntryNotFound,
}

/// The link error that stands for a failure of the store: a failed read is
/// a read error, every other failure a write error.
pub open spec fn store_failure(e: StoreError) -> LinkErrorKind {
    match e {
        StoreError::ReadFailed => LinkErrorKind::StoreReadError,
        _ => LinkErrorKind::StoreWriteError,
    }
}

/// Hands a failure of the store on as a link error of the same kind.
pub fn from_store_error(e: StoreError) -> (k: LinkErrorKind)
    ensures
        k == store_failure(e),
{
    match e {
        StoreError::ReadFailed => LinkErrorKind::StoreReadError,
        _ => LinkErrorKind::StoreWriteError,
    }
}

} // verus!
