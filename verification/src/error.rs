//! Error types.

use vstd::prelude::*;

verus! {

/// A failure to turn a certificate into its record, or a record back into a
/// certificate.
#[derive(Debug, PartialEq, Eq)]
pub enum CodecError {
    /// The serializer reported an error. It has none to report for a
    /// certificate: the variant is here because the serializer's signature
    /// can fail.
    Encode(postcard::Error),
    /// The bytes are not the record of any certificate.
    Malformed,
}

/// A failure reported by the ledger store.
#[derive(Clone, Copy, Debug, PartialEq, Eq)]
pub enum StorageError {
    /// No record is stored under the key.
    NotFound,
    /// The store could not be reached.
    Unavailable,
    /// The store refused the operation.
    Rejected,
}

/// Why an issuer's operation gave no answer.
#[derive(Debug, PartialEq, Eq)]
pub enum EdunodeError {
    /// A certificate or a stored record could not be encoded or decoded.
    CodecError(CodecError),
    /// The ledger store failed.
    StorageError(StorageError),
    /// The certificate expires before it is issued.
    InvalidDates,
}

} // verus!
