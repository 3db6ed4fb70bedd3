//! Tamper-evident educational certificates: the certificate model, its compact
//! binary record, and the mint and verify decisions of an issuer.

pub mod certificate;
pub mod codec;
pub mod edunode;
pub mod error;
pub mod ledger;
mod outside;
pub mod varint;

pub use certificate::{Certificate, CertificateView};
pub use codec::{decode, encode};
pub use edunode::Edunode;
pub use error::{CodecError, EdunodeError, StorageError};
pub use ledger::{narrow, widen, LedgerWrite, LedgerWriteView};
