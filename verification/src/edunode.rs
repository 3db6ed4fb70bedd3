//! The issuer: what to write to the ledger store to mint a certificate, and
//! what to make of a presented certificate given what the store returned.
//!
//! The issuer never touches the store. To mint, the caller performs the write
//! that [`Edunode::mint_certificate`] returns and reports the store's answer
//! to [`Edunode::mint_outcome`]. To verify, the caller reads the cells stored
//! under the certificate's `cert_id`, reads the clock, and hands both to
//! [`Edunode::verify_certificate`].

use crate::certificate::{Certificate, CertificateView};
use crate::codec::{decode, decoding, decoding_inverts_encoding, encode, encoding};
use crate::error::{CodecError, EdunodeError, StorageError};
use crate::ledger::{
    fetched, narrow, narrowed, narrowing_inverts_widening, stored_after, widen, widened,
    LedgerWrite, LedgerWriteView,
};
use vstd::prelude::*;

verus! {

/// An issuer, bound to one account credential.
pub struct Edunode<'a> {
    account_key: &'a str,
}

impl<'a> View for Edunode<'a> {
    type V = Seq<char>;

    /// The account credential.
    closed spec fn view(&self) -> Seq<char> {
        self.account_key@
    }
}

/// What minting a certificate comes to: the write of its record, one byte to a
/// cell, under its `cert_id`; or a refusal, if it expires before it is issued.
pub open spec fn minting(c: CertificateView) -> Result<LedgerWriteView, EdunodeError> {
    if c.dates_ordered() {
        Ok(LedgerWriteView { key: c.cert_id, cells: widened(encoding(c)) })
    } else {
        Err(EdunodeError::InvalidDates)
    }
}

/// The certificate that stored cells hold, if they hold the record of one.
pub open spec fn stored_certificate(cells: Seq<u32>) -> Option<CertificateView> {
    match narrowed(cells) {
        Some(bytes) => decoding(bytes),
        None => None,
    }
}

/// The answer to a presented certificate `c` at time `now`, given what the
/// store returned for its `cert_id`.
///
/// `Ok(true)`: the store holds this very certificate, and it has not expired.
/// `Ok(false)`: the store holds nothing under the key, or another certificate,
/// or the certificate has expired. `Err`: the question could not be settled,
/// because the store failed or holds cells that are no record.
pub open spec fn verdict(
    c: CertificateView,
    fetched: Result<Seq<u32>, StorageError>,
    now: i64,
) -> Result<bool, EdunodeError> {
    match fetched {
        Ok(cells) => match stored_certificate(cells) {
            Some(stored) => Ok(stored == c && now <= c.expiry_date),
            None => Err(EdunodeError::CodecError(CodecError::Malformed)),
        },
        Err(StorageError::NotFound) => Ok(false),
        Err(e) => Err(EdunodeError::StorageError(e)),
    }
}

impl<'a> Edunode<'a> {
    /// An issuer bound to `account_key`.
    pub fn new(account_key: &'a str) -> (issuer: Edunode<'a>)
        ensures
            issuer@ == account_key@,
    {
        Edunode { account_key }
    }

    /// The account credential the issuer is bound to.
    pub fn account_key(&self) -> (key: &'a str)
        ensures
            key@ == self@,
    {
        self.account_key
    }

    /// Decides the write that mints `cert`.
    ///
    /// A certificate that expires before it is issued is refused with
    /// `InvalidDates`; for any other, the write is returned.
    pub fn mint_certificate<'c>(&self, cert: &Certificate<'c>) -> (r: Result<
        LedgerWrite<'c>,
        EdunodeError,
    >)
        ensures
            match r {
                Ok(write) => minting(cert@) == Ok::<LedgerWriteView, EdunodeError>(write@),
                Err(e) => minting(cert@) == Err::<LedgerWriteView, EdunodeError>(e),
            },
    {
        if !cert.dates_ordered() {
            return Err(EdunodeError::InvalidDates);
        }
        match encode(cert) {
            Ok(bytes) => Ok(LedgerWrite { key: cert.cert_id, cells: widen(bytes.as_slice()) }),
            Err(e) => Err(EdunodeError::CodecError(e)),
        }
    }

    /// What a mint has come to once the store has answered the write: done, or
    /// the store's failure, passed on as it is.
    pub fn mint_outcome(&self, stored: Result<(), StorageError>) -> (r: Result<(), EdunodeError>)
        ensures
            r == match stored {
                Ok(()) => Ok::<(), EdunodeError>(()),
                Err(e) => Err(EdunodeError::StorageError(e)),
            },
    {
        match stored {
            Ok(()) => Ok(()),
            Err(e) => Err(EdunodeError::StorageError(e)),
        }
    }

    /// Answers whether `cert` is the certificate minted under its `cert_id`
    /// and still valid at `now`, given what the store returned for that key.
    ///
    /// An error is no verdict on the certificate: it says that none could be
    /// reached.
    pub fn verify_certificate(
        &self,
        cert: &Certificate,
        fetched: Result<Vec<u32>, StorageError>,
        now: i64,
    ) -> (r: Result<bool, EdunodeError>)
        ensures
            r == verdict(
                cert@,
                match fetched {
                    Ok(cells) => Ok(cells@),
                    Err(e) => Err(e),
                },
                now,
            ),
    {
        match fetched {
            Ok(cells) => {
                let Some(bytes) = narrow(cells.as_slice()) else {
                    return Err(EdunodeError::CodecError(CodecError::Malformed));
                };
                match decode(bytes.as_slice()) {
                    Ok(stored) => Ok(stored.same_as(cert) && now <= cert.expiry_date),
                    Err(e) => Err(EdunodeError::CodecError(e)),
                }
            },
            Err(StorageError::NotFound) => Ok(false),
            Err(e) => Err(EdunodeError::StorageError(e)),
        }
    }
}

/// The cells written by a mint hold the certificate that was minted.
proof fn lemma_minted_cells_hold_certificate(c: CertificateView)
    ensures
        stored_certificate(widened(encoding(c))) == Some(c),
{
    narrowing_inverts_widening(encoding(c));
    decoding_inverts_encoding(c);
}

/// After a certificate is minted, it verifies for as long as it has not
/// expired.
pub proof fn minted_certificate_verifies(
    ledger: Map<Seq<char>, Seq<u32>>,
    c: CertificateView,
    write: LedgerWriteView,
    now: i64,
)
    requires
        minting(c) == Ok::<LedgerWriteView, EdunodeError>(write),
        now <= c.expiry_date,
    ensures
        verdict(c, fetched(stored_after(ledger, write), c.cert_id), now) == Ok::<
            bool,
            EdunodeError,
        >(true),
{
    lemma_minted_cells_hold_certificate(c);
}

/// After a certificate is minted, it no longer verifies once it has expired.
pub proof fn expired_certificate_is_rejected(
    ledger: Map<Seq<char>, Seq<u32>>,
    c: CertificateView,
    write: LedgerWriteView,
    now: i64,
)
    requires
        minting(c) == Ok::<LedgerWriteView, EdunodeError>(write),
        now > c.expiry_date,
    ensures
        verdict(c, fetched(stored_after(ledger, write), c.cert_id), now) == Ok::<
            bool,
            EdunodeError,
        >(false),
{
    lemma_minted_cells_hold_certificate(c);
}

/// After a certificate is minted, a certificate with the same `cert_id` that
/// differs from it in any field does not verify, at any time.
pub proof fn altered_certificate_is_rejected(
    ledger: Map<Seq<char>, Seq<u32>>,
    c: CertificateView,
    write: LedgerWriteView,
    altered: CertificateView,
    now: i64,
)
    requires
        minting(c) == Ok::<LedgerWriteView, EdunodeError>(write),
        altered.cert_id == c.cert_id,
        altered != c,
    ensures
        verdict(altered, fetched(stored_after(ledger, write), altered.cert_id), now) == Ok::<
            bool,
            EdunodeError,
        >(false),
{
    lemma_minted_cells_hold_certificate(c);
}

/// A certificate whose `cert_id` the store does not hold does not verify, and
/// that is an answer, not an error.
pub proof fn unknown_certificate_is_rejected(
    ledger: Map<Seq<char>, Seq<u32>>,
    c: CertificateView,
    now: i64,
)
    requires
        !ledger.dom().contains(c.cert_id),
    ensures
        verdict(c, fetched(ledger, c.cert_id), now) == Ok::<bool, EdunodeError>(false),
{
}

/// A mint under one `cert_id` leaves the answer for every other `cert_id` as
/// it was.
pub proof fn mint_leaves_other_certificates(
    ledger: Map<Seq<char>, Seq<u32>>,
    write: LedgerWriteView,
    c: CertificateView,
    now: i64,
)
    requires
        write.key != c.cert_id,
    ensures
        verdict(c, fetched(stored_after(ledger, write), c.cert_id), now) == verdict(
            c,
            fetched(ledger, c.cert_id),
            now,
        ),
{
}

} // verus!
