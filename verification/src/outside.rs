//! What this library takes on trust from code it does not verify.

use crate::certificate::Certificate;
use crate::codec::encoding;
use vstd::prelude::*;
use vstd::string::StringSliceAdditionalSpecFns;
use vstd::utf8::valid_utf8;

verus! {

/// `postcard::Error`, the serializer's error type. Nothing here looks inside it.
#[verifier::external_type_specification]
#[verifier::external_body]
pub struct ExPostcardError(postcard::Error);

/// Calls `postcard::to_allocvec` on the six fields of `cert`, in the order in
/// which the certificate declares them.
///
/// Trusted: the call succeeds and returns the record that [`encoding`]
/// describes. Postcard writes a tuple as its elements one after the other, a
/// string as the varint of its length in bytes followed by its UTF-8 bytes, and
/// an `i64` as the varint of its zigzag number; writing into a growable vector
/// never reports a full buffer.
#[verifier::external_body]
pub(crate) fn postcard_record(cert: &Certificate) -> (r: Result<Vec<u8>, postcard::Error>)
    ensures
        r is Ok,
        r matches Ok(bytes) ==> bytes@ == encoding(cert@),
{
    postcard::to_allocvec(
        &(
            cert.cert_id,
            cert.recipient_name,
            cert.issuing_institution,
            cert.course_name,
            cert.issue_date,
            cert.expiry_date,
        ),
    )
}

/// Calls `core::str::from_utf8`.
///
/// Trusted: the bytes are accepted exactly when they are well-formed UTF-8, and
/// the text returned is made of those very bytes.
#[verifier::external_body]
pub(crate) fn utf8_text<'a>(bytes: &'a [u8]) -> (r: Option<&'a str>)
    ensures
        r is Some <==> valid_utf8(bytes@),
        r matches Some(text) ==> text.spec_bytes() == bytes@,
{
    core::str::from_utf8(bytes).ok()
}

} // verus!
