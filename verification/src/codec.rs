//! The binary record of a certificate.
//!
//! A record is the six fields in the order in which the certificate declares
//! them, with nothing between or around them. A text field is the varint of its
//! length in bytes followed by its UTF-8 bytes; a date is the varint of the
//! zigzag number of its seconds.

use crate::certificate::{Certificate, CertificateView};
use crate::error::CodecError;
use crate::outside::{postcard_record, utf8_text};
use crate::varint::{
    leading_varint, lemma_leading_varint_is_shortest, lemma_varint_is_read_back, read_varint,
    varint, zigzag,
};
use vstd::prelude::*;
use vstd::slice::slice_subrange;
use vstd::string::StringSliceAdditionalSpecFns;
use vstd::utf8::{
    decode_utf8, decode_utf8_encode_utf8, encode_utf8, encode_utf8_decode_utf8,
    encode_utf8_valid_utf8, valid_utf8,
};

verus! {

/// The bytes of a text field.
pub open spec fn text_field(text: Seq<char>) -> Seq<u8> {
    varint(encode_utf8(text).len()) + encode_utf8(text)
}

/// The bytes of a date field.
pub open spec fn date_field(seconds: i64) -> Seq<u8> {
    varint(zigzag(seconds as int))
}

/// The record of a certificate.
pub open spec fn encoding(c: CertificateView) -> Seq<u8> {
    text_field(c.cert_id) + text_field(c.recipient_name) + text_field(c.issuing_institution)
        + text_field(c.course_name) + date_field(c.issue_date) + date_field(c.expiry_date)
}

/// The certificate of which `bytes` is the record, if there is one.
pub open spec fn decoding(bytes: Seq<u8>) -> Option<CertificateView> {
    if exists|c: CertificateView| encoding(c) == bytes {
        Some(choose|c: CertificateView| encoding(c) == bytes)
    } else {
        None
    }
}

/// The text field that starts `bytes`, and its length in bytes.
#[verifier::opaque]
spec fn leading_text(bytes: Seq<u8>) -> Option<(Seq<char>, int)> {
    match leading_varint(bytes) {
        Some((len, used)) => if used + len <= bytes.len() && valid_utf8(
            bytes.subrange(used, used + len),
        ) {
            Some((decode_utf8(bytes.subrange(used, used + len)), used + len))
        } else {
            None
        },
        None => None,
    }
}

/// The seconds that a zigzag number stands for.
spec fn unzigzag(z: nat) -> i64 {
    if z % 2 == 0 {
        (z / 2) as i64
    } else {
        (-(z / 2) - 1) as i64
    }
}

/// The date field that starts `bytes`, and its length in bytes.
#[verifier::opaque]
spec fn leading_date(bytes: Seq<u8>) -> Option<(i64, int)> {
    match leading_varint(bytes) {
        Some((z, used)) => if z <= u64::MAX {
            Some((unzigzag(z), used))
        } else {
            None
        },
        None => None,
    }
}

/// The certificate read from `bytes` field by field, if the six fields are
/// there and nothing follows them.
spec fn parsed(bytes: Seq<u8>) -> Option<CertificateView> {
    match leading_text(bytes) {
        None => None,
        Some((cert_id, end1)) => match leading_text(bytes.skip(end1)) {
            None => None,
            Some((recipient_name, len2)) => match leading_text(bytes.skip(end1 + len2)) {
                None => None,
                Some((issuing_institution, len3)) => match leading_text(
                    bytes.skip(end1 + len2 + len3),
                ) {
                    None => None,
                    Some((course_name, len4)) => match leading_date(
                        bytes.skip(end1 + len2 + len3 + len4),
                    ) {
                        None => None,
                        Some((issue_date, len5)) => match leading_date(
                            bytes.skip(end1 + len2 + len3 + len4 + len5),
                        ) {
                            None => None,
                            Some((expiry_date, len6)) => if end1 + len2 + len3 + len4 + len5 + len6
                                == bytes.len() {
                                Some(
                                    CertificateView {
                                        cert_id,
                                        recipient_name,
                                        issuing_institution,
                                        course_name,
                                        issue_date,
                                        expiry_date,
                                    },
                                )
                            } else {
                                None
                            },
                        },
                    },
                },
            },
        },
    }
}

proof fn lemma_text_is_read_back(text: Seq<char>, rest: Seq<u8>)
    ensures
        leading_text(text_field(text) + rest) == Some((text, text_field(text).len() as int)),
{
    reveal(leading_text);
    let body = encode_utf8(text);
    let head = varint(body.len());
    let bytes = text_field(text) + rest;
    lemma_varint_is_read_back(body.len(), body + rest);
    assert(bytes =~= head + (body + rest));
    assert(bytes.subrange(head.len() as int, (head.len() + body.len()) as int) =~= body);
    encode_utf8_valid_utf8(text);
    encode_utf8_decode_utf8(text);
}

proof fn lemma_leading_text_is_field(bytes: Seq<u8>)
    ensures
        leading_text(bytes) matches Some((text, used)) ==> 1 <= used <= bytes.len()
            && bytes.subrange(0, used) == text_field(text),
{
    reveal(leading_text);
    lemma_leading_varint_is_shortest(bytes);
    if let Some((len, head)) = leading_varint(bytes) {
        if head + len <= bytes.len() && valid_utf8(bytes.subrange(head, head + len)) {
            let body = bytes.subrange(head, head + len);
            decode_utf8_encode_utf8(body);
            assert(bytes.subrange(0, head + len) =~= bytes.subrange(0, head) + body);
        }
    }
}

proof fn lemma_zigzag_round_trip(seconds: i64)
    ensures
        zigzag(seconds as int) <= u64::MAX,
        unzigzag(zigzag(seconds as int)) == seconds,
{
}

proof fn lemma_unzigzag_round_trip(z: nat)
    requires
        z <= u64::MAX,
    ensures
        zigzag(unzigzag(z) as int) == z,
{
}

proof fn lemma_date_is_read_back(seconds: i64, rest: Seq<u8>)
    ensures
        leading_date(date_field(seconds) + rest) == Some(
            (seconds, date_field(seconds).len() as int),
        ),
{
    reveal(leading_date);
    lemma_varint_is_read_back(zigzag(seconds as int), rest);
    lemma_zigzag_round_trip(seconds);
}

proof fn lemma_leading_date_is_field(bytes: Seq<u8>)
    ensures
        leading_date(bytes) matches Some((seconds, used)) ==> 1 <= used <= bytes.len()
            && bytes.subrange(0, used) == date_field(seconds),
{
    reveal(leading_date);
    lemma_leading_varint_is_shortest(bytes);
    if let Some((z, used)) = leading_varint(bytes) {
        if z <= u64::MAX {
            lemma_unzigzag_round_trip(z);
        }
    }
}

/// A record reads back, field by field, as its certificate; with anything
/// after it, it reads as nothing.
proof fn lemma_record_is_read_back(c: CertificateView, rest: Seq<u8>)
    ensures
        parsed(encoding(c) + rest) == if rest.len() == 0 {
            Some(c)
        } else {
            None
        },
{
    let field1 = text_field(c.cert_id);
    let field2 = text_field(c.recipient_name);
    let field3 = text_field(c.issuing_institution);
    let field4 = text_field(c.course_name);
    let field5 = date_field(c.issue_date);
    let field6 = date_field(c.expiry_date);
    let bytes = encoding(c) + rest;
    let end1 = field1.len() as int;
    let end2 = end1 + field2.len();
    let end3 = end2 + field3.len();
    let end4 = end3 + field4.len();
    let end5 = end4 + field5.len();
    lemma_text_is_read_back(c.cert_id, field2 + field3 + field4 + field5 + field6 + rest);
    assert(bytes =~= field1 + (field2 + field3 + field4 + field5 + field6 + rest));
    lemma_text_is_read_back(c.recipient_name, field3 + field4 + field5 + field6 + rest);
    assert(bytes.skip(end1) =~= field2 + (field3 + field4 + field5 + field6 + rest));
    lemma_text_is_read_back(c.issuing_institution, field4 + field5 + field6 + rest);
    assert(bytes.skip(end2) =~= field3 + (field4 + field5 + field6 + rest));
    lemma_text_is_read_back(c.course_name, field5 + field6 + rest);
    assert(bytes.skip(end3) =~= field4 + (field5 + field6 + rest));
    lemma_date_is_read_back(c.issue_date, field6 + rest);
    assert(bytes.skip(end4) =~= field5 + (field6 + rest));
    lemma_date_is_read_back(c.expiry_date, rest);
    assert(bytes.skip(end5) =~= field6 + rest);
}

/// Bytes that read as a certificate are that certificate's record.
proof fn lemma_parsed_is_record(bytes: Seq<u8>)
    ensures
        parsed(bytes) matches Some(c) ==> encoding(c) == bytes,
{
    if let Some(c) = parsed(bytes) {
        let (_, end1) = leading_text(bytes).unwrap();
        let (_, len2) = leading_text(bytes.skip(end1)).unwrap();
        let end2 = end1 + len2;
        let (_, len3) = leading_text(bytes.skip(end2)).unwrap();
        let end3 = end2 + len3;
        let (_, len4) = leading_text(bytes.skip(end3)).unwrap();
        let end4 = end3 + len4;
        let (_, len5) = leading_date(bytes.skip(end4)).unwrap();
        let end5 = end4 + len5;
        let (_, len6) = leading_date(bytes.skip(end5)).unwrap();
        lemma_leading_text_is_field(bytes);
        lemma_leading_text_is_field(bytes.skip(end1));
        lemma_leading_text_is_field(bytes.skip(end2));
        lemma_leading_text_is_field(bytes.skip(end3));
        lemma_leading_date_is_field(bytes.skip(end4));
        lemma_leading_date_is_field(bytes.skip(end5));
        assert(bytes.skip(end1).subrange(0, len2) =~= bytes.subrange(end1, end2));
        assert(bytes.skip(end2).subrange(0, len3) =~= bytes.subrange(end2, end3));
        assert(bytes.skip(end3).subrange(0, len4) =~= bytes.subrange(end3, end4));
        assert(bytes.skip(end4).subrange(0, len5) =~= bytes.subrange(end4, end5));
        assert(bytes.skip(end5).subrange(0, len6) =~= bytes.subrange(end5, end5 + len6));
        assert(bytes =~= bytes.subrange(0, end1) + bytes.subrange(end1, end2) + bytes.subrange(
            end2,
            end3,
        ) + bytes.subrange(end3, end4) + bytes.subrange(end4, end5) + bytes.subrange(
            end5,
            end5 + len6,
        ));
    }
}

/// Reading field by field finds the certificate of a record, and finds none
/// in bytes that are no record.
proof fn lemma_parsed_is_decoding(bytes: Seq<u8>)
    ensures
        decoding(bytes) == parsed(bytes),
{
    lemma_parsed_is_record(bytes);
    if exists|c: CertificateView| encoding(c) == bytes {
        let c = choose|c: CertificateView| encoding(c) == bytes;
        lemma_record_is_read_back(c, Seq::empty());
        assert(encoding(c) + Seq::empty() =~= bytes);
    }
}

/// Decoding the record of a certificate gives the certificate back.
pub proof fn decoding_inverts_encoding(c: CertificateView)
    ensures
        decoding(encoding(c)) == Some(c),
{
    lemma_parsed_is_decoding(encoding(c));
    lemma_record_is_read_back(c, Seq::empty());
    assert(encoding(c) + Seq::empty() =~= encoding(c));
}

/// Two certificates with the same record are the same certificate.
pub proof fn encoding_is_injective(a: CertificateView, b: CertificateView)
    requires
        encoding(a) == encoding(b),
    ensures
        a == b,
{
    decoding_inverts_encoding(a);
    decoding_inverts_encoding(b);
}

/// The record depends on the six field values and on nothing else: two
/// certificates that agree in every field have the same record, byte for byte.
pub proof fn encoding_is_deterministic(a: Certificate, b: Certificate)
    requires
        a@ == b@,
    ensures
        encoding(a@) == encoding(b@),
{
}

/// A record with anything after it is the record of no certificate.
pub proof fn extended_record_is_refused(c: CertificateView, extra: Seq<u8>)
    requires
        extra.len() > 0,
    ensures
        decoding(encoding(c) + extra) is None,
{
    lemma_parsed_is_decoding(encoding(c) + extra);
    lemma_record_is_read_back(c, extra);
}

/// A record cut short, at any length, is the record of no certificate.
pub proof fn truncated_record_is_refused(c: CertificateView, len: int)
    requires
        0 <= len < encoding(c).len(),
    ensures
        decoding(encoding(c).subrange(0, len)) is None,
{
    let whole = encoding(c);
    let kept = whole.subrange(0, len);
    if let Some(shorter) = decoding(kept) {
        let lost = whole.subrange(len, whole.len() as int);
        assert(whole =~= encoding(shorter) + lost);
        extended_record_is_refused(shorter, lost);
        decoding_inverts_encoding(c);
    }
}

/// Encodes a certificate as its record.
///
/// Every certificate has a record, so the result is always `Ok`.
pub fn encode(cert: &Certificate) -> (r: Result<Vec<u8>, CodecError>)
    ensures
        r is Ok,
        r matches Ok(bytes) ==> bytes@ == encoding(cert@),
{
    match postcard_record(cert) {
        Ok(bytes) => Ok(bytes),
        Err(e) => Err(CodecError::Encode(e)),
    }
}

/// Reads the text field that starts at `start` and says where the next field
/// starts.
fn read_text<'a>(bytes: &'a [u8], start: usize) -> (r: Option<(&'a str, usize)>)
    requires
        start <= bytes.len(),
    ensures
        match r {
            Some((text, next)) => start < next <= bytes.len() && leading_text(
                bytes@.skip(start as int),
            ) == Some((text@, next - start)),
            None => leading_text(bytes@.skip(start as int)) is None,
        },
{
    proof {
        reveal(leading_text);
        lemma_leading_varint_is_shortest(bytes@.skip(start as int));
    }
    match read_varint(bytes, start) {
        None => None,
        Some((len, at)) => {
            if len > (bytes.len() - at) as u64 {
                None
            } else {
                let end = at + len as usize;
                let body = slice_subrange(bytes, at, end);
                proof {
                    assert(body@ =~= bytes@.skip(start as int).subrange(
                        at - start,
                        at - start + len,
                    ));
                }
                match utf8_text(body) {
                    Some(text) => {
                        proof {
                            encode_utf8_decode_utf8(text@);
                        }
                        Some((text, end))
                    },
                    None => None,
                }
            }
        },
    }
}

/// Reads the date field that starts at `start` and says where the next field
/// starts.
fn read_date(bytes: &[u8], start: usize) -> (r: Option<(i64, usize)>)
    requires
        start <= bytes.len(),
    ensures
        match r {
            Some((seconds, next)) => start < next <= bytes.len() && leading_date(
                bytes@.skip(start as int),
            ) == Some((seconds, next - start)),
            None => leading_date(bytes@.skip(start as int)) is None,
        },
{
    proof {
        reveal(leading_date);
    }
    match read_varint(bytes, start) {
        None => None,
        Some((z, next)) => {
            let half = (z / 2) as i64;
            let seconds = if z % 2 == 0 {
                half
            } else {
                -half - 1
            };
            Some((seconds, next))
        },
    }
}

/// Decodes a record into its certificate, whose text borrows from `bytes`.
///
/// Bytes that are not the record of a certificate are refused: a record cut
/// short, a record with anything after it, a length or date not in its
/// shortest form, text that is not UTF-8.
pub fn decode<'a>(bytes: &'a [u8]) -> (r: Result<Certificate<'a>, CodecError>)
    ensures
        match r {
            Ok(cert) => decoding(bytes@) == Some(cert@),
            Err(e) => e == CodecError::Malformed && decoding(bytes@) is None,
        },
{
    proof {
        lemma_parsed_is_decoding(bytes@);
        assert(bytes@.skip(0) =~= bytes@);
    }
    let Some((cert_id, end1)) = read_text(bytes, 0) else {
        return Err(CodecError::Malformed);
    };
    let Some((recipient_name, end2)) = read_text(bytes, end1) else {
        return Err(CodecError::Malformed);
    };
    let Some((issuing_institution, end3)) = read_text(bytes, end2) else {
        return Err(CodecError::Malformed);
    };
    let Some((course_name, end4)) = read_text(bytes, end3) else {
        return Err(CodecError::Malformed);
    };
    let Some((issue_date, end5)) = read_date(bytes, end4) else {
        return Err(CodecError::Malformed);
    };
    let Some((expiry_date, end6)) = read_date(bytes, end5) else {
        return Err(CodecError::Malformed);
    };
    if end6 != bytes.len() {
        return Err(CodecError::Malformed);
    }
    Ok(
        Certificate {
            cert_id,
            recipient_name,
            issuing_institution,
            course_name,
            issue_date,
            expiry_date,
        },
    )
}

} // verus!
