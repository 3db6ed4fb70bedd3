//! The certificate model.

use vstd::prelude::*;
use vstd::string::StringSliceAdditionalSpecFns;
use vstd::utf8::encode_utf8_decode_utf8;

verus! {

/// Whether two texts are made of the same characters.
pub fn same_text(a: &str, b: &str) -> (same: bool)
    ensures
        same == (a@ == b@),
{
    let x = a.as_bytes();
    let y = b.as_bytes();
    proof {
        encode_utf8_decode_utf8(a@);
        encode_utf8_decode_utf8(b@);
    }
    if x.len() != y.len() {
        return false;
    }
    let mut i: usize = 0;
    while i < x.len()
        invariant
            i <= x.len(),
            x.len() == y.len(),
            x@ == a.spec_bytes(),
            y@ == b.spec_bytes(),
            forall|j: int| 0 <= j < i ==> x@[j] == y@[j],
        decreases x.len() - i,
    {
        if x[i] != y[i] {
            return false;
        }
        i = i + 1;
    }
    assert(x@ =~= y@);
    true
}

/// An issued credential, identified by `cert_id`.
///
/// Dates are whole seconds since the Unix epoch, in UTC.
#[derive(Clone, Copy, Debug, PartialEq, Eq)]
pub struct Certificate<'a> {
    pub cert_id: &'a str,
    pub recipient_name: &'a str,
    pub issuing_institution: &'a str,
    pub course_name: &'a str,
    pub issue_date: i64,
    pub expiry_date: i64,
}

/// The mathematical value of a [`Certificate`].
pub ghost struct CertificateView {
    pub cert_id: Seq<char>,
    pub recipient_name: Seq<char>,
    pub issuing_institution: Seq<char>,
    pub course_name: Seq<char>,
    pub issue_date: i64,
    pub expiry_date: i64,
}

impl CertificateView {
    /// The certificate does not expire before it is issued.
    pub open spec fn dates_ordered(self) -> bool {
        self.issue_date <= self.expiry_date
    }

    /// Every text field holds some text, and the dates are in order.
    pub open spec fn well_formed(self) -> bool {
        &&& self.cert_id.len() > 0
        &&& self.recipient_name.len() > 0
        &&& self.issuing_institution.len() > 0
        &&& self.course_name.len() > 0
        &&& self.dates_ordered()
    }
}

impl<'a> View for Certificate<'a> {
    type V = CertificateView;

    open spec fn view(&self) -> CertificateView {
        CertificateView {
            cert_id: self.cert_id@,
            recipient_name: self.recipient_name@,
            issuing_institution: self.issuing_institution@,
            course_name: self.course_name@,
            issue_date: self.issue_date,
            expiry_date: self.expiry_date,
        }
    }
}

impl<'a> Certificate<'a> {
    /// Whether the issue date is no later than the expiry date.
    pub fn dates_ordered(&self) -> (ordered: bool)
        ensures
            ordered == self@.dates_ordered(),
    {
        self.issue_date <= self.expiry_date
    }

    /// Whether every text field holds some text and the dates are in order.
    ///
    /// Filling in the text is up to whoever makes the certificate: minting
    /// looks at the dates only.
    pub fn is_well_formed(&self) -> (well_formed: bool)
        ensures
            well_formed == self@.well_formed(),
    {
        !self.cert_id.is_empty() && !self.recipient_name.is_empty()
            && !self.issuing_institution.is_empty() && !self.course_name.is_empty()
            && self.dates_ordered()
    }

    /// Whether the two certificates agree in every field.
    pub fn same_as(&self, other: &Certificate) -> (same: bool)
        ensures
            same == (self@ == other@),
    {
        same_text(self.cert_id, other.cert_id) && same_text(
            self.recipient_name,
            other.recipient_name,
        ) && same_text(self.issuing_institution, other.issuing_institution) && same_text(
            self.course_name,
            other.course_name,
        ) && self.issue_date == other.issue_date && self.expiry_date == other.expiry_date
    }
}

} // verus!
