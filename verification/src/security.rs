//! Security analysis of PDF files: polyglot detection, structural heuristics, signature
//! profiles and producer quirks.

pub mod etsi;
pub mod hardening;
pub mod heuristics;
pub mod ltv;
pub mod polyglot;
pub mod quirks;
pub mod report_output;
pub mod signatures;
pub mod sanitizer;
pub mod validator;

use vstd::prelude::*;

verus! {

/// Outcome of one security check.
#[derive(Debug, Clone, Copy, PartialEq, Eq, Structural)]
pub enum ValidationStatus {
    Pass,
    Warning,
    Fail,
}

/// Result of one security check.
#[derive(Debug, Clone)]
pub struct ValidationResult {
    pub check_type: String,
    pub status: ValidationStatus,
    pub message: String,
}

impl ValidationResult {
    /// The result as its check type, status and message.
    pub open spec fn view_triple(&self) -> (Seq<char>, ValidationStatus, Seq<char>) {
        (self.check_type@, self.status, self.message@)
    }
}

/// The view of a list of results.
pub open spec fn results_view(v: Seq<ValidationResult>) -> Seq<(Seq<char>, ValidationStatus, Seq<char>)> {
    v.map_values(|r: ValidationResult| r.view_triple())
}

/// A result with the given check type, status and message.
pub fn make_result(check_type: &str, status: ValidationStatus, message: String) -> (r: ValidationResult)
    ensures
        r.view_triple() == (check_type@, status, message@),
{
    ValidationResult { check_type: check_type.to_string(), status, message }
}

/// Appends `r` to `results`.
pub fn push_result(results: &mut Vec<ValidationResult>, r: ValidationResult)
    ensures
        results_view(final(results)@) == results_view(old(results)@).push(r.view_triple()),
{
    results.push(r);
    assert(results_view(results@) =~= results_view(old(results)@).push(r.view_triple()));
}

/// The sub-filter a signature was made with.
#[derive(Debug, Clone, Copy, PartialEq, Eq, Structural)]
pub enum SignatureType {
    AdbePkcs7Detached,
    AdbePkcs7Sha1,
    AdbeX509RsaSha1,
    EtsiCadEsDetached,
    EtsiRfc3161,
}

/// Whether a signature verified.
#[derive(Debug, Clone)]
pub enum SignatureValidity {
    Valid,
    Invalid(String),
    Unknown(String),
}

/// The certificate of a signer.
#[derive(Debug, Clone)]
pub struct CertificateInfo {
    pub issuer: String,
    pub subject: String,
    pub serial_number: String,
    pub valid_from: String,
    pub valid_to: String,
    pub key_usage: Vec<String>,
    pub algorithm: String,
}

/// The time-stamp token attached to a signature.
#[derive(Debug, Clone)]
pub struct TimestampDetails {
    pub time: Option<String>,
    pub policy_oid: Option<String>,
    pub hash_algorithm: Option<String>,
    pub signature_valid: bool,
    pub tsa_chain_valid: Option<bool>,
    pub tsa_pin_valid: Option<bool>,
    pub tsa_revocation_events: Vec<String>,
}

/// A digital signature found in a document.
#[derive(Debug, Clone)]
pub struct DigitalSignature {
    pub field_name: String,
    pub signature_type: SignatureType,
    pub signer: Option<String>,
    pub signing_time: Option<String>,
    pub certificate_info: Option<CertificateInfo>,
    pub validity: SignatureValidity,
    pub location: Option<String>,
    pub reason: Option<String>,
    pub contact_info: Option<String>,
    pub timestamp: Option<TimestampDetails>,
}

} // verus!
