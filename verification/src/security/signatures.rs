//! Signature containers: recognising their format and reading PDF dates.

use crate::security::{
    CertificateInfo as SignerCertificate, DigitalSignature, SignatureType, SignatureValidity,
    TimestampDetails,
};
use crate::text::{push_char, str_eq};
use crate::utf8_bounds::{lemma_ascii_prefix_boundary, lemma_boundary_in_suffix};
use vstd::prelude::*;
use vstd::string::StringSliceAdditionalSpecFns;
use vstd::utf8::{decode_utf8, encode_utf8, encode_utf8_decode_utf8, is_char_boundary};

verus! {

/// Verifies signature containers.
pub struct SignatureVerifier;

/// The outcome of verifying a signature.
#[derive(Debug, Clone)]
pub struct SignatureVerificationResult {
    pub is_valid: bool,
    pub error: Option<String>,
    pub certificate_chain: Vec<CertificateInfo>,
    pub signing_time: Option<String>,
    pub timestamp_info: Option<TimestampInfo>,
}

/// What could be read from a signature container.
#[derive(Debug, Clone)]
pub struct SignatureInfo {
    pub format: SignatureFormat,
    pub algorithm: String,
    pub signer_info: Option<SignerInfo>,
    pub certificates: Vec<CertificateInfo>,
    pub timestamp: Option<TimestampInfo>,
}

/// The format of a signature container.
#[derive(Debug, Clone, Copy, PartialEq, Eq, Structural)]
pub enum SignatureFormat {
    PKCS7,
    X509,
    CAdES,
    PAdES,
}

/// The signer of a signature.
#[derive(Debug, Clone)]
pub struct SignerInfo {
    pub issuer: String,
    pub serial_number: String,
    pub digest_algorithm: String,
    pub signature_algorithm: String,
}

/// A certificate in a signature's chain.
#[derive(Debug, Clone)]
pub struct CertificateInfo {
    pub subject: String,
    pub issuer: String,
    pub serial_number: String,
    pub not_before: String,
    pub not_after: String,
    pub public_key_algorithm: String,
    pub signature_algorithm: String,
    pub key_usage: Vec<String>,
    pub extended_key_usage: Vec<String>,
}

/// A time-stamp attached to a signature.
#[derive(Debug, Clone)]
pub struct TimestampInfo {
    pub timestamp_authority: String,
    pub timestamp: String,
    pub hash_algorithm: String,
    pub is_valid: bool,
}

/// The contents begin like a DER `SEQUENCE` of the kind that holds PKCS#7 data: `30 82` or
/// `30 80`.
pub open spec fn has_pkcs7_magic(contents: Seq<u8>) -> bool {
    contents.len() >= 2 && contents[0] == 0x30 && (contents[1] == 0x82 || contents[1] == 0x80)
}

impl SignatureVerifier {
    /// X.509 verification needs more context than the contents and the signed data, so it
    /// always reports an invalid signature.
    pub fn verify_x509_signature(_contents: &[u8], _signed_data: &[u8]) -> (r:
        SignatureVerificationResult)
        ensures
            !r.is_valid,
            r.error matches Some(e) && e@
                == "X.509 verification requires certificate and data context"@,
            r.certificate_chain@.len() == 0,
            r.signing_time is None,
            r.timestamp_info is None,
    {
        SignatureVerificationResult {
            is_valid: false,
            error: Some("X.509 verification requires certificate and data context".to_string()),
            certificate_chain: Vec::new(),
            signing_time: None,
            timestamp_info: None,
        }
    }

    /// Recognises the format of signature contents.
    pub fn extract_signature_info(contents: &[u8]) -> (r: Result<SignatureInfo, String>)
        ensures
            contents@.len() < 10 ==> (r matches Err(e) && e@ == "Signature contents too short"@),
            contents@.len() >= 10 && !has_pkcs7_magic(contents@) ==> (r matches Err(e) && e@
                == "Unknown signature format"@),
            contents@.len() >= 10 && has_pkcs7_magic(contents@) ==> (r matches Ok(info) && info.format
                == SignatureFormat::PKCS7 && info.algorithm@ == "Unknown"@ && info.signer_info is None
                && info.certificates@.len() == 0 && info.timestamp is None),
    {
        if contents.len() < 10 {
            return Err("Signature contents too short".to_string());
        }
        if contents[0] == 0x30 && (contents[1] == 0x82 || contents[1] == 0x80) {
            Ok(
                SignatureInfo {
                    format: SignatureFormat::PKCS7,
                    algorithm: "Unknown".to_string(),
                    signer_info: None,
                    certificates: Vec::new(),
                    timestamp: None,
                },
            )
        } else {
            Err("Unknown signature format".to_string())
        }
    }
}

/// The text starts with `D:`.
pub open spec fn has_date_prefix(s: Seq<char>) -> bool {
    s.len() >= 2 && s[0] == 'D' && s[1] == ':'
}

/// The byte positions at which a date `D:YYYYMMDDHHmmSS...` is cut fall on character
/// boundaries.
pub open spec fn date_cuts_on_boundaries(b: Seq<u8>) -> bool {
    &&& is_char_boundary(b, 6)
    &&& is_char_boundary(b, 8)
    &&& is_char_boundary(b, 10)
    &&& is_char_boundary(b, 12)
    &&& is_char_boundary(b, 14)
    &&& is_char_boundary(b, 16)
}

/// The text of the bytes `b[from..to]`.
pub open spec fn text_of(b: Seq<u8>, from: int, to: int) -> Seq<char> {
    decode_utf8(b.subrange(from, to))
}

/// `YYYY-MM-DD HH:mm:SS` from the UTF-8 bytes of `D:YYYYMMDDHHmmSS...`.
pub open spec fn pdf_date_text(b: Seq<u8>) -> Seq<char> {
    text_of(b, 2, 6) + seq!['-'] + text_of(b, 6, 8) + seq!['-'] + text_of(b, 8, 10) + seq![' ']
        + text_of(b, 10, 12) + seq![':'] + text_of(b, 12, 14) + seq![':'] + text_of(b, 14, 16)
}

/// Splits `s` at byte `k`, giving the text of the two parts.
fn split_text(s: &str, k: usize) -> (r: (&str, &str))
    requires
        is_char_boundary(s.spec_bytes(), k as int),
    ensures
        r.0.spec_bytes() == s.spec_bytes().subrange(0, k as int),
        r.1.spec_bytes() == s.spec_bytes().subrange(k as int, s.spec_bytes().len() as int),
        r.0@ == decode_utf8(s.spec_bytes().subrange(0, k as int)),
{
    let r = s.split_at(k);
    proof {
        encode_utf8_decode_utf8(r.0@);
    }
    r
}

/// Reads a PDF date `D:YYYYMMDDHHmmSS...` as `YYYY-MM-DD HH:mm:SS`.
pub fn parse_pdf_date(date_str: &str) -> (r: Result<String, String>)
    requires
        has_date_prefix(date_str@) && date_str.spec_bytes().len() >= 16 ==> date_cuts_on_boundaries(
            date_str.spec_bytes(),
        ),
    ensures
        !has_date_prefix(date_str@) ==> (r matches Err(e) && e@ == "Invalid PDF date format"@),
        has_date_prefix(date_str@) && date_str.spec_bytes().len() < 16 ==> (r matches Err(e) && e@
            == "PDF date too short"@),
        has_date_prefix(date_str@) && date_str.spec_bytes().len() >= 16 ==> (r matches Ok(t) && t@
            == pdf_date_text(date_str.spec_bytes())),
{
    if !(date_str.unicode_len() >= 2 && date_str.get_char(0) == 'D' && date_str.get_char(1) == ':') {
        return Err("Invalid PDF date format".to_string());
    }
    let ghost b = date_str.spec_bytes();
    proof {
        assert(vstd::utf8::is_ascii_chars(date_str@.subrange(0, 2)));
        lemma_ascii_prefix_boundary(date_str@, 2);
    }
    let (_, date_part) = split_text(date_str, 2);
    assert(date_part.spec_bytes().len() == b.len() - 2);
    if date_part.as_bytes().len() < 14 {
        return Err("PDF date too short".to_string());
    }
    proof {
        vstd::utf8::encode_utf8_valid_utf8(date_str@);
        lemma_boundary_in_suffix(b, 2, 6);
        lemma_boundary_in_suffix(b, 6, 8);
        lemma_boundary_in_suffix(b, 8, 10);
        lemma_boundary_in_suffix(b, 10, 12);
        lemma_boundary_in_suffix(b, 12, 14);
        lemma_boundary_in_suffix(b, 14, 16);
        assert(b.subrange(2, b.len() as int).subrange(4, b.len() - 2) =~= b.subrange(6, b.len() as int));
        assert(b.subrange(6, b.len() as int).subrange(2, b.len() - 6) =~= b.subrange(8, b.len() as int));
        assert(b.subrange(8, b.len() as int).subrange(2, b.len() - 8) =~= b.subrange(10, b.len() as int));
        assert(b.subrange(10, b.len() as int).subrange(2, b.len() - 10) =~= b.subrange(12, b.len() as int));
        assert(b.subrange(12, b.len() as int).subrange(2, b.len() - 12) =~= b.subrange(14, b.len() as int));
        assert(b.subrange(2, b.len() as int).subrange(0, 4) =~= b.subrange(2, 6));
        assert(b.subrange(6, b.len() as int).subrange(0, 2) =~= b.subrange(6, 8));
        assert(b.subrange(8, b.len() as int).subrange(0, 2) =~= b.subrange(8, 10));
        assert(b.subrange(10, b.len() as int).subrange(0, 2) =~= b.subrange(10, 12));
        assert(b.subrange(12, b.len() as int).subrange(0, 2) =~= b.subrange(12, 14));
        assert(b.subrange(14, b.len() as int).subrange(0, 2) =~= b.subrange(14, 16));
    }
    let (year, rest) = split_text(date_part, 4);
    let (month, rest) = split_text(rest, 2);
    let (day, rest) = split_text(rest, 2);
    let (hour, rest) = split_text(rest, 2);
    let (minute, rest) = split_text(rest, 2);
    let (second, _) = split_text(rest, 2);
    let mut out = year.to_string();
    out.append("-");
    out.append(month);
    out.append("-");
    out.append(day);
    out.append(" ");
    out.append(hour);
    out.append(":");
    out.append(minute);
    out.append(":");
    out.append(second);
    proof {
        reveal_strlit("-");
        reveal_strlit(" ");
        reveal_strlit(":");
    }
    assert(out@ =~= pdf_date_text(b));
    Ok(out)
}


/// The kind of signature a `/SubFilter` value names; an unknown value counts as a detached
/// PKCS#7 signature.
pub open spec fn signature_type_for(sub_filter: Seq<char>) -> SignatureType {
    if sub_filter == "adbe.pkcs7.detached"@ {
        SignatureType::AdbePkcs7Detached
    } else if sub_filter == "adbe.pkcs7.sha1"@ {
        SignatureType::AdbePkcs7Sha1
    } else if sub_filter == "adbe.x509.rsa_sha1"@ {
        SignatureType::AdbeX509RsaSha1
    } else if sub_filter == "ETSI.CAdES.detached"@ {
        SignatureType::EtsiCadEsDetached
    } else if sub_filter == "ETSI.RFC3161"@ {
        SignatureType::EtsiRfc3161
    } else {
        SignatureType::AdbePkcs7Detached
    }
}

/// The kind of signature a `/SubFilter` value names, as [`signature_type_for`] says.
pub fn signature_type_of(sub_filter: &str) -> (r: SignatureType)
    ensures
        r == signature_type_for(sub_filter@),
{
    if str_eq(sub_filter, "adbe.pkcs7.detached") {
        SignatureType::AdbePkcs7Detached
    } else if str_eq(sub_filter, "adbe.pkcs7.sha1") {
        SignatureType::AdbePkcs7Sha1
    } else if str_eq(sub_filter, "adbe.x509.rsa_sha1") {
        SignatureType::AdbeX509RsaSha1
    } else if str_eq(sub_filter, "ETSI.CAdES.detached") {
        SignatureType::EtsiCadEsDetached
    } else if str_eq(sub_filter, "ETSI.RFC3161") {
        SignatureType::EtsiRfc3161
    } else {
        SignatureType::AdbePkcs7Detached
    }
}

/// The lower-case hexadecimal digit of `d` (below 16).
pub open spec fn hex_digit(d: int) -> char {
    if d < 10 {
        (48 + d) as char
    } else {
        (87 + d) as char
    }
}

/// Two lower-case hexadecimal digits per byte, in order.
pub open spec fn hex_of(b: Seq<u8>) -> Seq<char>
    decreases b.len(),
{
    if b.len() == 0 {
        seq![]
    } else {
        hex_of(b.drop_last()) + seq![hex_digit(b.last() as int / 16), hex_digit(b.last() as int % 16)]
    }
}

/// The lower-case hexadecimal digit of `d`.
fn hex_digit_char(d: u8) -> (r: char)
    requires
        d < 16,
    ensures
        r == hex_digit(d as int),
{
    if d < 10 {
        (48 + d) as char
    } else {
        (87 + d) as char
    }
}

/// The bytes in lower-case hexadecimal, two digits each.
pub fn bytes_to_hex(bytes: &[u8]) -> (r: String)
    ensures
        r@ == hex_of(bytes@),
{
    let mut out = String::new();
    let mut i: usize = 0;
    while i < bytes.len()
        invariant
            i <= bytes@.len(),
            out@ == hex_of(bytes@.subrange(0, i as int)),
        decreases bytes@.len() - i,
    {
        let b = bytes[i];
        push_char(&mut out, hex_digit_char(b / 16));
        push_char(&mut out, hex_digit_char(b % 16));
        assert(bytes@.subrange(0, i + 1).drop_last() =~= bytes@.subrange(0, i as int));
        assert(out@ =~= hex_of(bytes@.subrange(0, i + 1)));
        i += 1;
    }
    assert(bytes@.subrange(0, i as int) =~= bytes@);
    out
}

/// What is known of a signature's signer: the certificate's subject and issuer, its serial
/// number, its validity period as text, and its key usages.
#[derive(Debug, Clone)]
pub struct SignerRecord {
    pub subject: String,
    pub issuer: String,
    pub serial_number: Vec<u8>,
    pub not_before: String,
    pub not_after: String,
    pub key_usage: Vec<String>,
}

/// What verification found of one signature field, with its times already rendered as text
/// and its validity already classified.
#[derive(Debug, Clone)]
pub struct SignatureRecord {
    pub field_name: String,
    pub filter: String,
    pub sub_filter: String,
    pub signer: SignerRecord,
    pub signing_time: Option<String>,
    pub validity: SignatureValidity,
    pub location: Option<String>,
    pub reason: Option<String>,
    pub contact_info: Option<String>,
    pub timestamp: Option<TimestampDetails>,
}

/// The certificate details a signature reports: none when the signer has neither subject
/// nor issuer; otherwise its issuer, subject, serial number in hexadecimal, validity period,
/// key usages, and the signature's filter as algorithm.
pub open spec fn certificate_for(
    info: SignatureRecord,
    c: Option<SignerCertificate>,
) -> bool {
    if info.signer.subject@.len() == 0 && info.signer.issuer@.len() == 0 {
        c is None
    } else {
        c matches Some(c) && c.issuer == info.signer.issuer && c.subject == info.signer.subject
            && c.serial_number@ == hex_of(info.signer.serial_number@) && c.valid_from
            == info.signer.not_before && c.valid_to == info.signer.not_after && c.key_usage
            == info.signer.key_usage && c.algorithm == info.filter
    }
}

/// The digital signature that a verified signature field reports: its field name, the kind
/// its sub-filter names, its signer's subject when there is one, its certificate details,
/// and its signing time, validity, location, reason, contact and time-stamp as they are.
pub fn to_digital_signature(info: SignatureRecord) -> (r: DigitalSignature)
    ensures
        r.field_name == info.field_name,
        r.signature_type == signature_type_for(info.sub_filter@),
        r.signer == if info.signer.subject@.len() == 0 {
            None
        } else {
            Some(info.signer.subject)
        },
        certificate_for(info, r.certificate_info),
        r.signing_time == info.signing_time,
        r.validity == info.validity,
        r.location == info.location,
        r.reason == info.reason,
        r.contact_info == info.contact_info,
        r.timestamp == info.timestamp,
{
    let signature_type = signature_type_of(info.sub_filter.as_str());
    let no_subject = info.signer.subject.as_str().unicode_len() == 0;
    let no_issuer = info.signer.issuer.as_str().unicode_len() == 0;
    let signer = if no_subject {
        None
    } else {
        Some(info.signer.subject.clone())
    };
    let certificate_info = if no_subject && no_issuer {
        None
    } else {
        Some(
            SignerCertificate {
                issuer: info.signer.issuer,
                subject: info.signer.subject,
                serial_number: bytes_to_hex(info.signer.serial_number.as_slice()),
                valid_from: info.signer.not_before,
                valid_to: info.signer.not_after,
                key_usage: info.signer.key_usage,
                algorithm: info.filter,
            },
        )
    };
    DigitalSignature {
        field_name: info.field_name,
        signature_type,
        signer,
        signing_time: info.signing_time,
        certificate_info,
        validity: info.validity,
        location: info.location,
        reason: info.reason,
        contact_info: info.contact_info,
        timestamp: info.timestamp,
    }
}
} // verus!
