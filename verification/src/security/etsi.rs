//! Classification of signatures against the ETSI signature profiles (CAdES, RFC 3161
//! time-stamps and PAdES long-term validation).

use crate::security::{
    make_result, push_result, results_view, DigitalSignature, SignatureType, SignatureValidity,
    ValidationResult, ValidationStatus,
};
use crate::text::{append_decimal, concat_str, decimal};
use vstd::prelude::*;

verus! {

/// A result as its check type, status and message.
pub type ResultView = (Seq<char>, ValidationStatus, Seq<char>);

/// Options of the profile validation.
#[derive(Debug, Clone)]
pub struct EtsiValidationOptions {
    pub require_dss_for_pades: bool,
}

impl Default for EtsiValidationOptions {
    fn default() -> (r: Self)
        ensures
            !r.require_dss_for_pades,
    {
        EtsiValidationOptions { require_dss_for_pades: false }
    }
}

/// The signature kinds that may form a PAdES baseline signature.
pub open spec fn is_pades_type(t: SignatureType) -> bool {
    t is AdbePkcs7Detached || t is AdbePkcs7Sha1 || t is AdbeX509RsaSha1
}

/// How many of the signatures satisfy `p`.
pub open spec fn count_signatures(sigs: Seq<DigitalSignature>, p: spec_fn(SignatureType) -> bool) -> nat
    decreases sigs.len(),
{
    if sigs.len() == 0 {
        0
    } else {
        count_signatures(sigs.drop_last(), p) + if p(sigs.last().signature_type) {
            1nat
        } else {
            0nat
        }
    }
}

/// The result for a signature checked against the profile `label`.
pub open spec fn signature_result(sig: DigitalSignature, label: Seq<char>) -> ResultView {
    match sig.validity {
        SignatureValidity::Valid => (label, ValidationStatus::Pass, label + " signature valid"@),
        SignatureValidity::Invalid(msg) => (
            label,
            ValidationStatus::Fail,
            label + " signature invalid: "@ + msg@,
        ),
        SignatureValidity::Unknown(msg) => (
            label,
            ValidationStatus::Warning,
            label + " signature unknown: "@ + msg@,
        ),
    }
}

/// The result for an RFC 3161 time-stamp signature.
pub open spec fn timestamp_result(sig: DigitalSignature) -> ResultView {
    match sig.timestamp {
        Some(ts) => if ts.signature_valid {
            ("ETSI:RFC3161"@, ValidationStatus::Pass, "RFC3161 timestamp valid"@)
        } else {
            ("ETSI:RFC3161"@, ValidationStatus::Fail, "RFC3161 timestamp invalid"@)
        },
        None => ("ETSI:RFC3161"@, ValidationStatus::Warning, "RFC3161 timestamp not present"@),
    }
}

/// The results that the signatures give one by one, in order.
pub open spec fn per_signature_results(sigs: Seq<DigitalSignature>) -> Seq<ResultView>
    decreases sigs.len(),
{
    if sigs.len() == 0 {
        seq![]
    } else {
        let sig = sigs.last();
        per_signature_results(sigs.drop_last()) + match sig.signature_type {
            SignatureType::EtsiCadEsDetached => seq![signature_result(sig, "ETSI:CAdES"@)],
            SignatureType::EtsiRfc3161 => seq![timestamp_result(sig)],
            _ => seq![],
        }
    }
}

/// The summary result for `n` PAdES candidates.
pub open spec fn pades_result(n: nat, has_dss: bool, require_dss: bool) -> ResultView {
    let status = if require_dss && !has_dss {
        ValidationStatus::Fail
    } else if !has_dss {
        ValidationStatus::Warning
    } else {
        ValidationStatus::Pass
    };
    let message = if has_dss {
        "PAdES signatures detected: "@ + decimal(n) + " with DSS present"@
    } else {
        "PAdES signatures detected: "@ + decimal(n) + " without DSS"@
    };
    ("ETSI:PAdES-LTV"@, status, message)
}

/// The results of validating `sigs` against the ETSI profiles.
pub open spec fn etsi_results(sigs: Seq<DigitalSignature>, has_dss: bool, require_dss: bool) -> Seq<
    ResultView,
> {
    let cades = count_signatures(sigs, |t: SignatureType| t is EtsiCadEsDetached);
    let rfc3161 = count_signatures(sigs, |t: SignatureType| t is EtsiRfc3161);
    let pades = count_signatures(sigs, |t: SignatureType| is_pades_type(t));
    per_signature_results(sigs) + (if pades > 0 {
        seq![pades_result(pades, has_dss, require_dss)]
    } else {
        seq![]
    }) + (if cades == 0 && rfc3161 == 0 && pades == 0 {
        seq![
            (
                "ETSI:Profiles"@,
                ValidationStatus::Warning,
                "No ETSI/PAdES signatures detected"@,
            ),
        ]
    } else {
        seq![]
    })
}

/// Validates the signatures against the ETSI profiles: one result per CAdES signature and
/// per RFC 3161 time-stamp, one for the PAdES candidates, and a warning when there is none.
pub fn validate_etsi_profiles(
    signatures: &[DigitalSignature],
    has_dss: bool,
    options: EtsiValidationOptions,
) -> (r: Vec<ValidationResult>)
    ensures
        results_view(r@) == etsi_results(signatures@, has_dss, options.require_dss_for_pades),
{
    let mut results: Vec<ValidationResult> = Vec::new();
    let mut cades_found: usize = 0;
    let mut pades_found: usize = 0;
    let mut rfc3161_found: usize = 0;
    let n = signatures.len();
    let mut i: usize = 0;
    while i < n
        invariant
            n == signatures@.len(),
            i <= n,
            results_view(results@) == per_signature_results(signatures@.subrange(0, i as int)),
            cades_found == count_signatures(
                signatures@.subrange(0, i as int),
                |t: SignatureType| t is EtsiCadEsDetached,
            ),
            rfc3161_found == count_signatures(
                signatures@.subrange(0, i as int),
                |t: SignatureType| t is EtsiRfc3161,
            ),
            pades_found == count_signatures(
                signatures@.subrange(0, i as int),
                |t: SignatureType| is_pades_type(t),
            ),
            cades_found + rfc3161_found + pades_found == i,
        decreases n - i,
    {
        let sig = &signatures[i];
        let ghost prefix = signatures@.subrange(0, i as int);
        let ghost next = signatures@.subrange(0, i + 1);
        assert(next.drop_last() =~= prefix);
        assert(next.last() == *sig);
        match sig.signature_type {
            SignatureType::EtsiCadEsDetached => {
                cades_found += 1;
                push_result(&mut results, result_for_signature(sig, "ETSI:CAdES"));
            },
            SignatureType::EtsiRfc3161 => {
                rfc3161_found += 1;
                push_result(&mut results, result_for_timestamp(sig));
            },
            SignatureType::AdbePkcs7Detached
            | SignatureType::AdbePkcs7Sha1
            | SignatureType::AdbeX509RsaSha1 => {
                pades_found += 1;
            },
        }
        i += 1;
    }
    let ghost sigs = signatures@;
    assert(sigs.subrange(0, n as int) =~= sigs);
    let ghost before_pades = results_view(results@);
    if pades_found > 0 {
        let status = if options.require_dss_for_pades && !has_dss {
            ValidationStatus::Fail
        } else if !has_dss {
            ValidationStatus::Warning
        } else {
            ValidationStatus::Pass
        };
        let mut message = "PAdES signatures detected: ".to_string();
        append_decimal(&mut message, pades_found as u64);
        if has_dss {
            message.append(" with DSS present");
        } else {
            message.append(" without DSS");
        }
        push_result(&mut results, make_result("ETSI:PAdES-LTV", status, message));
    }
    assert(results_view(results@) == before_pades + (if pades_found > 0 {
        seq![pades_result(pades_found as nat, has_dss, options.require_dss_for_pades)]
    } else {
        seq![]
    }));
    let ghost before_none = results_view(results@);
    if cades_found == 0 && rfc3161_found == 0 && pades_found == 0 {
        push_result(
            &mut results,
            make_result(
                "ETSI:Profiles",
                ValidationStatus::Warning,
                "No ETSI/PAdES signatures detected".to_string(),
            ),
        );
    }
    assert(results_view(results@) =~= etsi_results(sigs, has_dss, options.require_dss_for_pades));
    results
}

/// The result for a signature checked against the profile `label`.
fn result_for_signature(sig: &DigitalSignature, label: &str) -> (r: ValidationResult)
    ensures
        r.view_triple() == signature_result(*sig, label@),
{
    match &sig.validity {
        SignatureValidity::Valid => make_result(
            label,
            ValidationStatus::Pass,
            concat_str(label, " signature valid"),
        ),
        SignatureValidity::Invalid(msg) => {
            let mut m = concat_str(label, " signature invalid: ");
            m.append(msg.as_str());
            make_result(label, ValidationStatus::Fail, m)
        },
        SignatureValidity::Unknown(msg) => {
            let mut m = concat_str(label, " signature unknown: ");
            m.append(msg.as_str());
            make_result(label, ValidationStatus::Warning, m)
        },
    }
}

/// The result for an RFC 3161 time-stamp signature.
fn result_for_timestamp(sig: &DigitalSignature) -> (r: ValidationResult)
    ensures
        r.view_triple() == timestamp_result(*sig),
{
    if let Some(ts) = &sig.timestamp {
        let status = if ts.signature_valid {
            ValidationStatus::Pass
        } else {
            ValidationStatus::Fail
        };
        let message = if ts.signature_valid {
            "RFC3161 timestamp valid".to_string()
        } else {
            "RFC3161 timestamp invalid".to_string()
        };
        return make_result("ETSI:RFC3161", status, message);
    }
    make_result(
        "ETSI:RFC3161",
        ValidationStatus::Warning,
        "RFC3161 timestamp not present".to_string(),
    )
}

/// A signature that satisfies `p` makes the count positive.
proof fn lemma_count_positive(sigs: Seq<DigitalSignature>, p: spec_fn(SignatureType) -> bool, i: int)
    requires
        0 <= i < sigs.len(),
        p(sigs[i].signature_type),
    ensures
        count_signatures(sigs, p) > 0,
    decreases sigs.len(),
{
    if i < sigs.len() - 1 {
        lemma_count_positive(sigs.drop_last(), p, i);
    }
}

/// When a PAdES signature is present, DSS is required and the document has none, the
/// validation reports a failure.
pub proof fn lemma_pades_without_required_dss_fails(sigs: Seq<DigitalSignature>, i: int)
    requires
        0 <= i < sigs.len(),
        is_pades_type(sigs[i].signature_type),
    ensures
        exists|j: int|
            0 <= j < etsi_results(sigs, false, true).len() && (#[trigger] etsi_results(
                sigs,
                false,
                true,
            )[j]).1 == ValidationStatus::Fail,
{
    lemma_count_positive(sigs, |t: SignatureType| is_pades_type(t), i);
    let per = per_signature_results(sigs);
    let j = per.len() as int;
    assert(etsi_results(sigs, false, true)[j].1 == ValidationStatus::Fail);
}

} // verus!
