//! Recognition of producers whose files have known peculiarities.

use crate::security::{make_result, push_result, results_view, ValidationResult, ValidationStatus};
use crate::text::{concat_str, contains_text, text_contains};
use vstd::prelude::*;

verus! {

/// What `str::to_lowercase` gives for the text `s` (Unicode lower-case mapping).
pub uninterp spec fn lowercase(s: Seq<char>) -> Seq<char>;

/// `str::to_lowercase`: the text in lower case, as Unicode maps each character.
#[verifier::external_body]
pub(crate) fn to_lowercase(s: &str) -> (r: String)
    ensures
        r@ == lowercase(s@),
{
    s.to_lowercase()
}

/// The text examined: producer and creator (empty when missing) joined by a space, in
/// lower case.
pub open spec fn producer_text(producer: Option<Seq<char>>, creator: Option<Seq<char>>) -> Seq<char> {
    lowercase(
        match producer {
            Some(p) => p,
            None => seq![],
        } + seq![' '] + match creator {
            Some(c) => c,
            None => seq![],
        },
    )
}

/// A result as its check type, status and message.
pub type ResultView = (Seq<char>, ValidationStatus, Seq<char>);

/// `r` as a list of one result when `cond` holds, or none.
pub open spec fn when(cond: bool, r: ResultView) -> Seq<ResultView> {
    if cond {
        seq![r]
    } else {
        seq![]
    }
}

/// The quirk warnings for the examined text.
pub open spec fn quirk_results(t: Seq<char>) -> Seq<ResultView> {
    when(
        text_contains(t, "adobe"@),
        (
            "Quirk:Adobe"@,
            ValidationStatus::Warning,
            "Adobe producer/creator detected; consider Adobe-specific quirks"@,
        ),
    ) + when(
        text_contains(t, "apple"@) || text_contains(t, "quartz"@) || text_contains(t, "mac os x"@),
        (
            "Quirk:Apple"@,
            ValidationStatus::Warning,
            "Apple/Quartz producer detected; Preview-specific quirks possible"@,
        ),
    ) + when(
        text_contains(t, "mupdf"@),
        (
            "Quirk:MuPDF"@,
            ValidationStatus::Warning,
            "MuPDF producer detected; nonstandard object streams possible"@,
        ),
    ) + when(
        text_contains(t, "ghostscript"@),
        (
            "Quirk:Ghostscript"@,
            ValidationStatus::Warning,
            "Ghostscript producer detected; optional entries may be omitted"@,
        ),
    )
}

/// The text of an optional string slice.
pub open spec fn opt_text(s: Option<&str>) -> Option<Seq<char>> {
    match s {
        Some(t) => Some(t@),
        None => None,
    }
}

/// Warnings for the producers (Adobe, Apple/Quartz, MuPDF, Ghostscript) named in the
/// document's producer and creator.
pub fn detect_producer_quirks(producer: Option<&str>, creator: Option<&str>) -> (r: Vec<
    ValidationResult,
>)
    ensures
        results_view(r@) == quirk_results(producer_text(opt_text(producer), opt_text(creator))),
{
    let p = match producer {
        Some(s) => s,
        None => "",
    };
    let c = match creator {
        Some(s) => s,
        None => "",
    };
    let mut joined = concat_str(p, " ");
    joined.append(c);
    proof {
        reveal_strlit("");
        reveal_strlit(" ");
    }
    assert(joined@ =~= match opt_text(producer) {
        Some(x) => x,
        None => seq![],
    } + seq![' '] + match opt_text(creator) {
        Some(x) => x,
        None => seq![],
    });
    let combined = to_lowercase(joined.as_str());
    let ghost t = combined@;
    let mut results: Vec<ValidationResult> = Vec::new();
    if contains_text(combined.as_str(), "adobe") {
        push_result(
            &mut results,
            make_result(
                "Quirk:Adobe",
                ValidationStatus::Warning,
                "Adobe producer/creator detected; consider Adobe-specific quirks".to_string(),
            ),
        );
    }
    let ghost r1 = results_view(results@);
    if contains_text(combined.as_str(), "apple") || contains_text(combined.as_str(), "quartz")
        || contains_text(combined.as_str(), "mac os x") {
        push_result(
            &mut results,
            make_result(
                "Quirk:Apple",
                ValidationStatus::Warning,
                "Apple/Quartz producer detected; Preview-specific quirks possible".to_string(),
            ),
        );
    }
    let ghost r2 = results_view(results@);
    if contains_text(combined.as_str(), "mupdf") {
        push_result(
            &mut results,
            make_result(
                "Quirk:MuPDF",
                ValidationStatus::Warning,
                "MuPDF producer detected; nonstandard object streams possible".to_string(),
            ),
        );
    }
    let ghost r3 = results_view(results@);
    if contains_text(combined.as_str(), "ghostscript") {
        push_result(
            &mut results,
            make_result(
                "Quirk:Ghostscript",
                ValidationStatus::Warning,
                "Ghostscript producer detected; optional entries may be omitted".to_string(),
            ),
        );
    }
    assert(results_view(results@) =~= quirk_results(t));
    results
}

} // verus!
