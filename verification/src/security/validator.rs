//! Checking PDF values against security limits: sizes, nesting, forbidden keys and object
//! types, suspicious patterns in strings, scripts, form fields and annotations.

use crate::plugins::texts;
use crate::security::hardening::SecurityViolation;
use crate::text::str_eq;
use crate::types::{ObjectId, PdfValue};
use vstd::prelude::*;
use vstd::string::StringSliceAdditionalSpecFns;
use vstd::utf8::encode_utf8;

verus! {

/// Whether the regular expression `p` matches somewhere in `t`, as the regex crate decides;
/// `None` when `p` is not an expression it accepts.
pub uninterp spec fn regex_match(p: Seq<char>, t: Seq<char>) -> Option<bool>;

/// regex's `Regex::new(p)`, then `is_match(t)` on the expression it builds (which holds
/// exactly when `find(t)` finds a match). The answer depends on the pattern and the text
/// alone and is named `regex_match`; `None` when the pattern is refused.
#[verifier::external_body]
pub(crate) fn regex_is_match(p: &str, t: &str) -> (r: Option<bool>)
    ensures
        r == regex_match(p@, t@),
{
    match regex::Regex::new(p) {
        Ok(re) => Some(re.is_match(t)),
        Err(_) => None,
    }
}

/// Limits that a document's values are checked against.
#[derive(Debug, Clone)]
pub struct SecurityLimits {
    pub max_string_length: usize,
    pub max_array_size: usize,
    pub max_dictionary_size: usize,
    pub max_stream_size: usize,
    pub max_nesting_depth: usize,
    pub max_reference_count: usize,
    /// Object types (names without their slash) that are refused.
    pub forbidden_types: Vec<String>,
    /// Dictionary keys that are refused.
    pub forbidden_keys: Vec<String>,
    /// Regular expressions that no string may match.
    pub forbidden_patterns: Vec<String>,
    pub validate_javascript: bool,
    pub validate_forms: bool,
    pub validate_annotations: bool,
    pub max_pages: usize,
    pub max_file_size: usize,
}

/// The object types refused by default.
pub open spec fn default_forbidden_types() -> Seq<Seq<char>> {
    seq!["Launch"@, "ImportData"@, "JavaScript"@, "ResetForm"@, "SubmitForm"@]
}

/// The dictionary keys refused by default.
pub open spec fn default_forbidden_keys() -> Seq<Seq<char>> {
    seq!["JS"@, "JavaScript"@, "Launch"@, "URI"@]
}

/// The patterns refused by default: script words, file-system paths, network addresses.
pub open spec fn default_forbidden_patterns() -> Seq<Seq<char>> {
    seq![
        "(?i)(javascript|eval|function|var|let|const)"@,
        "(?i)(\\.\\.[\\\\/]|file://|[a-z]:\\\\)"@,
        "(?i)(https?://|ftp://|ldap://)"@,
    ]
}

/// The object types that the strict limits refuse besides the default ones.
pub open spec fn strict_extra_types() -> Seq<Seq<char>> {
    seq!["GoTo"@, "GoToR"@, "Movie"@, "Sound"@, "Rendition"@]
}

/// The strings of `items`, each as an owned string.
fn owned(items: &[&str]) -> (r: Vec<String>)
    ensures
        texts(r@) == items@.map_values(|s: &str| s@),
{
    let mut v: Vec<String> = Vec::new();
    let mut i: usize = 0;
    while i < items.len()
        invariant
            i <= items@.len(),
            v@.len() == i,
            forall|j: int| 0 <= j < i ==> #[trigger] v@[j]@ == items@[j]@,
        decreases items@.len() - i,
    {
        let s: &str = items[i];
        v.push(s.to_owned());
        i += 1;
    }
    assert(texts(v@) =~= items@.map_values(|s: &str| s@));
    v
}

impl SecurityLimits {
    /// The limits with the given numbers and switches and the default lists.
    fn with_default_lists(
        max_string_length: usize,
        max_array_size: usize,
        max_dictionary_size: usize,
        max_stream_size: usize,
        max_nesting_depth: usize,
        max_reference_count: usize,
        validate: bool,
        max_pages: usize,
        max_file_size: usize,
    ) -> (r: Self)
        ensures
            r.max_string_length == max_string_length,
            r.max_array_size == max_array_size,
            r.max_dictionary_size == max_dictionary_size,
            r.max_stream_size == max_stream_size,
            r.max_nesting_depth == max_nesting_depth,
            r.max_reference_count == max_reference_count,
            r.validate_javascript == validate,
            r.validate_forms == validate,
            r.validate_annotations == validate,
            r.max_pages == max_pages,
            r.max_file_size == max_file_size,
            texts(r.forbidden_types@) == default_forbidden_types(),
            texts(r.forbidden_keys@) == default_forbidden_keys(),
            texts(r.forbidden_patterns@) == default_forbidden_patterns(),
    {
        let types = owned(&["Launch", "ImportData", "JavaScript", "ResetForm", "SubmitForm"]);
        let keys = owned(&["JS", "JavaScript", "Launch", "URI"]);
        let patterns = owned(
            &[
                "(?i)(javascript|eval|function|var|let|const)",
                "(?i)(\\.\\.[\\\\/]|file://|[a-z]:\\\\)",
                "(?i)(https?://|ftp://|ldap://)",
            ],
        );
        assert(texts(types@) =~= default_forbidden_types());
        assert(texts(keys@) =~= default_forbidden_keys());
        assert(texts(patterns@) =~= default_forbidden_patterns());
        SecurityLimits {
            max_string_length,
            max_array_size,
            max_dictionary_size,
            max_stream_size,
            max_nesting_depth,
            max_reference_count,
            forbidden_types: types,
            forbidden_keys: keys,
            forbidden_patterns: patterns,
            validate_javascript: validate,
            validate_forms: validate,
            validate_annotations: validate,
            max_pages,
            max_file_size,
        }
    }

    /// Lax limits: larger sizes, and no checks of scripts, forms or annotations.
    pub fn permissive() -> (r: Self)
        ensures
            r.max_string_length == 10_000_000,
            r.max_array_size == 1_000_000,
            r.max_dictionary_size == 100_000,
            r.max_stream_size == 500_000_000,
            r.max_nesting_depth == 200,
            r.max_reference_count == 10_000_000,
            !r.validate_javascript,
            !r.validate_forms,
            !r.validate_annotations,
            r.max_pages == 100_000,
            r.max_file_size == 1_000_000_000,
            texts(r.forbidden_types@) == default_forbidden_types(),
            texts(r.forbidden_keys@) == default_forbidden_keys(),
            texts(r.forbidden_patterns@) == default_forbidden_patterns(),
    {
        Self::with_default_lists(
            10_000_000,
            1_000_000,
            100_000,
            500_000_000,
            200,
            10_000_000,
            false,
            100_000,
            1_000_000_000,
        )
    }

    /// Tight limits: smaller sizes, and navigation and media actions refused as well.
    pub fn strict() -> (r: Self)
        ensures
            r.max_string_length == 100_000,
            r.max_array_size == 10_000,
            r.max_dictionary_size == 1_000,
            r.max_stream_size == 10_000_000,
            r.max_nesting_depth == 20,
            r.max_reference_count == 1_000_000,
            r.validate_javascript,
            r.validate_forms,
            r.validate_annotations,
            r.max_pages == 1_000,
            r.max_file_size == 10_000_000,
            texts(r.forbidden_types@) == default_forbidden_types() + strict_extra_types(),
            texts(r.forbidden_keys@) == default_forbidden_keys(),
            texts(r.forbidden_patterns@) == default_forbidden_patterns(),
    {
        let mut limits = Self::with_default_lists(
            100_000,
            10_000,
            1_000,
            10_000_000,
            20,
            1_000_000,
            true,
            1_000,
            10_000_000,
        );
        let ghost before = limits.forbidden_types@;
        limits.forbidden_types.push("GoTo".to_string());
        limits.forbidden_types.push("GoToR".to_string());
        limits.forbidden_types.push("Movie".to_string());
        limits.forbidden_types.push("Sound".to_string());
        limits.forbidden_types.push("Rendition".to_string());
        assert(texts(limits.forbidden_types@) =~= default_forbidden_types() + strict_extra_types());
        limits
    }
}

impl Default for SecurityLimits {
    /// The usual limits, with every check on.
    fn default() -> (r: Self)
        ensures
            r.max_string_length == 1_000_000,
            r.max_array_size == 100_000,
            r.max_dictionary_size == 10_000,
            r.max_stream_size == 50_000_000,
            r.max_nesting_depth == 50,
            r.max_reference_count == 1_000_000,
            r.validate_javascript,
            r.validate_forms,
            r.validate_annotations,
            r.max_pages == 10_000,
            r.max_file_size == 100_000_000,
            texts(r.forbidden_types@) == default_forbidden_types(),
            texts(r.forbidden_keys@) == default_forbidden_keys(),
            texts(r.forbidden_patterns@) == default_forbidden_patterns(),
    {
        Self::with_default_lists(
            1_000_000,
            100_000,
            10_000,
            50_000_000,
            50,
            1_000_000,
            true,
            10_000,
            100_000_000,
        )
    }
}


/// A violation as plain values.
pub enum ViolationView {
    StringTooLong(nat, nat),
    ArrayTooLarge(nat, nat),
    DictionaryTooLarge(nat, nat),
    StreamTooLarge(nat, nat),
    NestingTooDeep(nat, nat),
    TooManyReferences(nat, nat),
    ForbiddenObjectType(Seq<char>),
    ForbiddenDictionaryKey(Seq<char>),
    SuspiciousPattern(Seq<char>, Seq<char>),
    MaliciousJavaScript(Seq<char>),
    DangerousForm(Seq<char>),
    SuspiciousAnnotation(Seq<char>),
    TooManyPages(nat, nat),
    FileTooLarge(nat, nat),
}

/// A violation as plain values.
pub open spec fn violation_view(v: SecurityViolation) -> ViolationView {
    match v {
        SecurityViolation::StringTooLong(a, b) => ViolationView::StringTooLong(a as nat, b as nat),
        SecurityViolation::ArrayTooLarge(a, b) => ViolationView::ArrayTooLarge(a as nat, b as nat),
        SecurityViolation::DictionaryTooLarge(a, b) => ViolationView::DictionaryTooLarge(
            a as nat,
            b as nat,
        ),
        SecurityViolation::StreamTooLarge(a, b) => ViolationView::StreamTooLarge(a as nat, b as nat),
        SecurityViolation::NestingTooDeep(a, b) => ViolationView::NestingTooDeep(a as nat, b as nat),
        SecurityViolation::TooManyReferences(a, b) => ViolationView::TooManyReferences(
            a as nat,
            b as nat,
        ),
        SecurityViolation::ForbiddenObjectType(t) => ViolationView::ForbiddenObjectType(t@),
        SecurityViolation::ForbiddenDictionaryKey(k) => ViolationView::ForbiddenDictionaryKey(k@),
        SecurityViolation::SuspiciousPattern(p, c) => ViolationView::SuspiciousPattern(p@, c@),
        SecurityViolation::MaliciousJavaScript(s) => ViolationView::MaliciousJavaScript(s@),
        SecurityViolation::DangerousForm(d) => ViolationView::DangerousForm(d@),
        SecurityViolation::SuspiciousAnnotation(d) => ViolationView::SuspiciousAnnotation(d@),
        SecurityViolation::TooManyPages(a, b) => ViolationView::TooManyPages(a as nat, b as nat),
        SecurityViolation::FileTooLarge(a, b) => ViolationView::FileTooLarge(a as nat, b as nat),
    }
}

/// An outcome as plain values.
pub open spec fn outcome_view(r: Result<(), SecurityViolation>) -> Result<(), ViolationView> {
    match r {
        Ok(_) => Ok(()),
        Err(e) => Err(violation_view(e)),
    }
}

/// What checking remembers between values: how often each object was referred to (in the
/// order first met) and how many pages were seen.
pub type CheckState = (Seq<(ObjectId, nat)>, nat);

/// How often `id` was referred to.
pub open spec fn ref_count(refs: Seq<(ObjectId, nat)>, id: ObjectId) -> nat
    decreases refs.len(),
{
    if refs.len() == 0 {
        0
    } else if refs[0].0 == id {
        refs[0].1
    } else {
        ref_count(refs.drop_first(), id)
    }
}

/// The counts with one more reference to `id`.
pub open spec fn bump(refs: Seq<(ObjectId, nat)>, id: ObjectId) -> Seq<(ObjectId, nat)>
    decreases refs.len(),
{
    if refs.len() == 0 {
        seq![(id, 1nat)]
    } else if refs[0].0 == id {
        seq![(id, refs[0].1 + 1)] + refs.drop_first()
    } else {
        seq![refs[0]] + bump(refs.drop_first(), id)
    }
}

/// Some string of `v` has the text `t`.
pub open spec fn has_text(v: Seq<String>, t: Seq<char>) -> bool {
    exists|i: int| 0 <= i < v.len() && v[i]@ == t
}

/// The first of `patterns`, from the `i`-th on, that matches `s`.
pub open spec fn first_match(patterns: Seq<String>, s: Seq<char>, i: int) -> Option<Seq<char>>
    decreases patterns.len() - i,
{
    if i < 0 || i >= patterns.len() {
        None
    } else if regex_match(patterns[i]@, s) == Some(true) {
        Some(patterns[i]@)
    } else {
        first_match(patterns, s, i + 1)
    }
}

/// What checking a string gives: too long when its UTF-8 form has more bytes than allowed,
/// else suspicious when a forbidden pattern matches it (the first that does).
pub open spec fn string_outcome(lim: SecurityLimits, s: Seq<char>) -> Result<(), ViolationView> {
    let n = encode_utf8(s).len();
    if n > lim.max_string_length {
        Err(ViolationView::StringTooLong(n, lim.max_string_length as nat))
    } else {
        match first_match(lim.forbidden_patterns@, s, 0) {
            Some(p) => Err(ViolationView::SuspiciousPattern(p, s)),
            None => Ok(()),
        }
    }
}

/// The script fragments that mark a script as malicious.
pub open spec fn script_patterns() -> Seq<Seq<char>> {
    seq![
        "eval\\s*\\("@,
        "Function\\s*\\("@,
        "document\\."@,
        "window\\."@,
        "XMLHttpRequest"@,
        "fetch\\s*\\("@,
        "\\.innerHTML"@,
        "\\.outerHTML"@,
        "createElement"@,
    ]
}

/// Some script pattern matches `script`.
pub open spec fn script_is_malicious(script: Seq<char>) -> bool {
    exists|i: int| 0 <= i < 9 && regex_match(#[trigger] script_patterns()[i], script) == Some(true)
}

/// The value is the name `n`.
pub open spec fn is_name(v: PdfValue, n: Seq<char>) -> bool {
    v matches PdfValue::Name(m) && m@ == n
}

/// What the content checks of an entry give: a script under `JS` or `JavaScript`; a
/// signature field type or an action in a form; a widget, an action or media in an
/// annotation; each only when its check is on.
pub open spec fn content_outcome(lim: SecurityLimits, key: Seq<char>, v: PdfValue) -> Result<
    (),
    ViolationView,
> {
    if lim.validate_javascript && (key == "JS"@ || key == "JavaScript"@) && (v matches PdfValue::String(
        sc,
    ) && script_is_malicious(sc@)) {
        Err(ViolationView::MaliciousJavaScript(v->String_0@))
    } else if lim.validate_forms && key == "FT"@ && is_name(v, "Sig"@) {
        Err(ViolationView::DangerousForm("Signature field detected"@))
    } else if lim.validate_forms && (key == "A"@ || key == "AA"@) {
        Err(ViolationView::DangerousForm("Form action detected"@))
    } else if lim.validate_annotations && key == "Subtype"@ && is_name(v, "Widget"@) {
        Err(ViolationView::SuspiciousAnnotation("Interactive widget annotation"@))
    } else if lim.validate_annotations && (key == "A"@ || key == "AA"@) {
        Err(ViolationView::SuspiciousAnnotation("Annotation with actions"@))
    } else if lim.validate_annotations && (key == "Movie"@ || key == "Sound"@) {
        Err(ViolationView::SuspiciousAnnotation("Multimedia annotation"@))
    } else {
        Ok(())
    }
}

/// What the checks of an entry that come before its value gives: a forbidden key, a
/// forbidden type under `Type` or `S`, then the content checks.
pub open spec fn entry_outcome(lim: SecurityLimits, key: Seq<char>, v: PdfValue) -> Result<
    (),
    ViolationView,
> {
    if has_text(lim.forbidden_keys@, key) {
        Err(ViolationView::ForbiddenDictionaryKey(key))
    } else if (key == "Type"@ || key == "S"@) && (v matches PdfValue::Name(n) && has_text(
        lim.forbidden_types@,
        n@,
    )) {
        Err(ViolationView::ForbiddenObjectType(v->Name_0@))
    } else {
        content_outcome(lim, key, v)
    }
}

/// The value of the first entry with key `key`.
pub open spec fn entry_value(es: Seq<(String, PdfValue)>, key: Seq<char>) -> Option<PdfValue>
    decreases es.len(),
{
    if es.len() == 0 {
        None
    } else if es[0].0@ == key {
        Some(es[0].1)
    } else {
        entry_value(es.drop_first(), key)
    }
}

/// What counting a page gives: a dictionary whose `Type` is the name `Page` counts one
/// more page, too many when that exceeds the limit.
pub open spec fn page_outcome(lim: SecurityLimits, st: CheckState, es: Seq<(String, PdfValue)>) -> (
    Result<(), ViolationView>,
    CheckState,
) {
    if entry_value(es, "Type"@) matches Some(t) && is_name(t, "Page"@) {
        let p = st.1 + 1;
        (
            if p > lim.max_pages {
                Err(ViolationView::TooManyPages(p, lim.max_pages as nat))
            } else {
                Ok(())
            },
            (st.0, p),
        )
    } else {
        (Ok(()), st)
    }
}

/// What a reference gives: one more reference to its object, too many when that exceeds
/// the limit.
pub open spec fn ref_outcome(lim: SecurityLimits, st: CheckState, id: ObjectId) -> (
    Result<(), ViolationView>,
    CheckState,
) {
    let c = ref_count(st.0, id) + 1;
    (
        if c > lim.max_reference_count {
            Err(ViolationView::TooManyReferences(c, lim.max_reference_count as nat))
        } else {
            Ok(())
        },
        (bump(st.0, id), st.1),
    )
}

/// What checking a value at nesting `depth` gives, and the state after it: too deep past
/// the nesting limit; a string by [`string_outcome`]; an array by its size, then each item
/// one level deeper; a dictionary (or a stream, after its size) by [`dict_outcome`]; a
/// reference by [`ref_outcome`]; a name by whether it is a forbidden type. Checking stops
/// at the first violation.
pub open spec fn value_outcome(lim: SecurityLimits, st: CheckState, v: PdfValue, depth: nat) -> (
    Result<(), ViolationView>,
    CheckState,
)
    decreases v, 0nat,
{
    if depth > lim.max_nesting_depth {
        (Err(ViolationView::NestingTooDeep(depth, lim.max_nesting_depth as nat)), st)
    } else {
        match v {
            PdfValue::String(s) => (string_outcome(lim, s@), st),
            PdfValue::Array(items) => if items.len() > lim.max_array_size {
                (Err(ViolationView::ArrayTooLarge(items.len() as nat, lim.max_array_size as nat)), st)
            } else {
                items_outcome(lim, st, items@, 0, depth + 1)
            },
            PdfValue::Dictionary(es) => dict_outcome(lim, st, es@, depth),
            PdfValue::Stream(es, n) => if n > lim.max_stream_size {
                (Err(ViolationView::StreamTooLarge(n as nat, lim.max_stream_size as nat)), st)
            } else {
                dict_outcome(lim, st, es@, depth)
            },
            PdfValue::Reference(id) => ref_outcome(lim, st, id),
            PdfValue::Name(n) => (
                if has_text(lim.forbidden_types@, n@) {
                    Err(ViolationView::ForbiddenObjectType(n@))
                } else {
                    Ok(())
                },
                st,
            ),
            _ => (Ok(()), st),
        }
    }
}

/// The items from the `i`-th on, each at nesting `depth`, stopping at the first violation.
pub open spec fn items_outcome(
    lim: SecurityLimits,
    st: CheckState,
    items: Seq<PdfValue>,
    i: int,
    depth: nat,
) -> (Result<(), ViolationView>, CheckState)
    decreases items, items.len() - i,
{
    if i < 0 || i >= items.len() {
        (Ok(()), st)
    } else {
        let (r, st1) = value_outcome(lim, st, items[i], depth);
        if r is Err {
            (r, st1)
        } else {
            items_outcome(lim, st1, items, i + 1, depth)
        }
    }
}

/// A dictionary at nesting `depth`: too large past the limit; else each entry in turn (its
/// own checks, then its value one level deeper), stopping at the first violation; then the
/// page count.
pub open spec fn dict_outcome(
    lim: SecurityLimits,
    st: CheckState,
    es: Seq<(String, PdfValue)>,
    depth: nat,
) -> (Result<(), ViolationView>, CheckState)
    decreases es, es.len() + 1,
{
    if es.len() > lim.max_dictionary_size {
        (Err(ViolationView::DictionaryTooLarge(es.len(), lim.max_dictionary_size as nat)), st)
    } else {
        let (r, st1) = entries_outcome(lim, st, es, 0, depth);
        if r is Err {
            (r, st1)
        } else {
            page_outcome(lim, st1, es)
        }
    }
}

/// The entries from the `i`-th on of a dictionary at nesting `depth`.
pub open spec fn entries_outcome(
    lim: SecurityLimits,
    st: CheckState,
    es: Seq<(String, PdfValue)>,
    i: int,
    depth: nat,
) -> (Result<(), ViolationView>, CheckState)
    decreases es, es.len() - i,
{
    if i < 0 || i >= es.len() {
        (Ok(()), st)
    } else {
        let e = entry_outcome(lim, es[i].0@, es[i].1);
        if e is Err {
            (e, st)
        } else {
            let (r, st1) = value_outcome(lim, st, es[i].1, depth + 1);
            if r is Err {
                (r, st1)
            } else {
                entries_outcome(lim, st1, es, i + 1, depth)
            }
        }
    }
}

/// How many values `v` holds, itself included.
pub open spec fn value_size(v: PdfValue) -> nat
    decreases v, 0nat,
{
    1 + match v {
        PdfValue::Array(items) => items_size(items@, 0),
        PdfValue::Dictionary(es) => entries_size(es@, 0),
        PdfValue::Stream(es, _) => entries_size(es@, 0),
        _ => 0,
    }
}

/// How many values the items from the `i`-th on hold.
pub open spec fn items_size(items: Seq<PdfValue>, i: int) -> nat
    decreases items, items.len() - i,
{
    if i < 0 || i >= items.len() {
        0
    } else {
        value_size(items[i]) + items_size(items, i + 1)
    }
}

/// How many values the entries from the `i`-th on hold.
pub open spec fn entries_size(es: Seq<(String, PdfValue)>, i: int) -> nat
    decreases es, es.len() - i,
{
    if i < 0 || i >= es.len() {
        0
    } else {
        value_size(es[i].1) + entries_size(es, i + 1)
    }
}

/// Counting `n` more pages or references of any object from `st` stays within `usize`.
pub open spec fn fits(st: CheckState, n: nat) -> bool {
    &&& st.1 + n <= usize::MAX
    &&& forall|id: ObjectId| #[trigger] ref_count(st.0, id) + n <= usize::MAX
}

/// From `a` to `b`, no count grew by more than `n`.
pub open spec fn grown_within(a: CheckState, b: CheckState, n: int) -> bool {
    &&& b.1 <= a.1 + n
    &&& forall|id: ObjectId| #[trigger] ref_count(b.0, id) <= ref_count(a.0, id) + n
}

proof fn lemma_items_size_mono(items: Seq<PdfValue>, i: int, j: int)
    requires
        0 <= i <= j,
    ensures
        items_size(items, j) <= items_size(items, i),
    decreases j - i,
{
    if i < j && i < items.len() {
        lemma_items_size_mono(items, i + 1, j);
    }
}

proof fn lemma_entries_size_mono(es: Seq<(String, PdfValue)>, i: int, j: int)
    requires
        0 <= i <= j,
    ensures
        entries_size(es, j) <= entries_size(es, i),
    decreases j - i,
{
    if i < j && i < es.len() {
        lemma_entries_size_mono(es, i + 1, j);
    }
}

/// One more reference to `id` counts one more for `id` and changes no other count.
proof fn lemma_bump_counts(r: Seq<(ObjectId, nat)>, id: ObjectId, other: ObjectId)
    ensures
        ref_count(bump(r, id), id) == ref_count(r, id) + 1,
        other != id ==> ref_count(bump(r, id), other) == ref_count(r, other),
    decreases r.len(),
{
    let b = bump(r, id);
    if r.len() > 0 {
        lemma_bump_counts(r.drop_first(), id, other);
        if r[0].0 == id {
            assert(b == seq![(id, r[0].1 + 1)] + r.drop_first());
            assert(b.len() > 0 && b[0] == (id, r[0].1 + 1));
            assert(b.drop_first() =~= r.drop_first());
        } else {
            assert(b == seq![r[0]] + bump(r.drop_first(), id));
            assert(b.len() > 0 && b[0] == r[0]);
            assert(b.drop_first() =~= bump(r.drop_first(), id));
        }
    } else {
        assert(b == seq![(id, 1nat)]);
        assert(b.len() == 1 && b[0] == (id, 1nat));
        assert(b.drop_first() =~= Seq::<(ObjectId, nat)>::empty());
        assert(ref_count(b.drop_first(), other) == 0);
    }
}

/// Where `i` is the first entry for `id`, one more reference updates that entry; with no
/// entry for `id`, it adds one at the end.
proof fn lemma_bump_at(r: Seq<(ObjectId, nat)>, id: ObjectId, i: int)
    requires
        0 <= i <= r.len(),
        forall|j: int| 0 <= j < i ==> r[j].0 != id,
        i < r.len() ==> r[i].0 == id,
    ensures
        i < r.len() ==> bump(r, id) == r.update(i, (id, r[i].1 + 1)) && ref_count(r, id) == r[i].1,
        i == r.len() ==> bump(r, id) == r.push((id, 1nat)) && ref_count(r, id) == 0,
    decreases r.len(),
{
    if r.len() == 0 {
        assert(seq![(id, 1nat)] =~= r.push((id, 1nat)));
    } else if i == 0 {
        assert(seq![(id, r[0].1 + 1)] + r.drop_first() =~= r.update(0, (id, r[0].1 + 1)));
    } else {
        let t = r.drop_first();
        assert forall|j: int| 0 <= j < i - 1 implies t[j].0 != id by {
            assert(t[j] == r[j + 1]);
        }
        lemma_bump_at(t, id, i - 1);
        if i < r.len() {
            assert(seq![r[0]] + t.update(i - 1, (id, t[i - 1].1 + 1)) =~= r.update(
                i,
                (id, r[i].1 + 1),
            ));
        } else {
            assert(seq![r[0]] + t.push((id, 1nat)) =~= r.push((id, 1nat)));
        }
    }
}

/// The counts as plain values.
pub open spec fn counts_view(v: Seq<(ObjectId, usize)>) -> Seq<(ObjectId, nat)> {
    v.map_values(|e: (ObjectId, usize)| (e.0, e.1 as nat))
}

/// What a validator found so far of the values it checked.
#[derive(Debug, Clone)]
pub struct SecurityStatistics {
    pub reference_counts: Vec<(ObjectId, usize)>,
    pub page_count: usize,
    pub max_depth_reached: usize,
}

/// Checks values against security limits, counting references and pages across calls.
pub struct SecurityValidator {
    limits: SecurityLimits,
    reference_counts: Vec<(ObjectId, usize)>,
    current_depth: usize,
    page_count: usize,
}

/// `text` is one of `v`.
fn contains_text(v: &Vec<String>, text: &str) -> (r: bool)
    ensures
        r == has_text(v@, text@),
{
    let mut i: usize = 0;
    while i < v.len()
        invariant
            i <= v@.len(),
            forall|j: int| 0 <= j < i ==> v@[j]@ != text@,
        decreases v@.len() - i,
    {
        if str_eq(v[i].as_str(), text) {
            return true;
        }
        i += 1;
    }
    false
}

/// The `i`-th script pattern.
fn script_pattern(i: usize) -> (r: &'static str)
    requires
        i < 9,
    ensures
        r@ == script_patterns()[i as int],
{
    if i == 0 {
        "eval\\s*\\("
    } else if i == 1 {
        "Function\\s*\\("
    } else if i == 2 {
        "document\\."
    } else if i == 3 {
        "window\\."
    } else if i == 4 {
        "XMLHttpRequest"
    } else if i == 5 {
        "fetch\\s*\\("
    } else if i == 6 {
        "\\.innerHTML"
    } else if i == 7 {
        "\\.outerHTML"
    } else {
        "createElement"
    }
}

/// Some script pattern matches `script`.
fn check_script(script: &str) -> (r: bool)
    ensures
        r == script_is_malicious(script@),
{
    let mut i: usize = 0;
    while i < 9
        invariant
            i <= 9,
            forall|j: int| 0 <= j < i ==> regex_match(#[trigger] script_patterns()[j], script@) != Some(true),
        decreases 9 - i,
    {
        if regex_is_match(script_pattern(i), script) == Some(true) {
            assert(regex_match(script_patterns()[i as int], script@) == Some(true));
            return true;
        }
        i += 1;
    }
    false
}

/// `v` is the name `n`.
fn value_is_name(v: &PdfValue, n: &str) -> (r: bool)
    ensures
        r == is_name(*v, n@),
{
    match v {
        PdfValue::Name(m) => str_eq(m.as_str(), n),
        _ => false,
    }
}

impl SecurityValidator {
    /// The limits it checks against.
    pub closed spec fn limits(&self) -> SecurityLimits {
        self.limits
    }

    /// The references and pages counted so far.
    pub closed spec fn state(&self) -> CheckState {
        (counts_view(self.reference_counts@), self.page_count as nat)
    }

    /// A validator that has counted nothing yet.
    pub fn new(limits: SecurityLimits) -> (r: Self)
        ensures
            r.limits() == limits,
            r.state() == (Seq::<(ObjectId, nat)>::empty(), 0nat),
            r.depth_reached() == 0,
    {
        let r = SecurityValidator { limits, reference_counts: Vec::new(), current_depth: 0, page_count: 0 };
        assert(counts_view(r.reference_counts@) =~= Seq::<(ObjectId, nat)>::empty());
        r
    }

    /// A file is too large past the limit on file size.
    pub fn validate_file_size(&self, size: usize) -> (r: Result<(), SecurityViolation>)
        ensures
            outcome_view(r) == if size > self.limits().max_file_size {
                Err(ViolationView::FileTooLarge(size as nat, self.limits().max_file_size as nat))
            } else {
                Ok(())
            },
    {
        if size > self.limits.max_file_size {
            return Err(SecurityViolation::FileTooLarge(size, self.limits.max_file_size));
        }
        Ok(())
    }

    /// What was counted so far, with the depth recorded as reached.
    pub fn get_statistics(&self) -> (r: SecurityStatistics)
        ensures
            counts_view(r.reference_counts@) == self.state().0,
            r.page_count == self.state().1,
            r.max_depth_reached == self.depth_reached(),
    {
        let mut counts: Vec<(ObjectId, usize)> = Vec::new();
        let mut i: usize = 0;
        while i < self.reference_counts.len()
            invariant
                i <= self.reference_counts@.len(),
                counts@ == self.reference_counts@.subrange(0, i as int),
            decreases self.reference_counts@.len() - i,
        {
            counts.push(self.reference_counts[i]);
            assert(counts@ =~= self.reference_counts@.subrange(0, i + 1));
            i += 1;
        }
        assert(counts@ =~= self.reference_counts@);
        SecurityStatistics {
            reference_counts: counts,
            page_count: self.page_count,
            max_depth_reached: self.current_depth,
        }
    }

    /// The nesting depth recorded as reached; checking never raises it.
    pub closed spec fn depth_reached(&self) -> usize {
        self.current_depth
    }

    /// Checks a string.
    fn check_string(&self, s: &String) -> (r: Result<(), SecurityViolation>)
        ensures
            outcome_view(r) == string_outcome(self.limits(), s@),
    {
        let text = s.as_str();
        let n = text.as_bytes().len();
        if n > self.limits.max_string_length {
            return Err(SecurityViolation::StringTooLong(n, self.limits.max_string_length));
        }
        let pats = &self.limits.forbidden_patterns;
        let mut i: usize = 0;
        while i < pats.len()
            invariant
                i <= pats@.len(),
                *pats == self.limits.forbidden_patterns,
                first_match(pats@, s@, 0) == first_match(pats@, s@, i as int),
                encode_utf8(s@).len() <= self.limits.max_string_length,
            decreases pats@.len() - i,
        {
            if regex_is_match(pats[i].as_str(), s.as_str()) == Some(true) {
                return Err(SecurityViolation::SuspiciousPattern(pats[i].clone(), s.clone()));
            }
            i += 1;
        }
        Ok(())
    }

    /// The checks of an entry that come before its value.
    fn check_entry(&self, key: &String, v: &PdfValue) -> (r: Result<(), SecurityViolation>)
        ensures
            outcome_view(r) == entry_outcome(self.limits(), key@, *v),
    {
        let k = key.as_str();
        if contains_text(&self.limits.forbidden_keys, k) {
            return Err(SecurityViolation::ForbiddenDictionaryKey(key.clone()));
        }
        if str_eq(k, "Type") || str_eq(k, "S") {
            if let PdfValue::Name(n) = v {
                if contains_text(&self.limits.forbidden_types, n.as_str()) {
                    return Err(SecurityViolation::ForbiddenObjectType(n.clone()));
                }
            }
        }
        if self.limits.validate_javascript && (str_eq(k, "JS") || str_eq(k, "JavaScript")) {
            if let PdfValue::String(sc) = v {
                if check_script(sc.as_str()) {
                    return Err(SecurityViolation::MaliciousJavaScript(sc.clone()));
                }
            }
        }
        let is_action = str_eq(k, "A") || str_eq(k, "AA");
        if self.limits.validate_forms {
            if str_eq(k, "FT") && value_is_name(v, "Sig") {
                return Err(SecurityViolation::DangerousForm("Signature field detected".to_string()));
            }
            if is_action {
                return Err(SecurityViolation::DangerousForm("Form action detected".to_string()));
            }
        }
        if self.limits.validate_annotations {
            if str_eq(k, "Subtype") && value_is_name(v, "Widget") {
                return Err(
                    SecurityViolation::SuspiciousAnnotation("Interactive widget annotation".to_string()),
                );
            }
            if is_action {
                return Err(SecurityViolation::SuspiciousAnnotation("Annotation with actions".to_string()));
            }
            if str_eq(k, "Movie") || str_eq(k, "Sound") {
                return Err(SecurityViolation::SuspiciousAnnotation("Multimedia annotation".to_string()));
            }
        }
        Ok(())
    }
}

impl SecurityValidator {
    /// Counts one more reference to `id`.
    fn check_reference(&mut self, id: ObjectId) -> (r: Result<(), SecurityViolation>)
        requires
            fits(old(self).state(), 1),
        ensures
            (outcome_view(r), final(self).state()) == ref_outcome(old(self).limits(), old(self).state(), id),
            final(self).limits() == old(self).limits(),
            final(self).depth_reached() == old(self).depth_reached(),
            grown_within(old(self).state(), final(self).state(), 1),
    {
        let ghost r0 = counts_view(self.reference_counts@);
        let n = self.reference_counts.len();
        let mut i: usize = 0;
        while i < n
            invariant
                n == self.reference_counts@.len(),
                i <= n,
                r0 == counts_view(self.reference_counts@),
                forall|j: int| 0 <= j < i ==> self.reference_counts@[j].0 != id,
            ensures
                i <= n,
                i < n ==> self.reference_counts@[i as int].0 == id,
                forall|j: int| 0 <= j < i ==> self.reference_counts@[j].0 != id,
            decreases n - i,
        {
            if self.reference_counts[i].0 == id {
                break;
            }
            i += 1;
        }
        proof {
            assert forall|j: int| 0 <= j < i implies r0[j].0 != id by {
                assert(r0[j].0 == self.reference_counts@[j].0);
            }
            lemma_bump_at(r0, id, i as int);
            assert forall|other: ObjectId| #[trigger] ref_count(bump(r0, id), other) <= ref_count(r0, other) + 1 by {
                lemma_bump_counts(r0, id, other);
            }
            lemma_bump_counts(r0, id, id);
        }
        let count: usize;
        if i < n {
            let c = self.reference_counts[i].1;
            assert(r0[i as int].1 == c);
            assert(ref_count(r0, id) + 1 <= usize::MAX);
            count = c + 1;
            self.reference_counts.set(i, (id, count));
            assert(counts_view(self.reference_counts@) =~= r0.update(i as int, (id, count as nat)));
        } else {
            count = 1;
            self.reference_counts.push((id, 1));
            assert(counts_view(self.reference_counts@) =~= r0.push((id, 1nat)));
        }
        if count > self.limits.max_reference_count {
            return Err(SecurityViolation::TooManyReferences(count, self.limits.max_reference_count));
        }
        Ok(())
    }

    /// Checks the value `v` at nesting `depth`, as [`value_outcome`] says.
    fn check_value(&mut self, v: &PdfValue, depth: usize) -> (r: Result<(), SecurityViolation>)
        requires
            fits(old(self).state(), value_size(*v)),
            depth + value_size(*v) <= usize::MAX,
        ensures
            (outcome_view(r), final(self).state()) == value_outcome(
                old(self).limits(),
                old(self).state(),
                *v,
                depth as nat,
            ),
            final(self).limits() == old(self).limits(),
            final(self).depth_reached() == old(self).depth_reached(),
            grown_within(old(self).state(), final(self).state(), value_size(*v) as int),
        decreases v,
    {
        if depth > self.limits.max_nesting_depth {
            return Err(SecurityViolation::NestingTooDeep(depth, self.limits.max_nesting_depth));
        }
        match v {
            PdfValue::String(s) => self.check_string(s),
            PdfValue::Array(items) => {
                if items.len() > self.limits.max_array_size {
                    return Err(SecurityViolation::ArrayTooLarge(items.len(), self.limits.max_array_size));
                }
                let ghost st0 = self.state();
                let ghost lim = self.limits();
                let ghost total = items_size(items@, 0);
                let mut i: usize = 0;
                while i < items.len()
                    invariant
                        i <= items@.len(),
                        *v == PdfValue::Array(*items),
                        lim == self.limits(),
                        lim == old(self).limits(),
                        st0 == old(self).state(),
                        self.depth_reached() == old(self).depth_reached(),
                        depth <= lim.max_nesting_depth,
                        value_outcome(lim, st0, *v, depth as nat) == items_outcome(
                            lim,
                            st0,
                            items@,
                            0,
                            depth as nat + 1,
                        ),
                        depth + value_size(*v) <= usize::MAX,
                        value_size(*v) == 1 + total,
                        total == items_size(items@, 0),
                        fits(st0, value_size(*v)),
                        items_outcome(lim, st0, items@, 0, depth as nat + 1) == items_outcome(
                            lim,
                            self.state(),
                            items@,
                            i as int,
                            depth as nat + 1,
                        ),
                        grown_within(st0, self.state(), total - items_size(items@, i as int)),
                    decreases items@.len() - i,
                {
                    proof {
                        assert(decreases_to!(*v => (*v)->Array_0));
                        assert(decreases_to!(*items => items@));
                        assert(decreases_to!(items@ => items@[i as int]));
                        lemma_items_size_mono(items@, 0, i as int);
                        let cur = self.state();
                        let sz = value_size(items@[i as int]);
                        assert(items_size(items@, i as int) == sz + items_size(items@, i + 1));
                        assert forall|id: ObjectId| #[trigger] ref_count(cur.0, id) + sz <= usize::MAX by {
                            assert(ref_count(cur.0, id) <= ref_count(st0.0, id) + total - items_size(items@, i as int));
                            assert(ref_count(st0.0, id) + value_size(*v) <= usize::MAX);
                        }
                    }
                    let ghost before = self.state();
                    let r = self.check_value(&items[i], depth + 1);
                    proof {
                        let sz = value_size(items@[i as int]);
                        assert(items_size(items@, i as int) == sz + items_size(items@, i + 1));
                        assert forall|id: ObjectId| #[trigger] ref_count(self.state().0, id) <= ref_count(st0.0, id) + total - items_size(items@, i + 1) by {
                            assert(ref_count(self.state().0, id) <= ref_count(before.0, id) + sz);
                            assert(ref_count(before.0, id) <= ref_count(st0.0, id) + total - items_size(items@, i as int));
                        }
                    }
                    if r.is_err() {
                        return r;
                    }
                    i += 1;
                }
                proof {
                    lemma_items_size_mono(items@, 0, i as int);
                }
                Ok(())
            },
            PdfValue::Dictionary(es) => {
                proof {
                    assert(decreases_to!(*v => (*v)->Dictionary_0));
                    assert(decreases_to!(*es => es@));
                }
                self.check_dict(es, depth)
            },
            PdfValue::Stream(es, n) => {
                if *n > self.limits.max_stream_size {
                    return Err(SecurityViolation::StreamTooLarge(*n, self.limits.max_stream_size));
                }
                proof {
                    assert(decreases_to!(*v => (*v)->Stream_0));
                    assert(decreases_to!(*es => es@));
                }
                self.check_dict(es, depth)
            },
            PdfValue::Reference(id) => self.check_reference(*id),
            PdfValue::Name(name) => {
                if contains_text(&self.limits.forbidden_types, name.as_str()) {
                    return Err(SecurityViolation::ForbiddenObjectType(name.clone()));
                }
                Ok(())
            },
            _ => Ok(()),
        }
    }

    /// Checks a dictionary's entries at nesting `depth`, then counts it if it is a page, as
    /// [`dict_outcome`] says.
    fn check_dict(&mut self, es: &Vec<(String, PdfValue)>, depth: usize) -> (r: Result<
        (),
        SecurityViolation,
    >)
        requires
            fits(old(self).state(), 1 + entries_size(es@, 0)),
            depth + 1 + entries_size(es@, 0) <= usize::MAX,
            depth <= old(self).limits().max_nesting_depth,
        ensures
            (outcome_view(r), final(self).state()) == dict_outcome(
                old(self).limits(),
                old(self).state(),
                es@,
                depth as nat,
            ),
            final(self).limits() == old(self).limits(),
            final(self).depth_reached() == old(self).depth_reached(),
            grown_within(old(self).state(), final(self).state(), 1 + entries_size(es@, 0) as int),
        decreases es@,
    {
        if es.len() > self.limits.max_dictionary_size {
            return Err(SecurityViolation::DictionaryTooLarge(es.len(), self.limits.max_dictionary_size));
        }
        let ghost st0 = self.state();
        let ghost lim = self.limits();
        let ghost total = entries_size(es@, 0);
        let mut i: usize = 0;
        while i < es.len()
            invariant
                i <= es@.len(),
                lim == self.limits(),
                lim == old(self).limits(),
                st0 == old(self).state(),
                es@.len() <= lim.max_dictionary_size,
                self.depth_reached() == old(self).depth_reached(),
                depth + 1 + total <= usize::MAX,
                total == entries_size(es@, 0),
                fits(st0, 1 + total),
                entries_outcome(lim, st0, es@, 0, depth as nat) == entries_outcome(
                    lim,
                    self.state(),
                    es@,
                    i as int,
                    depth as nat,
                ),
                grown_within(st0, self.state(), total - entries_size(es@, i as int)),
            decreases es@.len() - i,
        {
            let pre = self.check_entry(&es[i].0, &es[i].1);
            if pre.is_err() {
                return pre;
            }
            proof {
                assert(decreases_to!(es@ => es@[i as int]));
                assert(decreases_to!(es@[i as int] => es@[i as int].1));
                lemma_entries_size_mono(es@, 0, i as int);
                let cur = self.state();
                let sz = value_size(es@[i as int].1);
                assert(entries_size(es@, i as int) == sz + entries_size(es@, i + 1));
                assert forall|id: ObjectId| #[trigger] ref_count(cur.0, id) + sz <= usize::MAX by {
                    assert(ref_count(cur.0, id) <= ref_count(st0.0, id) + total - entries_size(es@, i as int));
                    assert(ref_count(st0.0, id) + 1 + total <= usize::MAX);
                }
            }
            let ghost before = self.state();
            let r = self.check_value(&es[i].1, depth + 1);
            proof {
                let sz = value_size(es@[i as int].1);
                assert(entries_size(es@, i as int) == sz + entries_size(es@, i + 1));
                assert forall|id: ObjectId| #[trigger] ref_count(self.state().0, id) <= ref_count(st0.0, id) + total - entries_size(es@, i + 1) by {
                    assert(ref_count(self.state().0, id) <= ref_count(before.0, id) + sz);
                    assert(ref_count(before.0, id) <= ref_count(st0.0, id) + total - entries_size(es@, i as int));
                }
            }
            if r.is_err() {
                return r;
            }
            i += 1;
        }
        proof {
            lemma_entries_size_mono(es@, 0, i as int);
        }
        // Count the dictionary as a page when its `Type` is the name `Page`.
        let mut j: usize = 0;
        assert(es@.subrange(0, es@.len() as int) =~= es@);
        while j < es.len()
            invariant
                j <= es@.len(),
                entry_value(es@, "Type"@) == entry_value(es@.subrange(j as int, es@.len() as int), "Type"@),
            ensures
                j <= es@.len(),
                entry_value(es@, "Type"@) == entry_value(es@.subrange(j as int, es@.len() as int), "Type"@),
                j < es@.len() ==> es@[j as int].0@ == "Type"@,
            decreases es@.len() - j,
        {
            if str_eq(es[j].0.as_str(), "Type") {
                break;
            }
            assert(es@.subrange(j as int, es@.len() as int).drop_first() =~= es@.subrange(j + 1, es@.len() as int));
            j += 1;
        }
        let is_page = if j < es.len() {
            value_is_name(&es[j].1, "Page")
        } else {
            false
        };
        proof {
            let rest = es@.subrange(j as int, es@.len() as int);
            if j < es.len() {
                assert(rest[0] == es@[j as int]);
            } else {
                assert(rest.len() == 0);
            }
        }
        if !is_page {
            return Ok(());
        }
        self.page_count = self.page_count + 1;
        if self.page_count > self.limits.max_pages {
            return Err(SecurityViolation::TooManyPages(self.page_count, self.limits.max_pages));
        }
        Ok(())
    }

    /// Checks `value` against the limits, counting its references and pages with those of
    /// the values checked before, as [`value_outcome`] says at nesting depth zero. The
    /// counts must stay within `usize` whatever the value holds.
    pub fn validate_value(&mut self, value: &PdfValue) -> (r: Result<(), SecurityViolation>)
        requires
            fits(old(self).state(), value_size(*value)),
        ensures
            (outcome_view(r), final(self).state()) == value_outcome(
                old(self).limits(),
                old(self).state(),
                *value,
                0,
            ),
            final(self).limits() == old(self).limits(),
            final(self).depth_reached() == old(self).depth_reached(),
    {
        self.check_value(value, 0)
    }
}
} // verus!
