//! Structural heuristics over the head and tail bytes of a PDF file.

use crate::byteseq::{bytes_equal_at, contains_sequence, copy_range, count_occurrences, count_scan, occurs_at};
use crate::security::polyglot::{
    count_eof_markers, detect_polyglot_hits, detect_trailing_data, dedupe, eof_marker, hit_offsets_fit,
    hits_view, positions_below, spec_scan, trailing_data_position,
};
use crate::security::{make_result, push_result, results_view, ValidationResult, ValidationStatus};
use crate::text::{append_decimal, decimal};
use vstd::prelude::*;

verus! {

/// Largest number of objects whose end markers are checked.
pub const MAX_OBJECTS_TO_SCAN: usize = 50_000;

/// The view of a result: check type, status, message.
pub type ResultView = (Seq<char>, ValidationStatus, Seq<char>);

/// Warns about data after the last `%%EOF` of the tail.
pub fn check_trailing_data(tail: &[u8], tail_offset: u64, results: &mut Vec<ValidationResult>)
    requires
        trailing_data_position(tail@) matches Some(k) ==> tail_offset + k <= usize::MAX,
    ensures
        results_view(final(results)@) == results_view(old(results)@) + match trailing_data_position(tail@) {
            Some(k) => seq![(
                "Heuristics:TrailingData"@,
                ValidationStatus::Warning,
                "Data found after %%EOF at offset "@ + decimal((tail_offset + k) as nat),
            )],
            None => Seq::<ResultView>::empty(),
        },
{
    match detect_trailing_data(tail, tail_offset) {
        Some(offset) => {
            let mut message = "Data found after %%EOF at offset ".to_string();
            append_decimal(&mut message, offset as u64);
            let r = make_result("Heuristics:TrailingData", ValidationStatus::Warning, message);
            push_result(results, r);
        },
        None => {
            assert(results_view(results@) =~= results_view(old(results)@) + Seq::<ResultView>::empty());
        },
    }
}

/// Warns when the tail holds more than one `%%EOF` marker.
pub fn check_eof_markers(tail: &[u8], results: &mut Vec<ValidationResult>)
    ensures
        results_view(final(results)@) == results_view(old(results)@) + if count_scan(tail@, eof_marker(), 0) > 1 {
            seq![(
                "Heuristics:MultipleEOF"@,
                ValidationStatus::Warning,
                "Multiple EOF markers detected in tail: "@ + decimal(count_scan(tail@, eof_marker(), 0)),
            )]
        } else {
            Seq::<ResultView>::empty()
        },
{
    let eof_count = count_eof_markers(tail);
    if eof_count > 1 {
        let mut message = "Multiple EOF markers detected in tail: ".to_string();
        append_decimal(&mut message, eof_count as u64);
        let r = make_result("Heuristics:MultipleEOF", ValidationStatus::Warning, message);
        push_result(results, r);
    } else {
        assert(results_view(results@) =~= results_view(old(results)@) + Seq::<ResultView>::empty());
    }
}

/// The marker `startxref`.
pub open spec fn startxref_marker() -> Seq<u8> {
    seq![0x73u8, 0x74, 0x61, 0x72, 0x74, 0x78, 0x72, 0x65, 0x66]
}

/// Warns when the tail holds several `startxref` markers although the document has at
/// most one revision.
pub fn check_startxref_markers(tail: &[u8], revision_count: usize, results: &mut Vec<ValidationResult>)
    ensures
        results_view(final(results)@) == results_view(old(results)@) + if revision_count <= 1
            && count_scan(tail@, startxref_marker(), 0) > 1 {
            seq![(
                "Heuristics:MultipleStartXref"@,
                ValidationStatus::Warning,
                "Multiple startxref markers detected without revisions: "@ + decimal(
                    count_scan(tail@, startxref_marker(), 0),
                ),
            )]
        } else {
            Seq::<ResultView>::empty()
        },
{
    let marker = vec![0x73u8, 0x74, 0x61, 0x72, 0x74, 0x78, 0x72, 0x65, 0x66];
    assert(marker@ =~= startxref_marker());
    let startxref_count = count_occurrences(tail, marker.as_slice());
    if revision_count <= 1 && startxref_count > 1 {
        let mut message = "Multiple startxref markers detected without revisions: ".to_string();
        append_decimal(&mut message, startxref_count as u64);
        let r = make_result("Heuristics:MultipleStartXref", ValidationStatus::Warning, message);
        push_result(results, r);
    } else {
        assert(results_view(results@) =~= results_view(old(results)@) + Seq::<ResultView>::empty());
    }
}

/// The warning for one polyglot hit.
pub open spec fn polyglot_result(hit: (Seq<char>, int)) -> ResultView {
    (
        "IOC:Polyglot"@,
        ValidationStatus::Warning,
        "Signature "@ + hit.0 + " detected at offset "@ + decimal(hit.1 as nat),
    )
}

/// Warns once per distinct signature hit in the head and the tail.
pub fn check_polyglot_signatures(
    head: &[u8],
    head_offset: u64,
    tail: &[u8],
    tail_offset: u64,
    results: &mut Vec<ValidationResult>,
)
    requires
        hit_offsets_fit(head@, head_offset as int),
        hit_offsets_fit(tail@, tail_offset as int),
    ensures
        results_view(final(results)@) == results_view(old(results)@) + dedupe(
            spec_scan(head@, head_offset as int) + spec_scan(tail@, tail_offset as int),
        ).map_values(|h: (Seq<char>, int)| polyglot_result(h)),
{
    let hits = detect_polyglot_hits(head, head_offset, tail, tail_offset);
    let ghost hv = hits_view(hits@);
    let mut i: usize = 0;
    while i < hits.len()
        invariant
            i <= hits@.len(),
            hv == hits_view(hits@),
            results_view(results@) == results_view(old(results)@) + hv.subrange(0, i as int).map_values(
                |h: (Seq<char>, int)| polyglot_result(h),
            ),
        decreases hits@.len() - i,
    {
        let hit = &hits[i];
        let mut message = "Signature ".to_string();
        message.append(hit.format.as_str());
        message.append(" detected at offset ");
        append_decimal(&mut message, hit.offset as u64);
        let r = make_result("IOC:Polyglot", ValidationStatus::Warning, message);
        push_result(results, r);
        proof {
            assert(hv[i as int] == hit.view_pair());
            assert(hv.subrange(0, i + 1).map_values(|h: (Seq<char>, int)| polyglot_result(h)) =~= hv.subrange(
                0,
                i as int,
            ).map_values(|h: (Seq<char>, int)| polyglot_result(h)).push(polyglot_result(hv[i as int])));
        }
        i += 1;
    }
    assert(hv.subrange(0, i as int) =~= hv);
}

/// The marker ` obj` that opens an indirect object.
pub open spec fn object_marker() -> Seq<u8> {
    seq![0x20u8, 0x6F, 0x62, 0x6A]
}

/// The marker `endobj`.
pub open spec fn endobject_marker() -> Seq<u8> {
    seq![0x65u8, 0x6E, 0x64, 0x6F, 0x62, 0x6A]
}

/// Positions of the first (at most `MAX_OBJECTS_TO_SCAN`) object markers.
pub open spec fn scanned_object_positions(buf: Seq<u8>) -> Seq<int> {
    let all = positions_below(buf, object_marker(), buf.len() as int);
    if all.len() > MAX_OBJECTS_TO_SCAN {
        all.subrange(0, MAX_OBJECTS_TO_SCAN as int)
    } else {
        all
    }
}

/// `buf[start..end]` holds an `endobj` marker.
pub open spec fn has_endobj(buf: Seq<u8>, start: int, end: int) -> bool {
    exists|j: int| occurs_at(buf.subrange(start, end), endobject_marker(), j)
}

/// Number of the first `n` object positions `ps` after which no `endobj` marker comes
/// before the next object position (or the end of the buffer).
pub open spec fn count_missing(buf: Seq<u8>, ps: Seq<int>, n: int) -> nat
    decreases n,
{
    if n <= 0 {
        0
    } else {
        let idx = n - 1;
        let end = if idx + 1 < ps.len() {
            ps[idx + 1]
        } else {
            buf.len() as int
        };
        count_missing(buf, ps, n - 1) + if has_endobj(buf, ps[idx], end) {
            0nat
        } else {
            1nat
        }
    }
}

/// Number of objects (among the first `MAX_OBJECTS_TO_SCAN`) that lack an `endobj`
/// marker before the next object starts.
pub fn detect_missing_endobj_count(buffer: &[u8]) -> (r: usize)
    ensures
        r == count_missing(buffer@, scanned_object_positions(buffer@), scanned_object_positions(buffer@).len() as int),
{
    let obj_marker = vec![0x20u8, 0x6F, 0x62, 0x6A];
    let endobj_marker = vec![0x65u8, 0x6E, 0x64, 0x6F, 0x62, 0x6A];
    assert(obj_marker@ =~= object_marker());
    assert(endobj_marker@ =~= endobject_marker());
    let mut object_positions: Vec<usize> = Vec::new();
    let mut i: usize = 0;
    let ghost all = positions_below(buffer@, object_marker(), buffer@.len() as int);
    while i < buffer.len() && object_positions.len() < MAX_OBJECTS_TO_SCAN
        invariant
            obj_marker@ == object_marker(),
            i <= buffer@.len(),
            object_positions@.len() <= MAX_OBJECTS_TO_SCAN,
            object_positions@.map_values(|p: usize| p as int) == positions_below(buffer@, object_marker(), i as int),
            forall|k: int| 0 <= k < object_positions@.len() ==> #[trigger] object_positions@[k] < i,
        decreases buffer@.len() - i,
    {
        if bytes_equal_at(buffer, i, obj_marker.as_slice()) {
            object_positions.push(i);
        }
        proof {
            if occurs_at(buffer@, object_marker(), i as int) {
                assert(positions_below(buffer@, object_marker(), i + 1) =~= positions_below(buffer@, object_marker(), i as int).push(i as int));
            } else {
                assert(positions_below(buffer@, object_marker(), i + 1) =~= positions_below(buffer@, object_marker(), i as int));
            }
            assert(object_positions@.map_values(|p: usize| p as int) =~= positions_below(buffer@, object_marker(), i + 1));
        }
        i += 1;
    }
    proof {
        lemma_positions_prefix(buffer@, object_marker(), i as int, buffer@.len() as int);
        let ps = positions_below(buffer@, object_marker(), i as int);
        if object_positions@.len() < MAX_OBJECTS_TO_SCAN {
            assert(i == buffer@.len());
        } else {
            assert(object_positions@.map_values(|p: usize| p as int) =~= all.subrange(0, MAX_OBJECTS_TO_SCAN as int));
        }
    }
    let ghost ps = object_positions@.map_values(|p: usize| p as int);
    assert(ps == scanned_object_positions(buffer@));
    proof {
        lemma_positions_sorted(buffer@, object_marker(), i as int);
        assert forall|a: int, b: int| 0 <= a < b < object_positions@.len() implies object_positions@[a] < object_positions@[b] by {
            assert(ps[a] == object_positions@[a] && ps[b] == object_positions@[b]);
        }
    }
    let mut missing: usize = 0;
    let mut idx: usize = 0;
    while idx < object_positions.len()
        invariant
            endobj_marker@ == endobject_marker(),
            ps == object_positions@.map_values(|p: usize| p as int),
            idx <= object_positions@.len(),
            missing <= idx,
            missing == count_missing(buffer@, ps, idx as int),
            forall|a: int, b: int| 0 <= a < b < object_positions@.len() ==> object_positions@[a] < object_positions@[b],
            forall|k: int| 0 <= k < object_positions@.len() ==> #[trigger] object_positions@[k] <= buffer@.len(),
        decreases object_positions@.len() - idx,
    {
        let obj_pos = object_positions[idx];
        let search_end = if idx + 1 < object_positions.len() {
            object_positions[idx + 1]
        } else {
            buffer.len()
        };
        let segment = copy_range(buffer, obj_pos, search_end);
        if !contains_sequence(segment.as_slice(), endobj_marker.as_slice()) {
            missing += 1;
        }
        idx += 1;
    }
    missing
}

/// Where `buf` holds no `endobj` at all, no segment does.
proof fn lemma_no_endobj_anywhere(buf: Seq<u8>, start: int, end: int)
    requires
        0 <= start <= end <= buf.len(),
        forall|j: int| !occurs_at(buf, endobject_marker(), j),
    ensures
        !has_endobj(buf, start, end),
{
    if has_endobj(buf, start, end) {
        let j = choose|j: int| occurs_at(buf.subrange(start, end), endobject_marker(), j);
        assert(buf.subrange(start, end).subrange(j, j + 6) =~= buf.subrange(start + j, start + j + 6));
        assert(occurs_at(buf, endobject_marker(), start + j));
    }
}

/// Where no segment after an object position holds `endobj`, every one of the first `n`
/// positions counts as missing.
proof fn lemma_all_missing(buf: Seq<u8>, ps: Seq<int>, n: int)
    requires
        0 <= n <= ps.len(),
        forall|k: int| 0 <= k < ps.len() ==> 0 <= #[trigger] ps[k] <= buf.len(),
        forall|a: int, b: int| 0 <= a < b < ps.len() ==> ps[a] < ps[b],
        forall|j: int| !occurs_at(buf, endobject_marker(), j),
    ensures
        count_missing(buf, ps, n) == n,
    decreases n,
{
    if n > 0 {
        lemma_all_missing(buf, ps, n - 1);
        let idx = n - 1;
        let end = if idx + 1 < ps.len() {
            ps[idx + 1]
        } else {
            buf.len() as int
        };
        lemma_no_endobj_anywhere(buf, ps[idx], end);
    }
}

/// A marker that occurs below `n` is among the positions below `n`.
proof fn lemma_position_listed(buf: Seq<u8>, m: Seq<u8>, p: int, n: int)
    requires
        0 <= p < n,
        occurs_at(buf, m, p),
    ensures
        positions_below(buf, m, n).len() > 0,
    decreases n,
{
    if p < n - 1 {
        lemma_position_listed(buf, m, p, n - 1);
    }
}

/// An object whose `endobj` never comes counts as missing, the last one too: in a buffer
/// with no `endobj` at all, every scanned object position counts, and a buffer holding an
/// object marker counts at least one.
pub proof fn lemma_missing_endobj_counted(buf: Seq<u8>)
    requires
        forall|j: int| !occurs_at(buf, endobject_marker(), j),
    ensures
        count_missing(buf, scanned_object_positions(buf), scanned_object_positions(buf).len() as int)
            == scanned_object_positions(buf).len(),
        (exists|p: int| occurs_at(buf, object_marker(), p)) ==> count_missing(
            buf,
            scanned_object_positions(buf),
            scanned_object_positions(buf).len() as int,
        ) >= 1,
{
    let n = buf.len() as int;
    let all = positions_below(buf, object_marker(), n);
    lemma_positions_sorted(buf, object_marker(), n);
    let ps = scanned_object_positions(buf);
    assert forall|k: int| 0 <= k < ps.len() implies 0 <= #[trigger] ps[k] <= buf.len() by {
        assert(ps[k] == all[k]);
    }
    assert forall|a: int, b: int| 0 <= a < b < ps.len() implies ps[a] < ps[b] by {
        assert(ps[a] == all[a] && ps[b] == all[b]);
    }
    lemma_all_missing(buf, ps, ps.len() as int);
    if exists|p: int| occurs_at(buf, object_marker(), p) {
        let p = choose|p: int| occurs_at(buf, object_marker(), p);
        lemma_position_listed(buf, object_marker(), p, n);
    }
}

proof fn lemma_positions_prefix(buf: Seq<u8>, m: Seq<u8>, i: int, n: int)
    requires
        0 <= i <= n,
    ensures
        positions_below(buf, m, n).subrange(0, positions_below(buf, m, i).len() as int) == positions_below(buf, m, i),
        positions_below(buf, m, i).len() <= positions_below(buf, m, n).len(),
        forall|k: int| 0 <= k < positions_below(buf, m, n).len() ==> 0 <= #[trigger] positions_below(buf, m, n)[k] < n,
        forall|a: int, b: int| 0 <= a < b < positions_below(buf, m, n).len() ==> positions_below(buf, m, n)[a] < positions_below(buf, m, n)[b],
        forall|k: int| positions_below(buf, m, i).len() <= k < positions_below(buf, m, n).len() ==> #[trigger] positions_below(buf, m, n)[k] >= i,
    decreases n - i,
{
    if i < n {
        lemma_positions_prefix(buf, m, i, n - 1);
        assert(positions_below(buf, m, n).subrange(0, positions_below(buf, m, n - 1).len() as int) =~= positions_below(buf, m, n - 1));
    } else {
        assert(positions_below(buf, m, n).subrange(0, positions_below(buf, m, n).len() as int) =~= positions_below(buf, m, n));
        lemma_positions_sorted(buf, m, n);
    }
}

proof fn lemma_positions_sorted(buf: Seq<u8>, m: Seq<u8>, n: int)
    ensures
        forall|k: int| 0 <= k < positions_below(buf, m, n).len() ==> 0 <= #[trigger] positions_below(buf, m, n)[k] < n,
        forall|a: int, b: int| 0 <= a < b < positions_below(buf, m, n).len() ==> positions_below(buf, m, n)[a] < positions_below(buf, m, n)[b],
    decreases n,
{
    if n > 0 {
        lemma_positions_sorted(buf, m, n - 1);
        let prev = positions_below(buf, m, n - 1);
        if occurs_at(buf, m, n - 1) {
            assert(positions_below(buf, m, n) =~= prev.push(n - 1));
        } else {
            assert(positions_below(buf, m, n) =~= prev);
        }
    }
}

/// The object identifier as `number generation`.
pub fn format_object_id(number: u32, generation: u16) -> (r: String)
    ensures
        r@ == decimal(number as nat) + " "@ + decimal(generation as nat),
{
    let mut s = String::new();
    append_decimal(&mut s, number as u64);
    s.append(" ");
    append_decimal(&mut s, generation as u64);
    assert(Seq::<char>::empty() + decimal(number as nat) =~= decimal(number as nat));
    s
}

} // verus!
