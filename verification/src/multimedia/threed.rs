//! 3D artwork (U3D and PRC).

use crate::byteseq::{bytes_equal_at, occurs_at};
use crate::multimedia::av::opt_text;
use crate::text::{ascii_lowercase, str_eq, to_ascii_lowercase};
use vstd::prelude::*;

verus! {

/// What is known of a 3D annotation and its stream.
#[derive(Debug, Clone)]
pub struct ThreeDInfo {
    pub format: Option<String>,
    pub byte_len: usize,
    pub has_view: bool,
    pub has_activation: bool,
}

impl Default for ThreeDInfo {
    fn default() -> (r: Self)
        ensures
            r.format is None,
            r.byte_len == 0,
            !r.has_view,
            !r.has_activation,
    {
        ThreeDInfo { format: None, byte_len: 0, has_view: false, has_activation: false }
    }
}

/// How many of the formats equal `f`.
pub open spec fn format_count(formats: Seq<Option<String>>, f: Seq<char>) -> nat
    decreases formats.len(),
{
    if formats.len() == 0 {
        0
    } else {
        format_count(formats.drop_last(), f) + match formats.last() {
            Some(s) => if s@ == f {
                1nat
            } else {
                0nat
            },
            None => 0nat,
        }
    }
}

/// `o` is the format `f`.
pub open spec fn names_format(o: Option<String>, f: Seq<char>) -> bool {
    match o {
        Some(s) => s@ == f,
        None => false,
    }
}

/// `f` is one of the formats.
pub open spec fn format_present(formats: Seq<Option<String>>, f: Seq<char>) -> bool {
    exists|i: int| 0 <= i < formats.len() && names_format(formats[i], f)
}

/// A format absent from the list is counted zero times, and no format is counted more
/// often than the list is long.
proof fn lemma_format_count(formats: Seq<Option<String>>, f: Seq<char>)
    ensures
        format_count(formats, f) <= formats.len(),
        !format_present(formats, f) ==> format_count(formats, f) == 0,
    decreases formats.len(),
{
    if formats.len() > 0 {
        let p = formats.drop_last();
        lemma_format_count(p, f);
        if format_present(p, f) {
            let i = choose|i: int| 0 <= i < p.len() && names_format(p[i], f);
            assert(formats[i] == p[i]);
        }
    }
}

/// The position of `f` among the counted formats.
fn find_format(counts: &Vec<(String, usize)>, f: &str) -> (r: Option<usize>)
    ensures
        match r {
            Some(i) => i < counts@.len() && counts@[i as int].0@ == f@,
            None => forall|j: int| 0 <= j < counts@.len() ==> counts@[j].0@ != f@,
        },
{
    let mut i: usize = 0;
    while i < counts.len()
        invariant
            i <= counts@.len(),
            forall|j: int| 0 <= j < i ==> counts@[j].0@ != f@,
        decreases counts@.len() - i,
    {
        if str_eq(counts[i].0.as_str(), f) {
            return Some(i);
        }
        i += 1;
    }
    None
}

/// Counts how often each format occurs, skipping missing ones; each format appears once,
/// in the order of its first occurrence.
pub fn aggregate_format_counts(formats: &[Option<String>]) -> (r: Vec<(String, usize)>)
    ensures
        forall|i: int| 0 <= i < r@.len() ==> #[trigger] r@[i].1 == format_count(formats@, r@[i].0@),
        forall|i: int, j: int| 0 <= i < j < r@.len() ==> r@[i].0@ != r@[j].0@,
        forall|f: Seq<char>| format_present(formats@, f) <==> exists|i: int|
            0 <= i < r@.len() && r@[i].0@ == f,
{
    let mut counts: Vec<(String, usize)> = Vec::new();
    let mut k: usize = 0;
    while k < formats.len()
        invariant
            k <= formats@.len(),
            forall|i: int| 0 <= i < counts@.len() ==> #[trigger] counts@[i].1 == format_count(
                formats@.subrange(0, k as int),
                counts@[i].0@,
            ),
            forall|i: int, j: int| 0 <= i < j < counts@.len() ==> counts@[i].0@ != counts@[j].0@,
            forall|f: Seq<char>| format_present(formats@.subrange(0, k as int), f) <==> exists|i: int|
                0 <= i < counts@.len() && counts@[i].0@ == f,
        decreases formats@.len() - k,
    {
        let ghost prev = formats@.subrange(0, k as int);
        let ghost next = formats@.subrange(0, k + 1);
        let ghost before = counts@;
        assert(next.drop_last() =~= prev);
        assert(next.last() == formats@[k as int]);
        assert forall|f: Seq<char>| format_present(next, f) <==> (format_present(prev, f)
            || names_format(formats@[k as int], f)) by {
            if format_present(next, f) {
                let i = choose|i: int| 0 <= i < next.len() && names_format(next[i], f);
                if i < k {
                    assert(prev[i] == next[i]);
                }
            }
            if format_present(prev, f) {
                let i = choose|i: int| 0 <= i < prev.len() && names_format(prev[i], f);
                assert(next[i] == prev[i]);
            }
            if names_format(formats@[k as int], f) {
                assert(names_format(next[k as int], f));
            }
        }
        match &formats[k] {
            None => {
                assert forall|i: int| 0 <= i < counts@.len() implies #[trigger] counts@[i].1
                    == format_count(next, counts@[i].0@) by {}
            },
            Some(fmt) => {
                let ghost f = fmt@;
                match find_format(&counts, fmt.as_str()) {
                    Some(i) => {
                        proof {
                            lemma_format_count(prev, f);
                        }
                        let c = counts[i].1;
                        let name = counts[i].0.as_str().to_string();
                        counts.set(i, (name, c + 1));
                        assert forall|j: int| 0 <= j < counts@.len() implies #[trigger] counts@[j].1
                            == format_count(next, counts@[j].0@) by {
                            if j != i {
                                assert(counts@[j] == before[j]);
                                assert(before[j].0@ != before[i as int].0@ || j == i);
                            }
                        }
                        assert forall|a: int, b: int| 0 <= a < b < counts@.len() implies counts@[a].0@
                            != counts@[b].0@ by {
                            assert(before[a].0@ != before[b].0@);
                        }
                        assert forall|g: Seq<char>| format_present(next, g) <==> exists|j: int|
                            0 <= j < counts@.len() && counts@[j].0@ == g by {
                            assert(counts@[i as int].0@ == f);
                            assert(formats@[k as int] == Some(*fmt));
                            if format_present(next, g) {
                                if format_present(prev, g) {
                                    let j = choose|j: int| 0 <= j < before.len() && before[j].0@ == g;
                                    assert(counts@[j].0@ == g);
                                } else {
                                    assert(names_format(formats@[k as int], g));
                                    assert(g == f);
                                    assert(counts@[i as int].0@ == g);
                                }
                            } else {
                                if exists|j: int| 0 <= j < counts@.len() && counts@[j].0@ == g {
                                    let j = choose|j: int| 0 <= j < counts@.len() && counts@[j].0@ == g;
                                    assert(before[j].0@ == g);
                                    assert(format_present(prev, g));
                                }
                            }
                        }
                    },
                    None => {
                        proof {
                            lemma_format_count(prev, f);
                            if format_present(prev, f) {
                                let j = choose|j: int| 0 <= j < before.len() && before[j].0@ == f;
                                assert(before[j].0@ != f);
                            }
                        }
                        let name = fmt.as_str().to_string();
                        counts.push((name, 1));
                        assert forall|j: int| 0 <= j < counts@.len() implies #[trigger] counts@[j].1
                            == format_count(next, counts@[j].0@) by {
                            if j < before.len() {
                                assert(counts@[j] == before[j]);
                            }
                        }
                        assert forall|g: Seq<char>| format_present(next, g) <==> exists|j: int|
                            0 <= j < counts@.len() && counts@[j].0@ == g by {
                            let last = before.len() as int;
                            assert(counts@[last].0@ == f);
                            assert(formats@[k as int] == Some(*fmt));
                            if format_present(next, g) {
                                if format_present(prev, g) {
                                    let j = choose|j: int| 0 <= j < before.len() && before[j].0@ == g;
                                    assert(counts@[j].0@ == g);
                                } else {
                                    assert(names_format(formats@[k as int], g));
                                    assert(counts@[last].0@ == g);
                                }
                            } else {
                                if exists|j: int| 0 <= j < counts@.len() && counts@[j].0@ == g {
                                    let j = choose|j: int| 0 <= j < counts@.len() && counts@[j].0@ == g;
                                    if j < before.len() {
                                        assert(before[j].0@ == g);
                                        assert(format_present(prev, g));
                                    } else {
                                        assert(g == f);
                                        assert(names_format(formats@[k as int], g));
                                    }
                                }
                            }
                        }
                    },
                }
            },
        }
        k += 1;
    }
    assert(formats@.subrange(0, k as int) =~= formats@);
    counts
}

/// The marker `U3D` followed by a zero byte.
pub open spec fn u3d_magic() -> Seq<u8> {
    seq![0x55u8, 0x33, 0x44, 0x00]
}

/// The marker `PRC` followed by a zero byte.
pub open spec fn prc_magic() -> Seq<u8> {
    seq![0x50u8, 0x52, 0x43, 0x00]
}

/// The format of 3D artwork: the stream's subtype when it is `U3D` or `PRC` (in any case of
/// ASCII letters), else what its raw bytes open with.
pub open spec fn threed_format(subtype: Option<Seq<char>>, data: Option<Seq<u8>>) -> Option<Seq<char>> {
    let by_subtype = match subtype {
        Some(s) => if ascii_lowercase(s) == "u3d"@ {
            Some("U3D"@)
        } else if ascii_lowercase(s) == "prc"@ {
            Some("PRC"@)
        } else {
            None
        },
        None => None,
    };
    if by_subtype is Some {
        by_subtype
    } else {
        match data {
            None => None,
            Some(d) => if occurs_at(d, u3d_magic(), 0) {
                Some("U3D"@)
            } else if occurs_at(d, prc_magic(), 0) {
                Some("PRC"@)
            } else {
                None
            },
        }
    }
}

/// The format of a 3D stream, from the name of its `Subtype` (without the slash) and its
/// raw bytes.
pub fn detect_3d_format(subtype: Option<&str>, data: Option<&[u8]>) -> (r: Option<String>)
    ensures
        opt_text(r) == threed_format(
            match subtype {
                Some(s) => Some(s@),
                None => None,
            },
            match data {
                Some(d) => Some(d@),
                None => None,
            },
        ),
{
    if let Some(s) = subtype {
        let lower = to_ascii_lowercase(s);
        if str_eq(lower.as_str(), "u3d") {
            return Some("U3D".to_string());
        }
        if str_eq(lower.as_str(), "prc") {
            return Some("PRC".to_string());
        }
    }
    let d = match data {
        Some(d) => d,
        None => {
            return None;
        },
    };
    let u3d = vec![0x55u8, 0x33, 0x44, 0x00];
    let prc = vec![0x50u8, 0x52, 0x43, 0x00];
    assert(u3d@ =~= u3d_magic() && prc@ =~= prc_magic());
    if bytes_equal_at(d, 0, u3d.as_slice()) {
        Some("U3D".to_string())
    } else if bytes_equal_at(d, 0, prc.as_slice()) {
        Some("PRC".to_string())
    } else {
        None
    }
}

/// What the info reads of a 3D stream: its length, the name of its `Subtype` (without the
/// slash) and its raw bytes.
pub struct ThreeDStream {
    pub byte_len: usize,
    pub subtype: Option<String>,
    pub raw: Option<Vec<u8>>,
}

/// What is known of a 3D annotation: whether it has a default view (`3DV`) and an
/// activation (`3DA`), and the length and format of its stream.
pub fn extract_threed_info(has_view: bool, has_activation: bool, stream: Option<&ThreeDStream>) -> (r:
    ThreeDInfo)
    ensures
        r.has_view == has_view,
        r.has_activation == has_activation,
        match stream {
            Some(s) => r.byte_len == s.byte_len && opt_text(r.format) == threed_format(
                match &s.subtype {
                    Some(t) => Some(t@),
                    None => None,
                },
                match &s.raw {
                    Some(d) => Some(d@),
                    None => None,
                },
            ),
            None => r.byte_len == 0 && r.format is None,
        },
{
    let mut info = ThreeDInfo::default();
    if let Some(s) = stream {
        info.byte_len = s.byte_len;
        let subtype = match &s.subtype {
            Some(t) => Some(t.as_str()),
            None => None,
        };
        let raw = match &s.raw {
            Some(d) => Some(d.as_slice()),
            None => None,
        };
        info.format = detect_3d_format(subtype, raw);
    }
    info.has_view = has_view;
    info.has_activation = has_activation;
    info
}

} // verus!
