//! Limits that guard the parser against hostile input.

use crate::text::{append_decimal, decimal};
use crate::utf8_bounds::lemma_encode_utf8_concat;
use vstd::prelude::*;
use vstd::utf8::{
    encode_scalar, encode_utf8, encode_utf8_first_scalar, encode_utf8_valid_utf8, is_char_boundary,
};

verus! {

/// A breach of a security limit, with the value found and the limit where they apply.
#[derive(Debug, Clone)]
pub enum SecurityViolation {
    StringTooLong(usize, usize),
    ArrayTooLarge(usize, usize),
    DictionaryTooLarge(usize, usize),
    StreamTooLarge(usize, usize),
    NestingTooDeep(usize, usize),
    TooManyReferences(usize, usize),
    ForbiddenObjectType(String),
    ForbiddenDictionaryKey(String),
    SuspiciousPattern(String, String),
    MaliciousJavaScript(String),
    DangerousForm(String),
    SuspiciousAnnotation(String),
    TooManyPages(usize, usize),
    FileTooLarge(usize, usize),
}


/// The number of bytes in the UTF-8 encoding of `c`.
pub open spec fn utf8_width(c: char) -> nat {
    encode_scalar(c as u32).len()
}

/// The longest start of `s` whose UTF-8 encoding fits in `n` bytes.
pub open spec fn chars_within(s: Seq<char>, n: int) -> Seq<char>
    decreases s.len(),
{
    if s.len() == 0 || utf8_width(s[0]) > n {
        seq![]
    } else {
        seq![s[0]] + chars_within(s.drop_first(), n - utf8_width(s[0]))
    }
}

/// Cutting `s` after its first `n` bytes falls between two characters (or `s` is no
/// longer).
pub open spec fn cut_is_safe(s: Seq<char>, n: int) -> bool {
    encode_utf8(s).len() <= n || is_char_boundary(encode_utf8(s), n)
}

/// Where the cut falls between characters, the characters that fit in `n` bytes are
/// exactly the first `n` bytes of the text (all of it when shorter).
pub proof fn lemma_chars_within_is_byte_prefix(s: Seq<char>, n: int)
    requires
        0 <= n,
        cut_is_safe(s, n),
    ensures
        encode_utf8(chars_within(s, n)) == encode_utf8(s).subrange(
            0,
            if encode_utf8(s).len() <= n {
                encode_utf8(s).len() as int
            } else {
                n
            },
        ),
    decreases s.len(),
{
    let b = encode_utf8(s);
    if s.len() == 0 {
        assert(b.subrange(0, 0) =~= Seq::<u8>::empty());
    } else {
        let c = s[0];
        let rest = s.drop_first();
        let w = utf8_width(c);
        encode_utf8_first_scalar(s);
        encode_utf8_valid_utf8(s);
        assert(vstd::utf8::pop_first_scalar(b) =~= encode_utf8(rest));
        assert(b =~= encode_scalar(c as u32) + encode_utf8(rest));
        if w > n {
            if b.len() > n && n > 0 {
                encode_utf8_valid_utf8(rest);
                reveal_with_fuel(is_char_boundary, 2);
                assert(!is_char_boundary(b, n));
            }
            assert(b.subrange(0, 0) =~= Seq::<u8>::empty());
        } else {
            assert(cut_is_safe(rest, n - w));
            lemma_chars_within_is_byte_prefix(rest, n - w);
            lemma_encode_utf8_concat(seq![c], chars_within(rest, n - w));
            assert(encode_utf8(seq![c]) =~= encode_scalar(c as u32)) by {
                assert(seq![c][0] == c);
                assert(seq![c].drop_first() =~= Seq::<char>::empty());
                assert(encode_utf8(Seq::<char>::empty()) =~= Seq::<u8>::empty());
            }
            let m = if b.len() <= n {
                b.len() as int
            } else {
                n
            };
            assert(b.subrange(0, m) =~= encode_scalar(c as u32) + encode_utf8(rest).subrange(
                0,
                m - w,
            ));
        }
    }
}

/// The width of `c` in UTF-8.
fn char_width(c: char) -> (r: usize)
    ensures
        r == utf8_width(c),
{
    let v = c as u32;
    if v < 0x80 {
        1
    } else if v < 0x800 {
        2
    } else if v < 0x10000 {
        3
    } else {
        4
    }
}

/// The start of `s` that its first `n` bytes hold.
pub(crate) fn text_within(s: &str, n: usize) -> (r: String)
    ensures
        r@ == chars_within(s@, n as int),
{
    let len = s.unicode_len();
    let mut i: usize = 0;
    let mut used: usize = 0;
    assert(s@.subrange(0, 0) + chars_within(s@.subrange(0, len as int), n as int) =~= chars_within(
        s@,
        n as int,
    )) by {
        assert(s@.subrange(0, len as int) =~= s@);
    }
    while i < len && char_width(s.get_char(i)) <= n - used
        invariant
            i <= len,
            len == s@.len(),
            used <= n,
            s@.subrange(0, i as int) + chars_within(s@.subrange(i as int, len as int), n - used)
                == chars_within(s@, n as int),
        decreases len - i,
    {
        let w = char_width(s.get_char(i));
        let ghost rest = s@.subrange(i as int, len as int);
        assert(rest[0] == s@[i as int]);
        assert(rest.drop_first() =~= s@.subrange(i + 1, len as int));
        assert(s@.subrange(0, i + 1) =~= s@.subrange(0, i as int) + seq![s@[i as int]]);
        assert(s@.subrange(0, i + 1) + chars_within(s@.subrange(i + 1, len as int), n - used - w)
            =~= s@.subrange(0, i as int) + chars_within(rest, n - used));
        used = used + w;
        i += 1;
    }
    proof {
        let rest = s@.subrange(i as int, len as int);
        if i < len {
            assert(rest[0] == s@[i as int]);
        }
        assert(chars_within(rest, n - used) =~= Seq::<char>::empty());
        assert(s@.subrange(0, i as int) + Seq::<char>::empty() =~= s@.subrange(0, i as int));
    }
    s.substring_char(0, i).to_string()
}

/// What a violation's text needs to be written: a cut after 100 bytes of quoted content
/// that falls between characters.
pub open spec fn message_writable(v: SecurityViolation) -> bool {
    match v {
        SecurityViolation::SuspiciousPattern(_, content) => cut_is_safe(content@, 100),
        SecurityViolation::MaliciousJavaScript(script) => cut_is_safe(script@, 100),
        _ => true,
    }
}

/// The text of a violation: what was found and the limit it breaks; quoted content is cut
/// after its first 100 bytes.
pub open spec fn violation_text(v: SecurityViolation) -> Seq<char> {
    match v {
        SecurityViolation::StringTooLong(len, max) => "String too long: "@ + decimal(len as nat)
            + " > "@ + decimal(max as nat) + " characters"@,
        SecurityViolation::ArrayTooLarge(size, max) => "Array too large: "@ + decimal(size as nat)
            + " > "@ + decimal(max as nat) + " elements"@,
        SecurityViolation::DictionaryTooLarge(size, max) => "Dictionary too large: "@ + decimal(
            size as nat,
        ) + " > "@ + decimal(max as nat) + " entries"@,
        SecurityViolation::StreamTooLarge(size, max) => "Stream too large: "@ + decimal(size as nat)
            + " > "@ + decimal(max as nat) + " bytes"@,
        SecurityViolation::NestingTooDeep(depth, max) => "Nesting too deep: "@ + decimal(
            depth as nat,
        ) + " > "@ + decimal(max as nat) + " levels"@,
        SecurityViolation::TooManyReferences(count, max) => "Too many references: "@ + decimal(
            count as nat,
        ) + " > "@ + decimal(max as nat),
        SecurityViolation::ForbiddenObjectType(t) => "Forbidden object type: "@ + t@,
        SecurityViolation::ForbiddenDictionaryKey(k) => "Forbidden dictionary key: "@ + k@,
        SecurityViolation::SuspiciousPattern(pattern, content) => "Suspicious pattern '"@
            + pattern@ + "' in content: "@ + chars_within(content@, 100),
        SecurityViolation::MaliciousJavaScript(script) => "Malicious JavaScript detected: "@
            + chars_within(script@, 100),
        SecurityViolation::DangerousForm(d) => "Dangerous form field: "@ + d@,
        SecurityViolation::SuspiciousAnnotation(d) => "Suspicious annotation: "@ + d@,
        SecurityViolation::TooManyPages(count, max) => "Too many pages: "@ + decimal(count as nat)
            + " > "@ + decimal(max as nat),
        SecurityViolation::FileTooLarge(size, max) => "File too large: "@ + decimal(size as nat)
            + " > "@ + decimal(max as nat) + " bytes"@,
    }
}

/// `head`, the two numbers with `sep` between them, then `tail`.
fn numbers_text(head: &str, a: usize, sep: &str, b: usize, tail: &str) -> (r: String)
    ensures
        r@ == head@ + decimal(a as nat) + sep@ + decimal(b as nat) + tail@,
{
    let mut m = head.to_string();
    append_decimal(&mut m, a as u64);
    m.append(sep);
    append_decimal(&mut m, b as u64);
    m.append(tail);
    m
}

/// `head` followed by `text`.
fn prefixed(head: &str, text: &str) -> (r: String)
    ensures
        r@ == head@ + text@,
{
    let mut m = head.to_string();
    m.append(text);
    m
}

impl SecurityViolation {
    /// The violation's text.
    pub fn message(&self) -> (r: String)
        requires
            message_writable(*self),
        ensures
            r@ == violation_text(*self),
    {
        match self {
            SecurityViolation::StringTooLong(len, max) => numbers_text(
                "String too long: ",
                *len,
                " > ",
                *max,
                " characters",
            ),
            SecurityViolation::ArrayTooLarge(size, max) => numbers_text(
                "Array too large: ",
                *size,
                " > ",
                *max,
                " elements",
            ),
            SecurityViolation::DictionaryTooLarge(size, max) => numbers_text(
                "Dictionary too large: ",
                *size,
                " > ",
                *max,
                " entries",
            ),
            SecurityViolation::StreamTooLarge(size, max) => numbers_text(
                "Stream too large: ",
                *size,
                " > ",
                *max,
                " bytes",
            ),
            SecurityViolation::NestingTooDeep(depth, max) => numbers_text(
                "Nesting too deep: ",
                *depth,
                " > ",
                *max,
                " levels",
            ),
            SecurityViolation::TooManyReferences(count, max) => {
                let m = numbers_text("Too many references: ", *count, " > ", *max, "");
                proof {
                    reveal_strlit("");
                    assert(m@ =~= violation_text(*self));
                }
                m
            },
            SecurityViolation::ForbiddenObjectType(t) => prefixed("Forbidden object type: ", t.as_str()),
            SecurityViolation::ForbiddenDictionaryKey(k) => prefixed(
                "Forbidden dictionary key: ",
                k.as_str(),
            ),
            SecurityViolation::SuspiciousPattern(pattern, content) => {
                let mut m = prefixed("Suspicious pattern '", pattern.as_str());
                m.append("' in content: ");
                let cut = text_within(content.as_str(), 100);
                m.append(cut.as_str());
                m
            },
            SecurityViolation::MaliciousJavaScript(script) => {
                let cut = text_within(script.as_str(), 100);
                prefixed("Malicious JavaScript detected: ", cut.as_str())
            },
            SecurityViolation::DangerousForm(d) => prefixed("Dangerous form field: ", d.as_str()),
            SecurityViolation::SuspiciousAnnotation(d) => prefixed("Suspicious annotation: ", d.as_str()),
            SecurityViolation::TooManyPages(count, max) => {
                let m = numbers_text("Too many pages: ", *count, " > ", *max, "");
                proof {
                    reveal_strlit("");
                    assert(m@ =~= violation_text(*self));
                }
                m
            },
            SecurityViolation::FileTooLarge(size, max) => numbers_text(
                "File too large: ",
                *size,
                " > ",
                *max,
                " bytes",
            ),
        }
    }
}

} // verus!
