//! Character boundaries in UTF-8 text.

use vstd::prelude::*;
use vstd::utf8::{
    encode_utf8, encode_utf8_valid_utf8, is_ascii_chars, is_ascii_chars_encode_utf8,
    is_char_boundary, is_char_boundary_iff_is_leading_byte,
    is_char_boundary_iff_not_is_continuation_byte, is_char_boundary_start_end_of_seq, valid_utf8,
    valid_utf8_split,
};

verus! {

/// The encoding of two strings one after the other is the two encodings one after the other.
pub proof fn lemma_encode_utf8_concat(x: Seq<char>, y: Seq<char>)
    ensures
        encode_utf8(x + y) == encode_utf8(x) + encode_utf8(y),
    decreases x.len(),
{
    if x.len() == 0 {
        assert(x + y =~= y);
        assert(encode_utf8(x) =~= Seq::<u8>::empty());
        assert(encode_utf8(x) + encode_utf8(y) =~= encode_utf8(y));
    } else {
        lemma_encode_utf8_concat(x.drop_first(), y);
        assert((x + y).drop_first() =~= x.drop_first() + y);
        assert((x + y)[0] == x[0]);
    }
}

/// A boundary `k` of `b` at or after a boundary `a` is a boundary of `b[a..]`.
pub proof fn lemma_boundary_in_suffix(b: Seq<u8>, a: int, k: int)
    requires
        valid_utf8(b),
        is_char_boundary(b, a),
        is_char_boundary(b, k),
        0 <= a <= k <= b.len(),
    ensures
        valid_utf8(b.subrange(a, b.len() as int)),
        is_char_boundary(b.subrange(a, b.len() as int), k - a),
{
    let sub = b.subrange(a, b.len() as int);
    valid_utf8_split(b, a);
    if k == b.len() {
        is_char_boundary_start_end_of_seq(sub);
    } else {
        is_char_boundary_iff_not_is_continuation_byte(b, k);
        is_char_boundary_iff_not_is_continuation_byte(sub, k - a);
        assert(sub[k - a] == b[k]);
    }
}

/// A text whose first `n` characters are ASCII has a character boundary at byte `n`, and
/// those `n` bytes are the characters.
pub proof fn lemma_ascii_prefix_boundary(s: Seq<char>, n: int)
    requires
        0 <= n <= s.len(),
        is_ascii_chars(s.subrange(0, n)),
    ensures
        encode_utf8(s).len() >= n,
        is_char_boundary(encode_utf8(s), n),
        encode_utf8(s).subrange(0, n) == encode_utf8(s.subrange(0, n)),
        forall|i: int| 0 <= i < n ==> encode_utf8(s)[i] == s[i] as u8,
{
    let head = s.subrange(0, n);
    let tail = s.subrange(n, s.len() as int);
    assert(s =~= head + tail);
    lemma_encode_utf8_concat(head, tail);
    is_ascii_chars_encode_utf8(head);
    let b = encode_utf8(s);
    encode_utf8_valid_utf8(s);
    encode_utf8_valid_utf8(tail);
    assert(b.subrange(0, n) =~= encode_utf8(head));
    assert forall|i: int| 0 <= i < n implies b[i] == s[i] as u8 by {
        assert(head[i] == s[i]);
    }
    if n == b.len() {
        is_char_boundary_start_end_of_seq(b);
    } else {
        let eb = encode_utf8(tail);
        assert(eb.len() > 0);
        assert(is_char_boundary(eb, 0));
        is_char_boundary_iff_is_leading_byte(eb, 0);
        assert(b[n] == eb[0]);
        is_char_boundary_iff_is_leading_byte(b, n);
    }
}

} // verus!
