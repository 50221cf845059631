//! Stream data held in memory, and objects packed in object streams.

use crate::text::{
    append_decimal, append_signed_decimal, concat_str, decimal, parse_unsigned, signed_decimal,
    split_whitespace_ranges, split_words,
};
use vstd::prelude::*;
use vstd::utf8::{decode_utf8, valid_utf8};

verus! {

/// `std::io::Error::new(ErrorKind::UnexpectedEof, message)`.
#[verifier::external_body]
fn unexpected_eof(message: &str) -> std::io::Error {
    std::io::Error::new(std::io::ErrorKind::UnexpectedEof, message)
}

/// Stream data held in memory.
pub struct MemoryStreamSource {
    data: Vec<u8>,
}

impl MemoryStreamSource {
    /// The bytes held.
    pub closed spec fn bytes(&self) -> Seq<u8> {
        self.data@
    }

    pub fn new(data: Vec<u8>) -> (r: Self)
        ensures
            r.bytes() == data@,
    {
        MemoryStreamSource { data }
    }

    /// The `length` bytes at `offset` (taken as a `usize`); an end-of-file error when they
    /// run past the data.
    pub fn read_at(&mut self, offset: u64, length: usize) -> (r: Result<Vec<u8>, std::io::Error>)
        requires
            (offset as usize) + length <= usize::MAX,
        ensures
            final(self).bytes() == old(self).bytes(),
            (offset as usize) + length <= old(self).bytes().len() ==> (r matches Ok(v) && v@
                == old(self).bytes().subrange(offset as usize as int, (offset as usize) + length)),
            (offset as usize) + length > old(self).bytes().len() ==> r is Err,
    {
        let offset = offset as usize;
        if offset + length > self.data.len() {
            return Err(unexpected_eof("Read beyond end of stream"));
        }
        let stop = offset + length;
        let mut out: Vec<u8> = Vec::new();
        let mut k = offset;
        while k < stop
            invariant
                offset <= k <= stop,
                stop == offset + length,
                stop <= self.data@.len(),
                out@ == self.data@.subrange(offset as int, k as int),
            decreases stop - k,
        {
            out.push(self.data[k]);
            assert(out@ =~= self.data@.subrange(offset as int, k + 1));
            k += 1;
        }
        Ok(out)
    }
}

/// What `<Utf8Error as Display>` writes for the bytes `b` that are not UTF-8.
pub uninterp spec fn utf8_error_text(b: Seq<u8>) -> Seq<char>;

/// `std::str::from_utf8`: the text whose UTF-8 encoding the bytes are, or the error's text.
#[verifier::external_body]
pub(crate) fn utf8_text(bytes: &[u8]) -> (r: Result<&str, String>)
    ensures
        r is Ok <==> valid_utf8(bytes@),
        r matches Ok(s) ==> s@ == decode_utf8(bytes@),
        r matches Err(m) ==> m@ == utf8_error_text(bytes@),
{
    match std::str::from_utf8(bytes) {
        Ok(s) => Ok(s),
        Err(e) => Err(e.to_string()),
    }
}

/// What `<ParseIntError as Display>` writes when `t` is not a `usize`.
pub uninterp spec fn int_error_text(t: Seq<char>) -> Seq<char>;

/// `<usize as FromStr>::from_str`: an optional `+` and decimal digits whose value fits, or the
/// error's text.
#[verifier::external_body]
fn parse_usize(t: &str) -> (r: Result<usize, String>)
    ensures
        match r {
            Ok(v) => parse_unsigned(t@, usize::MAX as nat) == Some(v as nat),
            Err(m) => parse_unsigned(t@, usize::MAX as nat) is None && m@ == int_error_text(t@),
        },
{
    match t.parse::<usize>() {
        Ok(v) => Ok(v),
        Err(e) => Err(e.to_string()),
    }
}

/// The position in the offset table of the offset of object `index`: `2 index + 1`, wrapping
/// at 2^32.
pub open spec fn offset_token(index: u32) -> u32 {
    vstd::wrapping::u32_specs::wrapping_add(vstd::wrapping::u32_specs::wrapping_mul(index, 2), 1)
}

/// The words of the offset table, which takes the first `end` bytes.
pub open spec fn table_words(data: Seq<u8>, end: int) -> Seq<Seq<char>> {
    split_words(decode_utf8(data.subrange(0, end)))
}

/// Where the next object starts: after the object's offset table entry when there is a next
/// object, else the end of the data.
pub open spec fn next_object_offset(
    data: Seq<u8>,
    nv: i64,
    fv: i64,
    index: u32,
    words: Seq<Seq<char>>,
) -> Result<nat, Seq<char>> {
    if (index as int) + 1 < nv as u32 {
        let t = words[offset_token((index + 1) as u32) as int];
        match parse_unsigned(t, usize::MAX as nat) {
            None => Err("Invalid next offset: "@ + int_error_text(t)),
            Some(o) => Ok(
                vstd::wrapping::usize_specs::wrapping_add(fv as usize, o as usize) as nat,
            ),
        }
    } else {
        Ok(data.len())
    }
}

/// The data of object `index` of an object stream with `N` = `n` and `First` = `first`,
/// or the error message.
pub open spec fn object_stream_result(data: Seq<u8>, n: Option<i64>, first: Option<i64>, index: u32) -> Result<
    Seq<u8>,
    Seq<char>,
> {
    match (n, first) {
        (None, _) => Err("Missing N in object stream"@),
        (Some(_), None) => Err("Missing First in object stream"@),
        (Some(nv), Some(fv)) => if index >= nv as u32 {
            Err(
                "Index "@ + decimal(index as nat) + " out of range for object stream with "@
                    + signed_decimal(nv as int) + " objects"@,
            )
        } else if (fv as usize) > data.len() {
            Err("Invalid First offset in object stream"@)
        } else if !valid_utf8(data.subrange(0, fv as usize as int)) {
            Err("Invalid offset table: "@ + utf8_error_text(data.subrange(0, fv as usize as int)))
        } else {
            let words = table_words(data, fv as usize as int);
            if words.len() < vstd::wrapping::u32_specs::wrapping_add(
                vstd::wrapping::u32_specs::wrapping_mul(index, 2),
                2,
            ) {
                Err("Insufficient entries in offset table"@)
            } else {
                let t = words[offset_token(index) as int];
                match parse_unsigned(t, usize::MAX as nat) {
                    None => Err("Invalid offset: "@ + int_error_text(t)),
                    Some(o) => {
                        let start = vstd::wrapping::usize_specs::wrapping_add(fv as usize, o as usize);
                        match next_object_offset(data, nv, fv, index, words) {
                            Err(e) => Err(e),
                            Ok(end) => if start >= data.len() || end > data.len() {
                                Err("Object offset out of bounds"@)
                            } else {
                                Ok(data.subrange(start as int, end as int))
                            },
                        }
                    },
                }
            }
        },
    }
}

/// The inputs on which extraction indexes past the offset table or slices backwards.
pub open spec fn object_stream_fails(data: Seq<u8>, n: Option<i64>, first: Option<i64>, index: u32) -> bool {
    match (n, first) {
        (Some(nv), Some(fv)) => {
            let end = fv as usize as int;
            let words = table_words(data, end);
            &&& index < nv as u32
            &&& end <= data.len()
            &&& valid_utf8(data.subrange(0, end))
            &&& words.len() >= vstd::wrapping::u32_specs::wrapping_add(
                vstd::wrapping::u32_specs::wrapping_mul(index, 2),
                2,
            )
            &&& {
                ||| words.len() <= offset_token(index)
                ||| match parse_unsigned(words[offset_token(index) as int], usize::MAX as nat) {
                    Some(o) => {
                        let start = vstd::wrapping::usize_specs::wrapping_add(fv as usize, o as usize);
                        ||| ((index as int) + 1 < nv as u32 && words.len() <= offset_token(
                            (index + 1) as u32,
                        ))
                        ||| match next_object_offset(data, nv, fv, index, words) {
                            Ok(e) => start < data.len() && e <= data.len() && start > e,
                            Err(_) => false,
                        }
                    },
                    None => false,
                }
            }
        },
        _ => false,
    }
}

/// The data of object `index` of an object stream whose dictionary gives `N` = `n` and
/// `First` = `first`: the offset table is the text before `First`, a list of object number and
/// offset pairs; the object runs from its offset to the next object's offset, or to the end.
pub fn extract_from_object_stream(data: &[u8], n: Option<i64>, first: Option<i64>, index: u32) -> (r:
    Result<Vec<u8>, String>)
    requires
        !object_stream_fails(data@, n, first, index),
    ensures
        match r {
            Ok(v) => object_stream_result(data@, n, first, index) == Ok::<Seq<u8>, Seq<char>>(v@),
            Err(m) => object_stream_result(data@, n, first, index) == Err::<Seq<u8>, Seq<char>>(m@),
        },
{
    let nv = match n {
        Some(v) => v,
        None => {
            return Err("Missing N in object stream".to_string());
        },
    };
    let fv = match first {
        Some(v) => v,
        None => {
            return Err("Missing First in object stream".to_string());
        },
    };
    let count = nv as u32;
    if index >= count {
        let mut m = "Index ".to_string();
        append_decimal(&mut m, index as u64);
        m.append(" out of range for object stream with ");
        append_signed_decimal(&mut m, nv);
        m.append(" objects");
        return Err(m);
    }
    let end = fv as usize;
    if end > data.len() {
        return Err("Invalid First offset in object stream".to_string());
    }
    let table = vstd::slice::slice_subrange(data, 0, end);
    let text = match utf8_text(table) {
        Ok(t) => t,
        Err(e) => {
            return Err(concat_str("Invalid offset table: ", e.as_str()));
        },
    };
    let ranges = split_whitespace_ranges(text);
    let ghost words = split_words(text@);
    assert(words == table_words(data@, end as int));
    let needed = index.wrapping_mul(2).wrapping_add(2);
    if ranges.len() < needed as usize {
        return Err("Insufficient entries in offset table".to_string());
    }
    let pos = index.wrapping_mul(2).wrapping_add(1);
    assert(pos == offset_token(index));
    let (a, b) = ranges[pos as usize];
    let token = text.substring_char(a, b);
    assert(token@ == words[pos as int]);
    let offset = match parse_usize(token) {
        Ok(v) => v,
        Err(e) => {
            return Err(concat_str("Invalid offset: ", e.as_str()));
        },
    };
    let start = end.wrapping_add(offset);
    let next = if index + 1 < count {
        let pos2 = (index + 1).wrapping_mul(2).wrapping_add(1);
        assert(pos2 == offset_token((index + 1) as u32));
        let (a2, b2) = ranges[pos2 as usize];
        let token2 = text.substring_char(a2, b2);
        assert(token2@ == words[pos2 as int]);
        match parse_usize(token2) {
            Ok(v) => end.wrapping_add(v),
            Err(e) => {
                return Err(concat_str("Invalid next offset: ", e.as_str()));
            },
        }
    } else {
        data.len()
    };
    assert(next_object_offset(data@, nv, fv, index, words) == Ok::<nat, Seq<char>>(next as nat));
    if start >= data.len() || next > data.len() {
        return Err("Object offset out of bounds".to_string());
    }
    Ok(vstd::slice::slice_to_vec(vstd::slice::slice_subrange(data, start, next)))
}

} // verus!
