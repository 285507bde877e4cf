//! UTF-8 text as bytes: what std's conversions promise, facts about character
//! boundaries inside a window of a valid byte sequence, and slicing of `str`
//! by byte offsets.

use core::str::Utf8Error;
use vstd::prelude::*;
use vstd::string::StringSliceAdditionalSpecFns;
use vstd::utf8::*;

verus! {

/// `core::str::Utf8Error`, the error of `core::str::from_utf8`. Nothing is
/// read from it.
#[verifier::external_type_specification]
#[verifier::external_body]
pub struct ExUtf8Error(Utf8Error);

/// `core::str::from_utf8` accepts exactly the byte slices that are valid
/// UTF-8, and the text it returns is made of the very bytes it was given.
pub assume_specification[ core::str::from_utf8 ](v: &[u8]) -> (res: Result<&str, Utf8Error>)
    ensures
        res is Ok <==> valid_utf8(v@),
        res matches Ok(s) ==> s.spec_bytes() == v@,
;

/// A character boundary of a valid sequence is an offset of it: none lies
/// before its start or beyond its end.
pub proof fn lemma_boundary_in_bounds(bytes: Seq<u8>, i: int)
    requires
        valid_utf8(bytes),
        is_char_boundary(bytes, i),
    ensures
        0 <= i <= bytes.len(),
{
}

/// Within a prefix that ends on a character boundary, the character
/// boundaries are those of the whole sequence.
pub proof fn lemma_boundary_in_prefix(bytes: Seq<u8>, end: int, i: int)
    requires
        valid_utf8(bytes),
        is_char_boundary(bytes, end),
        0 <= i <= end <= bytes.len(),
    ensures
        valid_utf8(bytes.subrange(0, end)),
        is_char_boundary(bytes.subrange(0, end), i) <==> is_char_boundary(bytes, i),
{
    let prefix = bytes.subrange(0, end);
    valid_utf8_split(bytes, end);
    if i == end {
        is_char_boundary_start_end_of_seq(prefix);
    } else {
        is_char_boundary_iff_not_is_continuation_byte(prefix, i);
        is_char_boundary_iff_not_is_continuation_byte(bytes, i);
    }
}

/// Within a suffix that starts on a character boundary, the character
/// boundaries are those of the whole sequence, moved by the suffix's start.
pub proof fn lemma_boundary_in_suffix(bytes: Seq<u8>, start: int, i: int)
    requires
        valid_utf8(bytes),
        is_char_boundary(bytes, start),
        0 <= start <= bytes.len(),
        0 <= i <= bytes.len() - start,
    ensures
        valid_utf8(bytes.subrange(start, bytes.len() as int)),
        is_char_boundary(bytes.subrange(start, bytes.len() as int), i) <==> is_char_boundary(
            bytes,
            start + i,
        ),
{
    let suffix = bytes.subrange(start, bytes.len() as int);
    valid_utf8_split(bytes, start);
    if start + i == bytes.len() {
        is_char_boundary_start_end_of_seq(suffix);
        is_char_boundary_start_end_of_seq(bytes);
    } else {
        is_char_boundary_iff_not_is_continuation_byte(suffix, i);
        is_char_boundary_iff_not_is_continuation_byte(bytes, start + i);
    }
}

/// A window between two character boundaries of a valid sequence is valid
/// itself, and its character boundaries are those of the whole sequence, moved
/// by the window's start.
pub proof fn lemma_window(bytes: Seq<u8>, start: int, end: int, i: int)
    requires
        valid_utf8(bytes),
        is_char_boundary(bytes, start),
        is_char_boundary(bytes, end),
        0 <= start <= end <= bytes.len(),
        0 <= i <= end - start,
    ensures
        valid_utf8(bytes.subrange(start, end)),
        is_char_boundary(bytes.subrange(start, end), i) <==> is_char_boundary(bytes, start + i),
{
    let prefix = bytes.subrange(0, end);
    lemma_boundary_in_prefix(bytes, end, start);
    lemma_boundary_in_prefix(bytes, end, start + i);
    lemma_boundary_in_suffix(prefix, start, i);
    assert(prefix.subrange(start, prefix.len() as int) =~= bytes.subrange(start, end));
}

/// The bytes of two texts in a row are the bytes of the first followed by the
/// bytes of the second, and the place where they meet is a character boundary.
pub proof fn lemma_encode_concat(a: Seq<char>, b: Seq<char>)
    ensures
        encode_utf8(a + b) == encode_utf8(a) + encode_utf8(b),
        is_char_boundary(encode_utf8(a + b), encode_utf8(a).len() as int),
    decreases a.len(),
{
    encode_utf8_valid_utf8(a + b);
    if a.len() == 0 {
        assert(a + b =~= b);
        assert(encode_utf8(a) + encode_utf8(b) =~= encode_utf8(b));
    } else {
        let rest = a.drop_first();
        lemma_encode_concat(rest, b);
        assert((a + b).drop_first() =~= rest + b);
        assert(encode_utf8(a + b) =~= encode_utf8(a) + encode_utf8(b));
        encode_utf8_first_scalar(a + b);
        assert(pop_first_scalar(encode_utf8(a + b)) =~= encode_utf8(rest + b));
        assert(encode_utf8(a).len() == encode_scalar(a[0] as u32).len() + encode_utf8(rest).len());
    }
}

/// The part of `s` between the byte offsets `start` and `end`, both of which
/// lie on character boundaries. Nothing is copied.
pub fn substr(s: &str, start: usize, end: usize) -> (r: &str)
    requires
        start <= end <= s.spec_bytes().len(),
        is_char_boundary(s.spec_bytes(), start as int),
        is_char_boundary(s.spec_bytes(), end as int),
    ensures
        r.spec_bytes() == s.spec_bytes().subrange(start as int, end as int),
{
    proof {
        encode_utf8_valid_utf8(s@);
        lemma_boundary_in_prefix(s.spec_bytes(), end as int, start as int);
    }
    let (head, _) = s.split_at(end);
    let (_, tail) = head.split_at(start);
    assert(head.spec_bytes().subrange(start as int, head.spec_bytes().len() as int)
        =~= s.spec_bytes().subrange(start as int, end as int));
    tail
}

} // verus!
