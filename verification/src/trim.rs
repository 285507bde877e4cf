//! Removal of leading white space, as Unicode defines it.

use crate::utf8::lemma_encode_concat;
use vstd::prelude::*;
use vstd::utf8::*;

verus! {

/// Whether `c` has the Unicode property `White_Space`: the controls from tab
/// to carriage return, the space, next line, the no-break space, the Ogham
/// space mark, the spaces from en quad to hair space, the line and the
/// paragraph separator, the narrow no-break space, the medium mathematical
/// space and the ideographic space.
pub open spec fn is_white_space(c: char) -> bool {
    let u = c as u32;
    ||| 0x0009 <= u <= 0x000D
    ||| u == 0x0020
    ||| u == 0x0085
    ||| u == 0x00A0
    ||| u == 0x1680
    ||| 0x2000 <= u <= 0x200A
    ||| u == 0x2028
    ||| u == 0x2029
    ||| u == 0x202F
    ||| u == 0x205F
    ||| u == 0x3000
}

/// The number of white-space characters with which `text` begins.
pub open spec fn leading_white_space(text: Seq<char>) -> nat
    decreases text.len(),
{
    if text.len() > 0 && is_white_space(text[0]) {
        1 + leading_white_space(text.drop_first())
    } else {
        0
    }
}

/// `text` without the white space it begins with.
pub open spec fn trimmed_start(text: Seq<char>) -> Seq<char> {
    text.skip(leading_white_space(text) as int)
}

/// The byte offset at which `trimmed_start(text)` begins in the bytes of
/// `text`: the byte length of the leading white space.
pub open spec fn trim_offset(text: Seq<char>) -> int {
    encode_utf8(text.take(leading_white_space(text) as int)).len() as int
}

/// `str::trim_start` returns the text without its leading white space,
/// where white space is what the Unicode property `White_Space` says.
pub assume_specification[ str::trim_start ](s: &str) -> (r: &str)
    ensures
        r@ == trimmed_start(s@),
;

/// The leading white space is a prefix of the text.
pub proof fn lemma_leading_white_space_bound(text: Seq<char>)
    ensures
        leading_white_space(text) <= text.len(),
    decreases text.len(),
{
    if text.len() > 0 && is_white_space(text[0]) {
        lemma_leading_white_space_bound(text.drop_first());
    }
}

/// What is trimmed is white space, and what is left does not begin with
/// white space.
pub proof fn lemma_trimmed_start(text: Seq<char>)
    ensures
        leading_white_space(text) <= text.len(),
        forall|i: int| 0 <= i < leading_white_space(text) ==> is_white_space(#[trigger] text[i]),
        trimmed_start(text).len() > 0 ==> !is_white_space(trimmed_start(text)[0]),
    decreases text.len(),
{
    lemma_leading_white_space_bound(text);
    if text.len() > 0 && is_white_space(text[0]) {
        let rest = text.drop_first();
        lemma_trimmed_start(rest);
        assert(trimmed_start(text) =~= trimmed_start(rest));
        assert forall|i: int| 0 <= i < leading_white_space(text) implies is_white_space(
            #[trigger] text[i],
        ) by {
            if i > 0 {
                assert(text[i] == rest[i - 1]);
            }
        }
    }
}

/// In bytes, trimming cuts at `trim_offset`: that offset is a character
/// boundary of the text's bytes, and the bytes from there on are those of the
/// trimmed text.
pub proof fn lemma_trim_offset(text: Seq<char>)
    ensures
        0 <= trim_offset(text) <= encode_utf8(text).len(),
        trim_offset(text) == encode_utf8(text).len() - encode_utf8(trimmed_start(text)).len(),
        is_char_boundary(encode_utf8(text), trim_offset(text)),
        encode_utf8(text).subrange(trim_offset(text), encode_utf8(text).len() as int)
            == encode_utf8(trimmed_start(text)),
{
    lemma_leading_white_space_bound(text);
    let k = leading_white_space(text) as int;
    let head = text.take(k);
    let tail = text.skip(k);
    assert(head + tail =~= text);
    lemma_encode_concat(head, tail);
    assert((encode_utf8(head) + encode_utf8(tail)).subrange(
        encode_utf8(head).len() as int,
        encode_utf8(text).len() as int,
    ) =~= encode_utf8(tail));
}

} // verus!
