//! The text type itself. It owns one of the three representations and routes
//! every operation to it.

use crate::bytes::Bytes;
use crate::inline::{InlineString, CAPACITY};
use crate::range::{coerce, coerced};
use crate::repr::{lemma_round_trip, lemma_slice, lemma_valid, Kind, Repr};
use crate::shared::SharedString;
use crate::trim::{lemma_trim_offset, trim_offset, trimmed_start};
use crate::utf8::{lemma_boundary_in_bounds, lemma_encode_concat, substr};
use std::ops::{Bound, RangeInclusive};
use vstd::prelude::*;
use vstd::string::StringSliceAdditionalSpecFns;
use vstd::utf8::*;

verus! {

/// `String::push` of std appends one character to the text.
pub assume_specification[ std::string::String::push ](s: &mut std::string::String, ch: char)
    ensures
        final(s)@ == old(s)@.push(ch),
;

/// An immutable UTF-8 text. A text without bytes takes no storage, a short
/// one is held in place, and a long one is a window into a buffer that all
/// its clones and sub-slices share.
pub struct String(StringInner);

enum StringInner {
    Empty,
    Inline(InlineString),
    Shared(SharedString),
}

impl View for String {
    type V = Seq<char>;

    /// The text.
    open spec fn view(&self) -> Seq<char> {
        self.repr().text()
    }
}

impl String {
    /// What this value holds.
    pub closed spec fn repr(&self) -> Repr {
        match self.0 {
            StringInner::Empty => Repr::Empty,
            StringInner::Inline(s) => Repr::Inline(s.spec_bytes()),
            StringInner::Shared(s) => Repr::Shared {
                buffer: s.buffer_bytes(),
                start: s.window_start(),
                len: s.spec_bytes().len() as int,
            },
        }
    }

    /// The UTF-8 bytes of the text.
    pub open spec fn spec_bytes(&self) -> Seq<u8> {
        self.repr().bytes()
    }

    /// Every value keeps the invariant of its representation.
    #[verifier::type_invariant]
    pub open spec fn wf(&self) -> bool {
        self.repr().wf()
    }

    /// Creates the empty text. Nothing is allocated.
    pub fn new() -> (res: Self)
        ensures
            res.repr() == Repr::Empty,
    {
        String(StringInner::Empty)
    }

    /// Which representation this value uses.
    pub fn kind(&self) -> (k: Kind)
        ensures
            k == self.repr().kind(),
    {
        match &self.0 {
            StringInner::Empty => Kind::Empty,
            StringInner::Inline(_) => Kind::Inline,
            StringInner::Shared(_) => Kind::Shared,
        }
    }

    /// The length of the text in bytes, not in characters.
    pub fn byte_len(&self) -> (n: usize)
        ensures
            n == self.spec_bytes().len(),
    {
        match &self.0 {
            StringInner::Empty => 0,
            StringInner::Inline(s) => s.byte_len(),
            StringInner::Shared(s) => {
                proof {
                    use_type_invariant(s);
                    s.lemma_wf();
                }
                s.byte_len()
            },
        }
    }

    /// Whether the text has no bytes.
    pub fn is_empty(&self) -> (b: bool)
        ensures
            b == (self.spec_bytes().len() == 0),
            b == (self.repr() == Repr::Empty),
    {
        proof {
            use_type_invariant(self);
        }
        match &self.0 {
            StringInner::Empty => true,
            _ => false,
        }
    }

    /// The whole text as a borrowed `str`.
    pub fn as_str(&self) -> (r: &str)
        ensures
            r@ == self@,
            r.spec_bytes() == self.spec_bytes(),
    {
        let r = match &self.0 {
            StringInner::Empty => "",
            StringInner::Inline(s) => s.as_str(),
            StringInner::Shared(s) => {
                proof {
                    use_type_invariant(s);
                    s.lemma_wf();
                }
                s.as_str()
            },
        };
        proof {
            reveal_strlit("");
            encode_utf8_decode_utf8(r@);
            assert(self.spec_bytes() =~= r.spec_bytes());
        }
        r
    }

    /// Coerces `range` onto this text: the inclusive range of byte offsets
    /// that the request and the text have in common, or `None` where they share
    /// no offset. No request is refused.
    pub fn coerce_range(&self, range: (Bound<usize>, Bound<usize>)) -> (r: Option<
        RangeInclusive<usize>,
    >)
        ensures
            match coerced(self.spec_bytes().len() as int, range) {
                Some((first, last)) => r matches Some(range) && range@.start == first && range@.end
                    == last && !range@.exhausted,
                None => r is None,
            },
    {
        match coerce(self.byte_len(), range) {
            Some((first, last)) => Some(RangeInclusive::new(first, last)),
            None => None,
        }
    }

    /// The byte offsets between which `get` takes its answer, or `None` where
    /// it has none. An empty text has no sub-slice. A request that shares no
    /// offset with a text that has bytes selects the empty text. Any other
    /// request selects the bytes of its coerced range, if that range starts and
    /// ends between two characters, and nothing if it does not.
    pub open spec fn spec_get(&self, range: (Bound<usize>, Bound<usize>)) -> Option<(int, int)> {
        let bytes = self.spec_bytes();
        if bytes.len() == 0 {
            None
        } else {
            match coerced(bytes.len() as int, range) {
                None => Some((0, 0)),
                Some((first, last)) => if is_char_boundary(bytes, first) && is_char_boundary(
                    bytes,
                    last + 1,
                ) {
                    Some((first, last + 1))
                } else {
                    None
                },
            }
        }
    }

    /// The sub-slice that `range` selects, without a panic on any request.
    /// Where `spec_get` names two offsets, the answer is the part between
    /// them, made as `own_str` makes it: a part of a shared text shares its
    /// buffer.
    pub fn get(&self, range: (Bound<usize>, Bound<usize>)) -> (r: Option<Self>)
        ensures
            match self.spec_get(range) {
                Some((from, to)) => r matches Some(part) && part.repr() == self.repr().slice(
                    from,
                    to,
                ) && part.spec_bytes() == self.spec_bytes().subrange(from, to),
                None => r is None,
            },
    {
        proof {
            use_type_invariant(self);
            lemma_valid(self.repr());
        }
        if self.is_empty() {
            return None;
        }
        match coerce(self.byte_len(), range) {
            None => {
                assert(self.spec_bytes().subrange(0, 0) =~= Seq::<u8>::empty());
                Some(String::new())
            },
            Some((first, last)) => {
                let text = self.as_str();
                if text.is_char_boundary(first) && text.is_char_boundary(last + 1) {
                    Some(self.own_str(first, last + 1))
                } else {
                    None
                }
            },
        }
    }

    /// The text between the coerced ends of `range`, borrowed. A request that
    /// shares no offset with the text selects the empty text: unlike the
    /// indexing of `str`, this accessor takes a range that is inverted or lies
    /// outside the text. Where the request does share offsets with the text,
    /// its coerced ends lie on character boundaries.
    pub fn index(&self, range: (Bound<usize>, Bound<usize>)) -> (r: &str)
        requires
            coerced(self.spec_bytes().len() as int, range) matches Some((first, last))
                ==> is_char_boundary(self.spec_bytes(), first) && is_char_boundary(
                self.spec_bytes(),
                last + 1,
            ),
        ensures
            r.spec_bytes() == match coerced(self.spec_bytes().len() as int, range) {
                Some((first, last)) => self.spec_bytes().subrange(first, last + 1),
                None => Seq::<u8>::empty(),
            },
    {
        match coerce(self.byte_len(), range) {
            None => {
                proof {
                    reveal_strlit("");
                    assert("".spec_bytes() =~= Seq::<u8>::empty());
                }
                ""
            },
            Some((first, last)) => substr(self.as_str(), first, last + 1),
        }
    }

    /// Divides the text in two at the byte offset `mid`, which lies on a
    /// character boundary.
    pub fn split_at(&self, mid: usize) -> (res: (Self, Self))
        requires
            is_char_boundary(self.spec_bytes(), mid as int),
        ensures
            res.0.repr() == self.repr().slice(0, mid as int),
            res.1.repr() == self.repr().slice(mid as int, self.spec_bytes().len() as int),
            res.0.spec_bytes() == self.spec_bytes().subrange(0, mid as int),
            res.1.spec_bytes() == self.spec_bytes().subrange(
                mid as int,
                self.spec_bytes().len() as int,
            ),
            res.0@ + res.1@ == self@,
    {
        proof {
            use_type_invariant(self);
            lemma_valid(self.repr());
            is_char_boundary_start_end_of_seq(self.spec_bytes());
            lemma_boundary_in_bounds(self.spec_bytes(), mid as int);
            decode_utf8_split(self.spec_bytes(), mid as int);
        }
        let len = self.byte_len();
        (self.own_str(0, mid), self.own_str(mid, len))
    }

    /// The bytes of the text, one at a time from the first.
    pub fn bytes(&self) -> (res: Bytes)
        ensures
            res@ == self.spec_bytes(),
            res.source() == self.spec_bytes(),
    {
        Bytes::new(self.clone())
    }

    /// Whether this text and `other` are windows into one allocation. Only
    /// shared texts are; and buffers that are one allocation hold the same
    /// bytes. Two texts in separate allocations may still hold equal buffers, so
    /// `false` says nothing of what they hold.
    pub fn shares_buffer(&self, other: &Self) -> (res: bool)
        ensures
            res ==> self.repr().buffer() is Some && self.repr().buffer() == other.repr().buffer(),
    {
        match (&self.0, &other.0) {
            (StringInner::Shared(a), StringInner::Shared(b)) => a.shares_buffer(b),
            _ => false,
        }
    }

    /// The text without its leading white space, as a sub-slice: nothing is
    /// copied where the text is shared.
    pub fn trim_start(&self) -> (res: Self)
        ensures
            res@ == trimmed_start(self@),
            res.repr() == self.repr().slice(
                trim_offset(self@),
                self.spec_bytes().len() as int,
            ),
    {
        let text = self.as_str();
        let rest = text.trim_start();
        let len = text.as_bytes().len();
        let rest_len = rest.as_bytes().len();
        proof {
            use_type_invariant(self);
            lemma_valid(self.repr());
            lemma_trim_offset(text@);
            is_char_boundary_start_end_of_seq(self.spec_bytes());
            encode_utf8_decode_utf8(rest@);
        }
        self.own_str(len - rest_len, len)
    }

    /// The text without its leading white space; another name for
    /// `trim_start`.
    pub fn lstrip(&self) -> (res: Self)
        ensures
            res@ == trimmed_start(self@),
            res.repr() == self.repr().slice(
                trim_offset(self@),
                self.spec_bytes().len() as int,
            ),
    {
        self.trim_start()
    }

    /// This text followed by `other`, as a new value: the operands are
    /// copied, and no buffer of theirs is shared with the result.
    pub fn join_str(&self, other: &str) -> (res: Self)
        ensures
            res@ == self@ + other@,
            res.repr() == Repr::of_bytes(self.spec_bytes() + other.spec_bytes()),
    {
        let mut buffer = self.as_str().to_owned();
        buffer.append(other);
        proof {
            lemma_encode_concat(self@, other@);
        }
        String::from(buffer.as_str())
    }

    /// This text followed by the character `ch`, as a new value.
    pub fn join_char(&self, ch: char) -> (res: Self)
        ensures
            res@ == self@.push(ch),
            res.repr() == Repr::of_bytes(self.spec_bytes() + encode_scalar(ch as u32)),
    {
        let mut buffer = self.as_str().to_owned();
        buffer.push(ch);
        proof {
            lemma_encode_concat(self@, seq![ch]);
            assert(self@.push(ch) =~= self@ + seq![ch]);
            reveal_with_fuel(encode_utf8, 2);
            assert(encode_utf8(seq![ch]) =~= encode_scalar(ch as u32));
        }
        String::from(buffer.as_str())
    }

    /// The same text in the least representation that holds it: inline where
    /// it is short enough, and else in a new buffer that holds this text and
    /// nothing more. It lets go of a buffer that is larger than the text.
    pub fn shrink_to_fit(&self) -> (res: Self)
        ensures
            res@ == self@,
            res.repr() == Repr::of_bytes(self.spec_bytes()),
    {
        String::from(self.as_str())
    }

    /// The length of the text in characters.
    pub fn char_len(&self) -> (n: usize)
        ensures
            n == self@.len(),
    {
        self.as_str().unicode_len()
    }

    /// The length of the text in bytes; another name for `byte_len`, which
    /// says what is counted.
    pub fn len(&self) -> (n: usize)
        ensures
            n == self.spec_bytes().len(),
    {
        self.byte_len()
    }

    /// The part of this text from byte `start` up to byte `end`, both of
    /// which lie on character boundaries. A part of a shared text shares its
    /// buffer; a part of an inline text is a new inline text.
    pub fn own_str(&self, start: usize, end: usize) -> (res: Self)
        requires
            start <= end <= self.spec_bytes().len(),
            is_char_boundary(self.spec_bytes(), start as int),
            is_char_boundary(self.spec_bytes(), end as int),
        ensures
            res.repr() == self.repr().slice(start as int, end as int),
            res.spec_bytes() == self.spec_bytes().subrange(start as int, end as int),
    {
        proof {
            use_type_invariant(self);
            lemma_slice(self.repr(), start as int, end as int);
        }
        if start == end {
            String::new()
        } else {
            match &self.0 {
                StringInner::Empty => String::new(),
                StringInner::Inline(s) => String(StringInner::Inline(s.own_str(start, end))),
                StringInner::Shared(s) => {
                    proof {
                        use_type_invariant(s);
                        s.lemma_wf();
                    }
                    String(StringInner::Shared(s.own_str(start, end)))
                },
            }
        }
    }
}

impl Clone for String {
    /// Another value with the same representation. Cloning a shared text
    /// copies no bytes: the clone is a window into the same buffer.
    fn clone(&self) -> (res: Self)
        ensures
            res == *self,
    {
        proof {
            use_type_invariant(self);
        }
        match &self.0 {
            StringInner::Empty => String(StringInner::Empty),
            StringInner::Inline(s) => String(StringInner::Inline(s.clone())),
            StringInner::Shared(s) => String(StringInner::Shared(s.clone())),
        }
    }
}

impl Default for String {
    /// The empty text.
    fn default() -> (res: Self)
        ensures
            res.repr() == Repr::Empty,
    {
        String::new()
    }
}

impl<'s> From<&'s str> for String {
    /// Copies `other` into the representation that its byte length asks for.
    fn from(other: &'s str) -> (res: Self)
        ensures
            res.repr() == Repr::of_bytes(other.spec_bytes()),
            res@ == other@,
    {
        proof {
            lemma_round_trip(other@);
        }
        let len = other.as_bytes().len();
        if len == 0 {
            String::new()
        } else if len <= CAPACITY {
            String(StringInner::Inline(InlineString::from(other)))
        } else {
            String(StringInner::Shared(SharedString::from(other)))
        }
    }
}

/// No spec function names the value that `from` returns: two values that hold
/// one text may differ in storage that is not in use. What `from` returns is
/// stated in its own `ensures`.
impl<'s> vstd::std_specs::convert::FromSpecImpl<&'s str> for String {
    open spec fn obeys_from_spec() -> bool {
        false
    }

    open spec fn from_spec(other: &'s str) -> Self {
        arbitrary()
    }
}

} // verus!
