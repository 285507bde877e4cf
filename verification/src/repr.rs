//! The mathematical model of a text value: which of the three
//! representations it uses and what that representation holds.

use crate::inline::CAPACITY;
use crate::utf8::lemma_window;
use vstd::prelude::*;
use vstd::utf8::*;

verus! {

/// Which representation a value uses.
#[derive(Clone, Copy, Debug, PartialEq, Eq, Structural)]
pub enum Kind {
    /// No payload: the text of length zero.
    Empty,
    /// The bytes are held in place.
    Inline,
    /// The bytes are a window into a shared buffer.
    Shared,
}

/// What a value holds, as plain data.
pub enum Repr {
    /// The text of length zero.
    Empty,
    /// The bytes of a short text.
    Inline(Seq<u8>),
    /// The window of `len` bytes that starts at `start` in `buffer`.
    Shared { buffer: Seq<u8>, start: int, len: int },
}

impl Repr {
    /// The bytes of the text.
    pub open spec fn bytes(self) -> Seq<u8> {
        match self {
            Repr::Empty => Seq::empty(),
            Repr::Inline(bytes) => bytes,
            Repr::Shared { buffer, start, len } => buffer.subrange(start, start + len),
        }
    }

    /// The text that the bytes encode.
    pub open spec fn text(self) -> Seq<char> {
        decode_utf8(self.bytes())
    }

    /// Which representation this is.
    pub open spec fn kind(self) -> Kind {
        match self {
            Repr::Empty => Kind::Empty,
            Repr::Inline(_) => Kind::Inline,
            Repr::Shared { .. } => Kind::Shared,
        }
    }

    /// The bytes of the whole buffer behind a shared text, inside and outside
    /// its window; `None` for a text that has no buffer.
    pub open spec fn buffer(self) -> Option<Seq<u8>> {
        match self {
            Repr::Shared { buffer, .. } => Some(buffer),
            _ => None,
        }
    }

    /// The invariant of the representation. Only the text of length zero is
    /// `Empty`. An inline text has at most `CAPACITY` bytes. A shared buffer
    /// was made for a text of more than `CAPACITY` bytes and is valid UTF-8 as a
    /// whole; the window lies within it, between two character boundaries.
    pub open spec fn wf(self) -> bool {
        match self {
            Repr::Empty => true,
            Repr::Inline(bytes) => 1 <= bytes.len() <= CAPACITY && valid_utf8(bytes),
            Repr::Shared { buffer, start, len } => {
                &&& valid_utf8(buffer)
                &&& buffer.len() > CAPACITY
                &&& 0 <= start
                &&& 1 <= len
                &&& start + len <= buffer.len()
                &&& is_char_boundary(buffer, start)
                &&& is_char_boundary(buffer, start + len)
            },
        }
    }

    /// The representation chosen for a new text with these bytes: by its
    /// length alone. A new shared buffer holds the text and nothing else.
    pub open spec fn of_bytes(bytes: Seq<u8>) -> Repr {
        if bytes.len() == 0 {
            Repr::Empty
        } else if bytes.len() <= CAPACITY {
            Repr::Inline(bytes)
        } else {
            Repr::Shared { buffer: bytes, start: 0, len: bytes.len() as int }
        }
    }

    /// The representation of the part from byte `start` up to byte `end`. A
    /// part without bytes is `Empty`. A part of an inline text is a new inline
    /// text. A part of a shared text is a narrower window into the same
    /// buffer.
    pub open spec fn slice(self, start: int, end: int) -> Repr {
        if start == end {
            Repr::Empty
        } else {
            match self {
                Repr::Empty => Repr::Empty,
                Repr::Inline(bytes) => Repr::Inline(bytes.subrange(start, end)),
                Repr::Shared { buffer, start: offset, len } => Repr::Shared {
                    buffer,
                    start: offset + start,
                    len: end - start,
                },
            }
        }
    }
}

/// Round trip: a new value made from a text is stored well and holds that
/// very text, whether its length asks for the empty, the inline or the shared
/// representation.
pub proof fn lemma_round_trip(text: Seq<char>)
    ensures
        Repr::of_bytes(encode_utf8(text)).wf(),
        Repr::of_bytes(encode_utf8(text)).bytes() == encode_utf8(text),
        Repr::of_bytes(encode_utf8(text)).text() == text,
{
    let bytes = encode_utf8(text);
    encode_utf8_valid_utf8(text);
    encode_utf8_decode_utf8(text);
    is_char_boundary_start_end_of_seq(bytes);
    assert(bytes.subrange(0, bytes.len() as int) =~= bytes);
}

/// A part between two character boundaries of a text that is stored well is
/// stored well too, and holds the bytes between the two offsets.
pub proof fn lemma_slice(r: Repr, start: int, end: int)
    requires
        r.wf(),
        0 <= start <= end <= r.bytes().len(),
        is_char_boundary(r.bytes(), start),
        is_char_boundary(r.bytes(), end),
    ensures
        valid_utf8(r.bytes()),
        r.slice(start, end).wf(),
        r.slice(start, end).bytes() == r.bytes().subrange(start, end),
{
    lemma_valid(r);
    if start < end {
        match r {
            Repr::Empty => {},
            Repr::Inline(bytes) => {
                lemma_window(bytes, start, end, 0);
            },
            Repr::Shared { buffer, start: offset, len } => {
                lemma_window(buffer, offset, offset + len, start);
                lemma_window(buffer, offset, offset + len, end);
                assert(buffer.subrange(offset + start, offset + end) =~= r.bytes().subrange(
                    start,
                    end,
                ));
            },
        }
    } else {
        assert(r.bytes().subrange(start, end) =~= Seq::<u8>::empty());
    }
}

/// Zero copy: a part with bytes of a shared text is a window into the same
/// buffer, and it lies within the window of the text it was taken from.
pub proof fn lemma_slice_of_shared(r: Repr, start: int, end: int)
    requires
        r.wf(),
        r is Shared,
        0 <= start < end <= r.bytes().len(),
    ensures
        r.slice(start, end) is Shared,
        r.slice(start, end).buffer() == r.buffer(),
        r->start <= r.slice(start, end)->start,
        r.slice(start, end)->start + r.slice(start, end)->len <= r->start + r->len,
{
}

/// Two parts with bytes of one shared text are windows into one buffer,
/// wherever in the text each of them lies.
pub proof fn lemma_slices_share_buffer(r: Repr, start1: int, end1: int, start2: int, end2: int)
    requires
        r.wf(),
        r is Shared,
        0 <= start1 < end1 <= r.bytes().len(),
        0 <= start2 < end2 <= r.bytes().len(),
    ensures
        r.slice(start1, end1).buffer() is Some,
        r.slice(start1, end1).buffer() == r.slice(start2, end2).buffer(),
{
}

/// A part of a part is a part of the whole: taking it in two steps gives the
/// representation that taking it in one step gives.
pub proof fn lemma_slice_of_slice(r: Repr, start: int, end: int, from: int, to: int)
    requires
        r.wf(),
        0 <= start <= end <= r.bytes().len(),
        0 <= from <= to <= end - start,
    ensures
        r.slice(start, end).slice(from, to) == r.slice(start + from, start + to),
{
    if from < to {
        match r {
            Repr::Empty => {},
            Repr::Inline(bytes) => {
                assert(bytes.subrange(start, end).subrange(from, to) =~= bytes.subrange(
                    start + from,
                    start + to,
                ));
            },
            Repr::Shared { .. } => {},
        }
    }
}

/// The representation never changes kind under slicing, except to `Empty`: a
/// part with bytes of an inline text is inline, and a part with bytes of a
/// shared text is shared, however short it is.
pub proof fn lemma_slice_kind(r: Repr, start: int, end: int)
    requires
        r.wf(),
        0 <= start <= end <= r.bytes().len(),
    ensures
        r.slice(start, end).kind() == if start == end {
            Kind::Empty
        } else {
            r.kind()
        },
{
}

/// The kind of a new value goes by the byte length of its text alone: no
/// bytes, at most `CAPACITY` bytes, or more.
pub proof fn lemma_of_bytes_kind(bytes: Seq<u8>)
    ensures
        Repr::of_bytes(bytes).kind() == if bytes.len() == 0 {
            Kind::Empty
        } else if bytes.len() <= CAPACITY {
            Kind::Inline
        } else {
            Kind::Shared
        },
        Repr::of_bytes(bytes).bytes() == bytes,
        Repr::of_bytes(bytes) is Shared ==> Repr::of_bytes(bytes).buffer() == Some(bytes),
{
    assert(bytes.subrange(0, bytes.len() as int) =~= bytes);
}

/// The bytes of a text that is stored well are valid UTF-8.
pub proof fn lemma_valid(r: Repr)
    requires
        r.wf(),
    ensures
        valid_utf8(r.bytes()),
{
    match r {
        Repr::Empty => {},
        Repr::Inline(_) => {},
        Repr::Shared { buffer, start, len } => {
            lemma_window(buffer, start, start + len, 0);
        },
    }
}

} // verus!
