//! The inline representation: a short text held by value in a fixed array,
//! with no heap allocation.

use crate::utf8::substr;
use vstd::prelude::*;
use vstd::slice::slice_subrange;
use vstd::string::StringSliceAdditionalSpecFns;
use vstd::utf8::*;

verus! {

/// The greatest byte length of a text that is kept inline. A shared text
/// takes 32 bytes on a 64-bit target (a buffer handle of two words, a start
/// and a length); an inline text takes as many: one byte for its length and
/// these for its content.
pub const CAPACITY: usize = 31;

/// A text of at most `CAPACITY` bytes, stored in place.
pub(crate) struct InlineString {
    len: u8,
    array: [u8; CAPACITY],
}

impl InlineString {
    /// The bytes of the text: the first `len` bytes of the array.
    pub(crate) closed spec fn spec_bytes(&self) -> Seq<u8> {
        self.array@.subrange(0, self.len as int)
    }

    /// The length fits the array, and the bytes in use are valid UTF-8.
    #[verifier::type_invariant]
    pub(crate) closed spec fn wf(&self) -> bool {
        &&& self.len <= CAPACITY
        &&& valid_utf8(self.spec_bytes())
    }

    /// Copies a text of at most `CAPACITY` bytes into a new inline value.
    pub(crate) fn from(other: &str) -> (res: Self)
        requires
            other.spec_bytes().len() <= CAPACITY,
        ensures
            res.spec_bytes() == other.spec_bytes(),
    {
        let b = other.as_bytes();
        let len = b.len();
        let mut array = [0u8; CAPACITY];
        let mut i: usize = 0;
        while i < len
            invariant
                i <= len,
                len == b@.len(),
                len <= CAPACITY,
                array@.len() == CAPACITY,
                array@.subrange(0, i as int) == b@.subrange(0, i as int),
            decreases len - i,
        {
            array[i] = b[i];
            i += 1;
            assert(array@.subrange(0, i as int) =~= b@.subrange(0, i as int));
        }
        proof {
            encode_utf8_valid_utf8(other@);
            assert(b@.subrange(0, len as int) =~= b@);
        }
        InlineString { len: len as u8, array }
    }

    /// The text, borrowed from the array.
    pub(crate) fn as_str(&self) -> (r: &str)
        ensures
            r.spec_bytes() == self.spec_bytes(),
    {
        proof {
            use_type_invariant(self);
        }
        let len = self.len as usize;
        let bytes = slice_subrange(self.array.as_slice(), 0, len);
        match core::str::from_utf8(bytes) {
            Ok(s) => s,
            Err(_) => vstd::pervasive::unreached(),
        }
    }

    /// A new inline value that holds the bytes of this one from `start` up to
    /// `end`, both of which lie on character boundaries.
    pub(crate) fn own_str(&self, start: usize, end: usize) -> (res: Self)
        requires
            start <= end <= self.spec_bytes().len(),
            is_char_boundary(self.spec_bytes(), start as int),
            is_char_boundary(self.spec_bytes(), end as int),
        ensures
            res.spec_bytes() == self.spec_bytes().subrange(start as int, end as int),
    {
        proof {
            use_type_invariant(self);
        }
        Self::from(substr(self.as_str(), start, end))
    }

    /// The number of bytes in use.
    pub(crate) fn byte_len(&self) -> (n: usize)
        ensures
            n == self.spec_bytes().len(),
    {
        proof {
            use_type_invariant(self);
        }
        self.len as usize
    }
}

impl Clone for InlineString {
    fn clone(&self) -> (res: Self)
        ensures
            res == *self,
    {
        proof {
            use_type_invariant(self);
        }
        InlineString { len: self.len, array: self.array }
    }
}

impl Copy for InlineString {

}

} // verus!
