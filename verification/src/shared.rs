//! The shared representation: a window into an immutable, reference-counted
//! buffer. Cloning and narrowing the window copy no bytes.

use crate::utf8::{lemma_window, substr};
use std::sync::Arc;
use vstd::prelude::*;
use vstd::string::StringSliceAdditionalSpecFns;
use vstd::utf8::*;

verus! {

/// `Arc::<str>::from`: a new buffer that holds a copy of `text`.
#[verifier::external_body]
fn new_buffer(text: &str) -> (res: Arc<str>)
    ensures
        res@ == text@,
{
    Arc::from(text)
}

/// `Arc::clone`: one more handle to the buffer behind `buffer`. The buffer
/// itself is not copied, so the new handle shows the same text.
#[verifier::external_body]
fn share_buffer(buffer: &Arc<str>) -> (res: Arc<str>)
    ensures
        res == *buffer,
{
    Arc::clone(buffer)
}

/// `Arc::ptr_eq`: whether both handles lead to one allocation. Two handles to
/// one allocation show the same text; two allocations may hold equal texts, so
/// nothing follows from `false`.
#[verifier::external_body]
fn same_buffer(a: &Arc<str>, b: &Arc<str>) -> (res: bool)
    ensures
        res ==> a@ == b@,
{
    Arc::ptr_eq(a, b)
}

/// A text that is the window `start .. start + len` of a shared buffer.
pub(crate) struct SharedString {
    buffer: Arc<str>,
    start: usize,
    len: usize,
}

impl SharedString {
    /// The bytes of the whole buffer, inside and outside the window.
    pub(crate) closed spec fn buffer_bytes(&self) -> Seq<u8> {
        encode_utf8(self.buffer@)
    }

    /// The offset in the buffer at which the window starts.
    pub(crate) closed spec fn window_start(&self) -> int {
        self.start as int
    }

    /// The bytes of the text: those of the buffer inside the window.
    pub(crate) closed spec fn spec_bytes(&self) -> Seq<u8> {
        self.buffer_bytes().subrange(self.start as int, self.start + self.len)
    }

    /// The window lies within the buffer, its end is an offset that `usize`
    /// holds, and both its ends lie on character boundaries.
    #[verifier::type_invariant]
    pub(crate) closed spec fn wf(&self) -> bool {
        &&& self.start + self.len <= self.buffer_bytes().len()
        &&& self.start + self.len <= usize::MAX
        &&& is_char_boundary(self.buffer_bytes(), self.start as int)
        &&& is_char_boundary(self.buffer_bytes(), self.start + self.len)
    }

    /// What the invariant gives: the window is valid UTF-8 and starts inside
    /// the buffer.
    pub(crate) proof fn lemma_wf(&self)
        requires
            self.wf(),
        ensures
            valid_utf8(self.spec_bytes()),
            0 <= self.window_start(),
            self.window_start() + self.spec_bytes().len() <= self.buffer_bytes().len(),
            self.spec_bytes() == self.buffer_bytes().subrange(
                self.window_start(),
                self.window_start() + self.spec_bytes().len(),
            ),
    {
        encode_utf8_valid_utf8(self.buffer@);
        lemma_window(self.buffer_bytes(), self.start as int, self.start + self.len, 0);
    }

    /// Copies `other` into a new buffer; the window is the whole buffer.
    pub(crate) fn from(other: &str) -> (res: Self)
        ensures
            res.spec_bytes() == other.spec_bytes(),
            res.buffer_bytes() == other.spec_bytes(),
            res.window_start() == 0,
    {
        let buffer = new_buffer(other);
        let len = other.as_bytes().len();
        proof {
            encode_utf8_valid_utf8(other@);
            is_char_boundary_start_end_of_seq(other.spec_bytes());
            assert(other.spec_bytes().subrange(0, len as int) =~= other.spec_bytes());
        }
        SharedString { buffer, start: 0, len }
    }

    /// The text, borrowed from the buffer.
    pub(crate) fn as_str(&self) -> (r: &str)
        ensures
            r.spec_bytes() == self.spec_bytes(),
    {
        proof {
            use_type_invariant(self);
        }
        let end = self.start + self.len;
        let whole: &str = &self.buffer;
        substr(whole, self.start, end)
    }

    /// The window narrowed to the bytes from `start` up to `end` of this
    /// text, both of which lie on character boundaries. The buffer is shared,
    /// not copied.
    pub(crate) fn own_str(&self, start: usize, end: usize) -> (res: Self)
        requires
            start <= end <= self.spec_bytes().len(),
            is_char_boundary(self.spec_bytes(), start as int),
            is_char_boundary(self.spec_bytes(), end as int),
        ensures
            res.spec_bytes() == self.spec_bytes().subrange(start as int, end as int),
            res.buffer_bytes() == self.buffer_bytes(),
            res.window_start() == self.window_start() + start,
    {
        proof {
            use_type_invariant(self);
            encode_utf8_valid_utf8(self.buffer@);
            lemma_window(self.buffer_bytes(), self.start as int, self.start + self.len, start as int);
            lemma_window(self.buffer_bytes(), self.start as int, self.start + self.len, end as int);
            assert(self.buffer_bytes().subrange(self.start + start, self.start + end)
                =~= self.spec_bytes().subrange(start as int, end as int));
        }
        SharedString {
            buffer: share_buffer(&self.buffer),
            start: self.start + start,
            len: end - start,
        }
    }

    /// The number of bytes in the window.
    pub(crate) fn byte_len(&self) -> (n: usize)
        ensures
            n == self.spec_bytes().len(),
    {
        proof {
            use_type_invariant(self);
        }
        self.len
    }

    /// Whether this text and `other` are windows into one allocation.
    pub(crate) fn shares_buffer(&self, other: &Self) -> (res: bool)
        ensures
            res ==> self.buffer_bytes() == other.buffer_bytes(),
    {
        same_buffer(&self.buffer, &other.buffer)
    }
}

impl Clone for SharedString {
    fn clone(&self) -> (res: Self)
        ensures
            res == *self,
    {
        proof {
            use_type_invariant(self);
        }
        SharedString { buffer: share_buffer(&self.buffer), start: self.start, len: self.len }
    }
}

} // verus!
