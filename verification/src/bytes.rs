//! Stepping through the bytes of a text.

use crate::string::String;
use vstd::prelude::*;

verus! {

/// The bytes of a text, handed out one at a time from the first. It holds the
/// text it steps through, so it outlives the value it was made from.
pub struct Bytes {
    buffer: String,
    index: usize,
}

impl View for Bytes {
    type V = Seq<u8>;

    /// The bytes that are still to come.
    closed spec fn view(&self) -> Seq<u8> {
        self.buffer.spec_bytes().skip(self.index as int)
    }
}

impl Bytes {
    /// All the bytes of the text, those handed out included.
    pub closed spec fn source(&self) -> Seq<u8> {
        self.buffer.spec_bytes()
    }

    /// The position lies within the text, and the text is stored well.
    #[verifier::type_invariant]
    pub closed spec fn wf(&self) -> bool {
        &&& self.index <= self.buffer.spec_bytes().len()
        &&& self.buffer.wf()
    }

    /// What `wf` says: the bytes to come are the end of the text.
    pub proof fn lemma_wf(&self)
        requires
            self.wf(),
        ensures
            self@.len() <= self.source().len(),
            self@ == self.source().skip(self.source().len() - self@.len()),
    {
    }

    /// Starts at the first byte of `buffer`.
    pub fn new(buffer: String) -> (res: Self)
        ensures
            res@ == buffer.spec_bytes(),
            res.source() == buffer.spec_bytes(),
    {
        proof {
            use_type_invariant(&buffer);
            assert(buffer.spec_bytes().skip(0) =~= buffer.spec_bytes());
        }
        Bytes { buffer, index: 0 }
    }

    /// Hands out the next byte, or `None` once all have been handed out.
    pub fn next(&mut self) -> (res: Option<u8>)
        ensures
            final(self).source() == old(self).source(),
            old(self)@.len() > 0 ==> res == Some(old(self)@[0]) && final(self)@ == old(self)@.skip(1),
            old(self)@.len() == 0 ==> res is None && final(self)@ == old(self)@,
    {
        proof {
            use_type_invariant(&*self);
        }
        if self.index < self.buffer.byte_len() {
            let current = self.index;
            let byte = self.buffer.as_str().as_bytes()[current];
            self.index = current + 1;
            assert(final(self)@ =~= old(self)@.skip(1));
            Some(byte)
        } else {
            None
        }
    }

    /// The byte length of the whole text, as both a lower and an upper
    /// estimate; bytes already handed out are counted too.
    pub fn size_hint(&self) -> (res: (usize, Option<usize>))
        ensures
            res.0 == self.source().len(),
            res.1 == Some(res.0),
    {
        let len = self.buffer.byte_len();
        (len, Some(len))
    }

    /// The byte length of the whole text; bytes already handed out are
    /// counted too.
    pub fn len(&self) -> (n: usize)
        ensures
            n == self.source().len(),
    {
        self.buffer.byte_len()
    }
}

} // verus!
