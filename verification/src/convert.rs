//! Conversions into a text, and texts in a row with `+`.
//!
//! No spec function names the value that a conversion or `+` returns: two
//! values that hold one text may differ in storage that is not in use. What
//! each of them returns is stated in its own `ensures`.

use crate::repr::Repr;
use crate::string::String;
use core::convert::Infallible;
use vstd::prelude::*;
use vstd::string::StringSliceAdditionalSpecFns;
use vstd::utf8::*;

verus! {

impl From<char> for String {
    /// The text of one character.
    fn from(other: char) -> (res: Self)
        ensures
            res@ == seq![other],
            res.repr() == Repr::of_bytes(encode_scalar(other as u32)),
    {
        let res = String::new().join_char(other);
        assert(Seq::<u8>::empty() + encode_scalar(other as u32) =~= encode_scalar(other as u32));
        assert(decode_utf8(Seq::<u8>::empty()).push(other) =~= seq![other]);
        res
    }
}

impl vstd::std_specs::convert::FromSpecImpl<char> for String {
    open spec fn obeys_from_spec() -> bool {
        false
    }

    open spec fn from_spec(other: char) -> Self {
        arbitrary()
    }
}

impl From<std::string::String> for String {
    /// Copies the text of `other`.
    fn from(other: std::string::String) -> (res: Self)
        ensures
            res@ == other@,
            res.repr() == Repr::of_bytes(encode_utf8(other@)),
    {
        String::from(other.as_str())
    }
}

impl vstd::std_specs::convert::FromSpecImpl<std::string::String> for String {
    open spec fn obeys_from_spec() -> bool {
        false
    }

    open spec fn from_spec(other: std::string::String) -> Self {
        arbitrary()
    }
}

impl<'s> From<&'s std::string::String> for String {
    /// Copies the text of `other`.
    fn from(other: &'s std::string::String) -> (res: Self)
        ensures
            res@ == other@,
            res.repr() == Repr::of_bytes(encode_utf8(other@)),
    {
        String::from(other.as_str())
    }
}

impl<'s> vstd::std_specs::convert::FromSpecImpl<&'s std::string::String> for String {
    open spec fn obeys_from_spec() -> bool {
        false
    }

    open spec fn from_spec(other: &'s std::string::String) -> Self {
        arbitrary()
    }
}

impl std::str::FromStr for String {
    type Err = Infallible;

    /// Copies the text of `s`; this never fails.
    fn from_str(s: &str) -> (res: Result<String, Infallible>)
        ensures
            res matches Ok(text) && text@ == s@ && text.repr() == Repr::of_bytes(s.spec_bytes()),
    {
        Ok(String::from(s))
    }
}

impl<'s> core::ops::Add<&'s str> for String {
    type Output = String;

    /// This text followed by `other`, as a new value.
    fn add(self, other: &'s str) -> (res: String)
        ensures
            res@ == self@ + other@,
            res.repr() == Repr::of_bytes(self.spec_bytes() + other.spec_bytes()),
    {
        self.join_str(other)
    }
}

impl<'s> vstd::std_specs::ops::AddSpecImpl<&'s str> for String {
    open spec fn obeys_add_spec() -> bool {
        false
    }

    open spec fn add_req(self, other: &'s str) -> bool {
        true
    }

    open spec fn add_spec(self, other: &'s str) -> String {
        arbitrary()
    }
}

impl<'a, 's> core::ops::Add<&'s str> for &'a String {
    type Output = String;

    /// This text followed by `other`, as a new value; this text stays as it
    /// is.
    fn add(self, other: &'s str) -> (res: String)
        ensures
            res@ == self@ + other@,
            res.repr() == Repr::of_bytes(self.spec_bytes() + other.spec_bytes()),
    {
        self.join_str(other)
    }
}

impl<'a, 's> vstd::std_specs::ops::AddSpecImpl<&'s str> for &'a String {
    open spec fn obeys_add_spec() -> bool {
        false
    }

    open spec fn add_req(self, other: &'s str) -> bool {
        true
    }

    open spec fn add_spec(self, other: &'s str) -> String {
        arbitrary()
    }
}

} // verus!
