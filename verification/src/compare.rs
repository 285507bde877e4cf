//! Equality and order of texts. Both go by the text alone: two values with
//! the same text are equal, whichever representation each of them uses.

use crate::order::{
    lemma_lex_less_asymmetric, lemma_lex_less_total, lemma_lex_less_transitive, rank, rank_bytes,
    same_bytes, Rank,
};
use crate::repr::lemma_valid;
use crate::string::String;
use std::cmp::Ordering;
use vstd::prelude::*;
use vstd::string::StringSliceAdditionalSpecFns;
use vstd::std_specs::cmp::{PartialEqSpec, PartialOrdSpec};
use vstd::utf8::*;

verus! {

/// Two texts that are stored well are the same text if and only if they have
/// the same bytes.
pub proof fn lemma_same_text_same_bytes(a: String, b: String)
    requires
        a.wf(),
        b.wf(),
    ensures
        (a@ == b@) <==> (a.spec_bytes() == b.spec_bytes()),
{
    lemma_valid(a.repr());
    lemma_valid(b.repr());
    decode_utf8_encode_utf8(a.spec_bytes());
    decode_utf8_encode_utf8(b.spec_bytes());
}

/// A value that is stored well holds the text `text` if and only if its bytes
/// are the bytes of `text`.
pub proof fn lemma_same_text(a: String, text: Seq<char>)
    requires
        a.wf(),
    ensures
        (a@ == text) <==> (a.spec_bytes() == encode_utf8(text)),
{
    lemma_valid(a.repr());
    decode_utf8_encode_utf8(a.spec_bytes());
    encode_utf8_decode_utf8(text);
}

/// Order agrees with equality: two texts rank as equal if and only if they
/// are the same text.
pub proof fn lemma_order_agrees_with_equality(a: String, b: String)
    requires
        a.wf(),
        b.wf(),
    ensures
        a.partial_cmp_spec(&b) == Some(Ordering::Equal) <==> a.eq_spec(&b),
{
    lemma_same_text_same_bytes(a, b);
}

/// Of two texts exactly one holds: the first comes before the second, they
/// are the same text, or the second comes before the first.
pub proof fn lemma_order_total(a: String, b: String)
    ensures
        a.partial_cmp_spec(&b) == Some(Ordering::Less) <==> b.partial_cmp_spec(&a) == Some(
            Ordering::Greater,
        ),
        a.partial_cmp_spec(&b) == Some(Ordering::Equal) <==> b.partial_cmp_spec(&a) == Some(
            Ordering::Equal,
        ),
        a.partial_cmp_spec(&b) is Some,
{
    lemma_lex_less_total(a.spec_bytes(), b.spec_bytes());
    lemma_lex_less_asymmetric(a.spec_bytes(), b.spec_bytes());
    lemma_lex_less_asymmetric(b.spec_bytes(), a.spec_bytes());
}

/// The order is transitive: what comes before a text that comes before a
/// third comes before the third.
pub proof fn lemma_order_transitive(a: String, b: String, c: String)
    requires
        a.partial_cmp_spec(&b) == Some(Ordering::Less),
        b.partial_cmp_spec(&c) == Some(Ordering::Less),
    ensures
        a.partial_cmp_spec(&c) == Some(Ordering::Less),
{
    lemma_lex_less_transitive(a.spec_bytes(), b.spec_bytes(), c.spec_bytes());
    lemma_lex_less_asymmetric(a.spec_bytes(), c.spec_bytes());
}

impl PartialEq for String {
    /// Whether both values hold the same text.
    fn eq(&self, other: &Self) -> (res: bool) {
        proof {
            use_type_invariant(self);
            use_type_invariant(other);
            lemma_same_text_same_bytes(*self, *other);
        }
        same_bytes(self.as_str().as_bytes(), other.as_str().as_bytes())
    }
}

impl vstd::std_specs::cmp::PartialEqSpecImpl for String {
    open spec fn obeys_eq_spec() -> bool {
        true
    }

    open spec fn eq_spec(&self, other: &Self) -> bool {
        self@ == other@
    }
}

impl Eq for String {

}

impl PartialEq<str> for String {
    /// Whether this value holds the text `other`.
    fn eq(&self, other: &str) -> (res: bool) {
        proof {
            use_type_invariant(self);
            lemma_same_text(*self, other@);
        }
        same_bytes(self.as_str().as_bytes(), other.as_bytes())
    }
}

impl vstd::std_specs::cmp::PartialEqSpecImpl<str> for String {
    open spec fn obeys_eq_spec() -> bool {
        true
    }

    open spec fn eq_spec(&self, other: &str) -> bool {
        self@ == other@
    }
}

impl<'a> PartialEq<&'a str> for String {
    /// Whether this value holds the text `other`.
    fn eq(&self, other: &&'a str) -> (res: bool) {
        proof {
            use_type_invariant(self);
            lemma_same_text(*self, other@);
        }
        same_bytes(self.as_str().as_bytes(), other.as_bytes())
    }
}

impl<'a> vstd::std_specs::cmp::PartialEqSpecImpl<&'a str> for String {
    open spec fn obeys_eq_spec() -> bool {
        true
    }

    open spec fn eq_spec(&self, other: &&'a str) -> bool {
        self@ == other@
    }
}

impl PartialEq<String> for str {
    /// Whether `other` holds this text.
    fn eq(&self, other: &String) -> (res: bool) {
        proof {
            use_type_invariant(other);
            lemma_same_text(*other, self@);
        }
        same_bytes(self.as_bytes(), other.as_str().as_bytes())
    }
}

impl vstd::std_specs::cmp::PartialEqSpecImpl<String> for str {
    open spec fn obeys_eq_spec() -> bool {
        true
    }

    open spec fn eq_spec(&self, other: &String) -> bool {
        self@ == other@
    }
}

impl<'a> PartialEq<String> for &'a str {
    /// Whether `other` holds this text.
    fn eq(&self, other: &String) -> (res: bool) {
        proof {
            use_type_invariant(other);
            lemma_same_text(*other, self@);
        }
        same_bytes(self.as_bytes(), other.as_str().as_bytes())
    }
}

impl<'a> vstd::std_specs::cmp::PartialEqSpecImpl<String> for &'a str {
    open spec fn obeys_eq_spec() -> bool {
        true
    }

    open spec fn eq_spec(&self, other: &String) -> bool {
        self@ == other@
    }
}

impl PartialEq<std::string::String> for String {
    /// Whether this value holds the text of `other`.
    fn eq(&self, other: &std::string::String) -> (res: bool) {
        proof {
            use_type_invariant(self);
            lemma_same_text(*self, other@);
        }
        same_bytes(self.as_str().as_bytes(), other.as_str().as_bytes())
    }
}

impl vstd::std_specs::cmp::PartialEqSpecImpl<std::string::String> for String {
    open spec fn obeys_eq_spec() -> bool {
        true
    }

    open spec fn eq_spec(&self, other: &std::string::String) -> bool {
        self@ == other@
    }
}

impl<'a> PartialEq<&'a std::string::String> for String {
    /// Whether this value holds the text of `other`.
    fn eq(&self, other: &&'a std::string::String) -> (res: bool) {
        proof {
            use_type_invariant(self);
            lemma_same_text(*self, other@);
        }
        same_bytes(self.as_str().as_bytes(), other.as_str().as_bytes())
    }
}

impl<'a> vstd::std_specs::cmp::PartialEqSpecImpl<&'a std::string::String> for String {
    open spec fn obeys_eq_spec() -> bool {
        true
    }

    open spec fn eq_spec(&self, other: &&'a std::string::String) -> bool {
        self@ == other@
    }
}

impl PartialEq<String> for std::string::String {
    /// Whether `other` holds this text.
    fn eq(&self, other: &String) -> (res: bool) {
        proof {
            use_type_invariant(other);
            lemma_same_text(*other, self@);
        }
        same_bytes(self.as_str().as_bytes(), other.as_str().as_bytes())
    }
}

impl vstd::std_specs::cmp::PartialEqSpecImpl<String> for std::string::String {
    open spec fn obeys_eq_spec() -> bool {
        true
    }

    open spec fn eq_spec(&self, other: &String) -> bool {
        self@ == other@
    }
}

impl<'a> PartialEq<String> for &'a std::string::String {
    /// Whether `other` holds this text.
    fn eq(&self, other: &String) -> (res: bool) {
        proof {
            use_type_invariant(other);
            lemma_same_text(*other, self@);
        }
        same_bytes(self.as_str().as_bytes(), other.as_str().as_bytes())
    }
}

impl<'a> vstd::std_specs::cmp::PartialEqSpecImpl<String> for &'a std::string::String {
    open spec fn obeys_eq_spec() -> bool {
        true
    }

    open spec fn eq_spec(&self, other: &String) -> bool {
        self@ == other@
    }
}

impl PartialOrd for String {
    /// How this text stands to `other`: by their bytes, lexicographically.
    fn partial_cmp(&self, other: &Self) -> (res: Option<Ordering>) {
        match rank_bytes(self.as_str().as_bytes(), other.as_str().as_bytes()) {
            Rank::Before => Some(Ordering::Less),
            Rank::Same => Some(Ordering::Equal),
            Rank::After => Some(Ordering::Greater),
        }
    }
}

impl String {
    /// How this text stands to `other`: by their bytes, lexicographically.
    /// Any two texts are ordered.
    pub fn cmp(&self, other: &Self) -> (res: Ordering)
        ensures
            Some(res) == self.partial_cmp_spec(other),
    {
        match rank_bytes(self.as_str().as_bytes(), other.as_str().as_bytes()) {
            Rank::Before => Ordering::Less,
            Rank::Same => Ordering::Equal,
            Rank::After => Ordering::Greater,
        }
    }
}

impl vstd::std_specs::cmp::PartialOrdSpecImpl for String {
    open spec fn obeys_partial_cmp_spec() -> bool {
        true
    }

    open spec fn partial_cmp_spec(&self, other: &Self) -> Option<Ordering> {
        match rank(self.spec_bytes(), other.spec_bytes()) {
            Rank::Before => Some(Ordering::Less),
            Rank::Same => Some(Ordering::Equal),
            Rank::After => Some(Ordering::Greater),
        }
    }
}

} // verus!
