//! Equality and order of byte sequences: texts compare as their bytes do,
//! lexicographically.

use vstd::prelude::*;

verus! {

/// How one sequence stands to another.
#[derive(Clone, Copy, Debug, PartialEq, Eq, Structural)]
pub enum Rank {
    /// It comes first.
    Before,
    /// Both are the same sequence.
    Same,
    /// It comes last.
    After,
}

/// `a` and `b` agree on their first `k` bytes, and there `a` either ends
/// while `b` goes on, or goes on with a smaller byte than `b` does.
pub open spec fn parts_at(a: Seq<u8>, b: Seq<u8>, k: int) -> bool {
    &&& 0 <= k <= a.len()
    &&& k < b.len()
    &&& a.take(k) == b.take(k)
    &&& (k == a.len() || a[k] < b[k])
}

/// `a` comes before `b` in lexicographic order.
pub open spec fn lex_less(a: Seq<u8>, b: Seq<u8>) -> bool {
    exists|k: int| parts_at(a, b, k)
}

/// How `a` stands to `b` in lexicographic order.
pub open spec fn rank(a: Seq<u8>, b: Seq<u8>) -> Rank {
    if a == b {
        Rank::Same
    } else if lex_less(a, b) {
        Rank::Before
    } else {
        Rank::After
    }
}

/// Two sequences that part at `k` differ, and they part nowhere else, in
/// either direction.
pub proof fn lemma_parts_at_unique(a: Seq<u8>, b: Seq<u8>, k: int, j: int)
    requires
        parts_at(a, b, k),
    ensures
        a != b,
        parts_at(a, b, j) ==> j == k,
        !parts_at(b, a, j),
{
    if k == a.len() {
        assert(a.len() != b.len());
    } else {
        assert(a[k] != b[k]);
    }
    if parts_at(a, b, j) || parts_at(b, a, j) {
        if j < k {
            assert(a.take(k)[j] == b.take(k)[j]);
        } else if k < j {
            assert(a.take(j)[k] == b.take(j)[k]);
        }
    }
}

/// No sequence comes before itself, and of two sequences at most one comes
/// before the other.
pub proof fn lemma_lex_less_asymmetric(a: Seq<u8>, b: Seq<u8>)
    ensures
        !lex_less(a, a),
        lex_less(a, b) ==> !lex_less(b, a),
{
    if lex_less(a, a) {
        let k = choose|k: int| parts_at(a, a, k);
        lemma_parts_at_unique(a, a, k, k);
    }
    if lex_less(a, b) && lex_less(b, a) {
        let k = choose|k: int| parts_at(a, b, k);
        let j = choose|j: int| parts_at(b, a, j);
        lemma_parts_at_unique(a, b, k, j);
    }
}

/// Of two different sequences one comes before the other.
pub proof fn lemma_lex_less_total(a: Seq<u8>, b: Seq<u8>)
    ensures
        a == b || lex_less(a, b) || lex_less(b, a),
{
    assert(a.take(0) =~= b.take(0));
    lemma_first_difference(a, b, 0);
}

/// Two sequences that agree on their first `i` bytes are the same or part at
/// some offset from `i` on.
proof fn lemma_first_difference(a: Seq<u8>, b: Seq<u8>, i: int)
    requires
        0 <= i <= a.len(),
        i <= b.len(),
        a.take(i) == b.take(i),
    ensures
        a == b || lex_less(a, b) || lex_less(b, a),
    decreases a.len() - i,
{
    if i == a.len() {
        if i == b.len() {
            assert(a.take(i) =~= a);
            assert(b.take(i) =~= b);
        } else {
            assert(parts_at(a, b, i));
        }
    } else if i == b.len() {
        assert(parts_at(b, a, i));
    } else if a[i] < b[i] {
        assert(parts_at(a, b, i));
    } else if b[i] < a[i] {
        assert(parts_at(b, a, i));
    } else {
        assert(a.take(i + 1) =~= a.take(i).push(a[i]));
        assert(b.take(i + 1) =~= b.take(i).push(b[i]));
        lemma_first_difference(a, b, i + 1);
    }
}

/// What comes before a sequence that comes before a third comes before the
/// third.
pub proof fn lemma_lex_less_transitive(a: Seq<u8>, b: Seq<u8>, c: Seq<u8>)
    requires
        lex_less(a, b),
        lex_less(b, c),
    ensures
        lex_less(a, c),
{
    let k = choose|k: int| parts_at(a, b, k);
    let j = choose|j: int| parts_at(b, c, j);
    if k <= j {
        assert(a.take(k) =~= c.take(k)) by {
            assert forall|i: int| 0 <= i < k implies a[i] == c[i] by {
                assert(a.take(k)[i] == b.take(k)[i]);
                assert(b.take(j)[i] == c.take(j)[i]);
            }
        }
        if k < a.len() {
            if k < j {
                assert(b.take(j)[k] == c.take(j)[k]);
            }
        }
        assert(parts_at(a, c, k));
    } else {
        assert(a.take(j) =~= c.take(j)) by {
            assert forall|i: int| 0 <= i < j implies a[i] == c[i] by {
                assert(a.take(k)[i] == b.take(k)[i]);
                assert(b.take(j)[i] == c.take(j)[i]);
            }
        }
        assert(a.take(k)[j] == b.take(k)[j]);
        assert(parts_at(a, c, j));
    }
}

/// Whether two byte slices hold the same bytes.
pub fn same_bytes(a: &[u8], b: &[u8]) -> (r: bool)
    ensures
        r == (a@ == b@),
{
    if a.len() != b.len() {
        return false;
    }
    let mut i: usize = 0;
    while i < a.len()
        invariant
            i <= a@.len(),
            a@.len() == b@.len(),
            a@.take(i as int) == b@.take(i as int),
        decreases a@.len() - i,
    {
        if a[i] != b[i] {
            return false;
        }
        assert(a@.take(i + 1) =~= a@.take(i as int).push(a@[i as int]));
        assert(b@.take(i + 1) =~= b@.take(i as int).push(b@[i as int]));
        i += 1;
    }
    assert(a@.take(i as int) =~= a@);
    assert(b@.take(i as int) =~= b@);
    true
}

/// How the bytes of `a` stand to those of `b` in lexicographic order.
pub fn rank_bytes(a: &[u8], b: &[u8]) -> (r: Rank)
    ensures
        r == rank(a@, b@),
{
    let mut i: usize = 0;
    while i < a.len() && i < b.len()
        invariant
            i <= a@.len(),
            i <= b@.len(),
            a@.take(i as int) == b@.take(i as int),
        decreases a@.len() - i,
    {
        if a[i] < b[i] {
            proof {
                assert(parts_at(a@, b@, i as int));
                lemma_parts_at_unique(a@, b@, i as int, i as int);
            }
            return Rank::Before;
        }
        if b[i] < a[i] {
            proof {
                assert(parts_at(b@, a@, i as int));
                lemma_parts_at_unique(b@, a@, i as int, i as int);
                lemma_lex_less_asymmetric(a@, b@);
            }
            return Rank::After;
        }
        assert(a@.take(i + 1) =~= a@.take(i as int).push(a@[i as int]));
        assert(b@.take(i + 1) =~= b@.take(i as int).push(b@[i as int]));
        i += 1;
    }
    if i < b.len() {
        proof {
            assert(parts_at(a@, b@, i as int));
            lemma_parts_at_unique(a@, b@, i as int, i as int);
        }
        Rank::Before
    } else if i < a.len() {
        proof {
            assert(parts_at(b@, a@, i as int));
            lemma_parts_at_unique(b@, a@, i as int, i as int);
            lemma_lex_less_asymmetric(a@, b@);
        }
        Rank::After
    } else {
        assert(a@.take(i as int) =~= a@);
        assert(b@.take(i as int) =~= b@);
        Rank::Same
    }
}

} // verus!
