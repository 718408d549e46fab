//! Byte-lexicographic ordering of keys.
//!
//! Partition names, keys and values are opaque byte sequences; the
//! sort order that every layer of the store agrees on is plain
//! lexicographic order over the key bytes.  `lex_cmp` is the
//! mathematical definition of that order, `key_cmp` the executable
//! comparison, and the lemmas below establish that the order is a
//! strict total order.

use vstd::prelude::*;

verus! {

use core::cmp::Ordering;

/// Lexicographic comparison of two byte sequences: the first
/// position where they differ decides; a proper prefix sorts first.
pub open spec fn lex_cmp(a: Seq<u8>, b: Seq<u8>) -> Ordering
    decreases a.len(),
{
    if a.len() == 0 && b.len() == 0 {
        Ordering::Equal
    } else if a.len() == 0 {
        Ordering::Less
    } else if b.len() == 0 {
        Ordering::Greater
    } else if a[0] < b[0] {
        Ordering::Less
    } else if a[0] > b[0] {
        Ordering::Greater
    } else {
        lex_cmp(a.drop_first(), b.drop_first())
    }
}

/// Dropping an equal prefix from both sequences does not change how
/// they compare.
proof fn lemma_lex_cmp_skip_common_prefix(a: Seq<u8>, b: Seq<u8>, i: int)
    requires
        0 <= i <= a.len(),
        0 <= i <= b.len(),
        forall|j: int| 0 <= j < i ==> a[j] == b[j],
    ensures
        lex_cmp(a, b) == lex_cmp(a.skip(i), b.skip(i)),
    decreases i,
{
    if i > 0 {
        assert(a.len() > 0 && b.len() > 0);
        assert(a[0] == b[0]);
        lemma_lex_cmp_skip_common_prefix(a.drop_first(), b.drop_first(), i - 1);
        assert(a.drop_first().skip(i - 1) =~= a.skip(i));
        assert(b.drop_first().skip(i - 1) =~= b.skip(i));
    } else {
        assert(a.skip(0) =~= a);
        assert(b.skip(0) =~= b);
    }
}

/// Compare two byte keys in lexicographic order.
pub fn key_cmp(a: &Vec<u8>, b: &Vec<u8>) -> (r: Ordering)
    ensures
        r == lex_cmp(a@, b@),
{
    let a_len = a.len();
    let b_len = b.len();
    let n = if a_len < b_len { a_len } else { b_len };
    let mut i: usize = 0;
    while i < n
        invariant
            0 <= i <= n,
            n <= a@.len(),
            n <= b@.len(),
            n == a@.len() || n == b@.len(),
            forall|j: int| 0 <= j < i ==> a@[j] == b@[j],
        decreases n - i,
    {
        let x = a[i];
        let y = b[i];
        if x < y {
            proof {
                lemma_lex_cmp_skip_common_prefix(a@, b@, i as int);
            }
            return Ordering::Less;
        }
        if x > y {
            proof {
                lemma_lex_cmp_skip_common_prefix(a@, b@, i as int);
            }
            return Ordering::Greater;
        }
        i += 1;
    }
    proof {
        lemma_lex_cmp_skip_common_prefix(a@, b@, n as int);
    }
    if a_len < b_len {
        Ordering::Less
    } else if a_len > b_len {
        Ordering::Greater
    } else {
        Ordering::Equal
    }
}

/// The order is reflexive at `Equal`: a sequence compares equal to
/// itself, and only to sequences with exactly the same bytes.
pub proof fn lemma_lex_cmp_equal_iff(a: Seq<u8>, b: Seq<u8>)
    ensures
        lex_cmp(a, b) == Ordering::Equal <==> a == b,
    decreases a.len(),
{
    if a.len() == 0 && b.len() == 0 {
        assert(a =~= b);
    } else if a.len() > 0 && b.len() > 0 && a[0] == b[0] {
        lemma_lex_cmp_equal_iff(a.drop_first(), b.drop_first());
        if a.drop_first() == b.drop_first() {
            assert forall|i: int| 0 <= i < a.len() implies a[i] == b[i] by {
                if i > 0 {
                    assert(a[i] == a.drop_first()[i - 1]);
                    assert(b[i] == b.drop_first()[i - 1]);
                }
            }
            assert(a =~= b);
        }
        if a == b {
            assert(a.drop_first() =~= b.drop_first());
        }
    }
}

/// Antisymmetry: swapping the arguments reverses the verdict.
pub proof fn lemma_lex_cmp_antisymmetric(a: Seq<u8>, b: Seq<u8>)
    ensures
        lex_cmp(a, b) == Ordering::Less <==> lex_cmp(b, a) == Ordering::Greater,
        lex_cmp(a, b) == Ordering::Equal <==> lex_cmp(b, a) == Ordering::Equal,
    decreases a.len(),
{
    if a.len() > 0 && b.len() > 0 && a[0] == b[0] {
        lemma_lex_cmp_antisymmetric(a.drop_first(), b.drop_first());
    }
}

/// A key at least as great as one strictly above `x` is itself
/// strictly above `x`.
pub(crate) proof fn lemma_lex_cmp_ge_greater(a: Seq<u8>, b: Seq<u8>, x: Seq<u8>)
    requires
        lex_cmp(a, x) == Ordering::Greater,
        lex_cmp(a, b) != Ordering::Greater,
    ensures
        lex_cmp(b, x) == Ordering::Greater,
{
    lemma_lex_cmp_equal_iff(a, b);
    if a == b {
    } else {
        assert(lex_cmp(a, b) == Ordering::Less);
        lemma_lex_cmp_antisymmetric(x, a);
        lemma_lex_cmp_transitive(x, a, b);
        lemma_lex_cmp_antisymmetric(x, b);
    }
}

/// Transitivity of the strict order.
pub proof fn lemma_lex_cmp_transitive(a: Seq<u8>, b: Seq<u8>, c: Seq<u8>)
    requires
        lex_cmp(a, b) == Ordering::Less,
        lex_cmp(b, c) == Ordering::Less,
    ensures
        lex_cmp(a, c) == Ordering::Less,
    decreases a.len(),
{
    if a.len() > 0 && b.len() > 0 && c.len() > 0 && a[0] == b[0] && b[0] == c[0] {
        lemma_lex_cmp_transitive(a.drop_first(), b.drop_first(), c.drop_first());
    }
}

} // verus!
