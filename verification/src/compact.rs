//! The merge-time view of a mutation record.
//!
//! During a k-way merge of sorted sources, records are compared by
//! key alone: marker kind and payload are deliberately excluded, so
//! that all records sharing a key form one equivalence class.  Which
//! record of such a class survives is a precedence decision the merge
//! driver makes from its own source-recency metadata; it is not
//! encoded in this order.

use vstd::prelude::*;

verus! {

use core::cmp::Ordering;
use vstd::std_specs::cmp::PartialEqSpec;
use vstd::std_specs::cmp::PartialOrdSpec;
use crate::bytes::key_cmp;
use crate::bytes::lex_cmp;
use crate::item::Item;
use crate::item::ValueType;

/// One mutation record as seen by the merge step: a live value with
/// its payload, or one of the two delete markers, which carry only
/// the key.
#[derive(Clone, Debug)]
pub enum CompactItem<K, V> {
    /// A live write.
    Value {
        /// The key the write is against.
        key: K,
        /// The payload.
        value: V,
    },
    /// An unconditional delete marker.
    Tombstone(K),
    /// A conditional (weak) delete marker.
    WeakTombstone(K),
}

impl<K, V> CompactItem<K, V> {
    /// The key of the record, whatever its marker kind.
    pub open spec fn spec_key(&self) -> K {
        match self {
            CompactItem::Value { key, .. } => *key,
            CompactItem::Tombstone(key) => *key,
            CompactItem::WeakTombstone(key) => *key,
        }
    }

    /// The key of the record, whatever its marker kind.
    pub fn key(&self) -> (r: &K)
        ensures
            *r == self.spec_key(),
    {
        match self {
            CompactItem::Value { key, .. } => key,
            CompactItem::Tombstone(key) => key,
            CompactItem::WeakTombstone(key) => key,
        }
    }
}

impl CompactItem<Vec<u8>, Vec<u8>> {
    /// Wrap a batch item as a merge record: the marker kind selects
    /// the variant, delete markers drop the payload.
    pub fn from_item(item: Item) -> (r: Self)
        ensures
            r.spec_key()@ == item.key@,
            item.value_type == ValueType::Value ==> (r matches CompactItem::Value { key, value }
                && value@ == item.value@),
            item.value_type == ValueType::Tombstone ==> r is Tombstone,
            item.value_type == ValueType::WeakTombstone ==> r is WeakTombstone,
    {
        match item.value_type {
            ValueType::Value => CompactItem::Value { key: item.key, value: item.value },
            ValueType::Tombstone => CompactItem::Tombstone(item.key),
            ValueType::WeakTombstone => CompactItem::WeakTombstone(item.key),
        }
    }
}

impl<V> CompactItem<Vec<u8>, V> {
    /// Total comparison of two merge records: by key alone, in
    /// byte-lexicographic order.
    pub fn cmp(&self, other: &Self) -> (r: Ordering)
        ensures
            r == lex_cmp(self.spec_key()@, other.spec_key()@),
    {
        key_cmp(self.key(), other.key())
    }
}

impl<V> PartialEq for CompactItem<Vec<u8>, V> {
    fn eq(&self, other: &Self) -> bool {
        proof {
            crate::bytes::lemma_lex_cmp_equal_iff(self.spec_key()@, other.spec_key()@);
        }
        match self.cmp(other) {
            Ordering::Equal => true,
            _ => false,
        }
    }
}

impl<V> Eq for CompactItem<Vec<u8>, V> {}

impl<V> vstd::std_specs::cmp::PartialEqSpecImpl for CompactItem<Vec<u8>, V> {
    open spec fn obeys_eq_spec() -> bool {
        true
    }

    open spec fn eq_spec(&self, other: &Self) -> bool {
        self.spec_key()@ == other.spec_key()@
    }
}

impl<V> PartialOrd for CompactItem<Vec<u8>, V> {
    fn partial_cmp(&self, other: &Self) -> Option<Ordering> {
        Some(self.cmp(other))
    }
}

impl<V> vstd::std_specs::cmp::PartialOrdSpecImpl for CompactItem<Vec<u8>, V> {
    open spec fn obeys_partial_cmp_spec() -> bool {
        true
    }

    open spec fn partial_cmp_spec(&self, other: &Self) -> Option<Ordering> {
        Some(lex_cmp(self.spec_key()@, other.spec_key()@))
    }
}

/// Records stand in key order: no record's key is lexicographically
/// greater than a later record's key.
pub open spec fn sorted_by_key<V>(s: Seq<CompactItem<Vec<u8>, V>>) -> bool {
    forall|i: int, j: int|
        0 <= i < j < s.len() ==> lex_cmp(s[i].spec_key()@, s[j].spec_key()@) != Ordering::Greater
}

/// Comparison of merge records reads the key alone.  The ordering
/// verdict of two records is the byte-lexicographic verdict of their
/// keys, and two records are equal exactly when their keys hold the
/// same bytes - marker kind and payload play no part.
pub proof fn lemma_order_ignores_marker<V>(x: &CompactItem<Vec<u8>, V>, y: &CompactItem<
    Vec<u8>,
    V,
>)
    ensures
        x.partial_cmp_spec(y) == Some(lex_cmp(x.spec_key()@, y.spec_key()@)),
        x.eq_spec(y) <==> x.spec_key()@ == y.spec_key()@,
{
}

/// Key order on merge records is a strict total order consistent
/// with byte-lexicographic order of the underlying key: every pair
/// gets exactly one verdict, records compare equal exactly when their
/// key bytes are equal, swapping the arguments reverses the verdict,
/// and the strict verdict is transitive - all of it regardless of
/// each record's marker kind.
pub proof fn lemma_compact_order_strict_total<V>(
    x: &CompactItem<Vec<u8>, V>,
    y: &CompactItem<Vec<u8>, V>,
    z: &CompactItem<Vec<u8>, V>,
)
    ensures
        x.partial_cmp_spec(y) is Some,
        x.partial_cmp_spec(y) == Some(Ordering::Equal) <==> x.spec_key()@ == y.spec_key()@,
        x.partial_cmp_spec(y) == Some(Ordering::Less) <==> y.partial_cmp_spec(x) == Some(
            Ordering::Greater,
        ),
        (x.partial_cmp_spec(y) == Some(Ordering::Less) && y.partial_cmp_spec(z) == Some(
            Ordering::Less,
        )) ==> x.partial_cmp_spec(z) == Some(Ordering::Less),
{
    let a = x.spec_key()@;
    let b = y.spec_key()@;
    let c = z.spec_key()@;
    crate::bytes::lemma_lex_cmp_equal_iff(a, b);
    crate::bytes::lemma_lex_cmp_antisymmetric(a, b);
    if lex_cmp(a, b) == Ordering::Less && lex_cmp(b, c) == Ordering::Less {
        crate::bytes::lemma_lex_cmp_transitive(a, b, c);
    }
}

/// In a key-sorted sequence, all records sharing a key stand
/// contiguously: between two records with equal keys no record with
/// another key can appear.
pub proof fn lemma_sorted_groups_equal_keys<V>(
    s: Seq<CompactItem<Vec<u8>, V>>,
    i: int,
    j: int,
    k: int,
)
    requires
        sorted_by_key(s),
        0 <= i <= j <= k < s.len(),
        s[i].spec_key()@ == s[k].spec_key()@,
    ensures
        s[j].spec_key()@ == s[i].spec_key()@,
{
    let a = s[i].spec_key()@;
    let b = s[j].spec_key()@;
    let c = s[k].spec_key()@;
    if i < j && j < k {
        crate::bytes::lemma_lex_cmp_equal_iff(a, b);
        crate::bytes::lemma_lex_cmp_equal_iff(b, c);
        crate::bytes::lemma_lex_cmp_equal_iff(a, c);
        if b != a {
            assert(lex_cmp(a, b) == Ordering::Less);
            assert(lex_cmp(b, c) == Ordering::Less);
            crate::bytes::lemma_lex_cmp_transitive(a, b, c);
        }
    }
}

/// Holds of a record exactly when its key is `k`.
pub open spec fn has_key<V>(k: Seq<u8>) -> spec_fn(CompactItem<Vec<u8>, V>) -> bool {
    |c: CompactItem<Vec<u8>, V>| c.spec_key()@ == k
}

/// The records bearing one key, in their order of appearance.
pub open spec fn records_with_key<V>(s: Seq<CompactItem<Vec<u8>, V>>, k: Seq<u8>) -> Seq<
    CompactItem<Vec<u8>, V>,
> {
    s.filter(has_key(k))
}

/// A sequence none of whose records bears the key filters down to
/// nothing.
proof fn lemma_filter_no_match<V>(s: Seq<CompactItem<Vec<u8>, V>>, k: Seq<u8>)
    requires
        forall|i: int| 0 <= i < s.len() ==> s[i].spec_key()@ != k,
    ensures
        s.filter(has_key(k)) =~= Seq::<CompactItem<Vec<u8>, V>>::empty(),
    decreases s.len(),
{
    reveal(Seq::filter);
    if s.len() > 0 {
        lemma_filter_no_match(s.drop_last(), k);
    }
}

/// Sort a batch of merge records by key, in byte-lexicographic order.
///
/// The result is a permutation of the input in key order, stable for
/// each key: the records bearing one key come out exactly as they
/// went in, as one contiguous group.  An input already in key order
/// comes back unchanged, so sorting twice gives what sorting once
/// gave.
pub fn sort_by_key<V>(items: Vec<CompactItem<Vec<u8>, V>>) -> (r: Vec<
    CompactItem<Vec<u8>, V>,
>)
    ensures
        r@.to_multiset() == items@.to_multiset(),
        sorted_by_key(r@),
        forall|k: Seq<u8>| records_with_key(r@, k) == records_with_key(items@, k),
        sorted_by_key(items@) ==> r@ == items@,
{
    let ghost orig = items@;
    let mut rest = items;
    let mut out: Vec<CompactItem<Vec<u8>, V>> = Vec::new();
    let ghost mut taken: int = 0;
    proof {
        assert(orig.skip(0) =~= orig);
        assert(orig.take(0) =~= Seq::<CompactItem<Vec<u8>, V>>::empty());
        assert(out@.to_multiset() =~= orig.take(0).to_multiset());
        assert forall|k: Seq<u8>| records_with_key(out@, k) == records_with_key(
            orig.take(0),
            k,
        ) by {
            reveal(Seq::filter);
            assert(records_with_key(out@, k) =~= records_with_key(orig.take(0), k));
        }
    }
    while rest.len() > 0
        invariant
            0 <= taken <= orig.len(),
            rest@ == orig.skip(taken),
            out@.len() == taken,
            out@.to_multiset() == orig.take(taken).to_multiset(),
            sorted_by_key(out@),
            forall|k: Seq<u8>| records_with_key(out@, k) == records_with_key(orig.take(taken), k),
            sorted_by_key(orig) ==> out@ == orig.take(taken),
        decreases rest@.len(),
    {
        let x = rest.remove(0);
        proof {
            assert(x == orig[taken]);
            assert(rest@ =~= orig.skip(taken + 1));
        }
        let ghost old_out = out@;
        let p = insert_position(&out, &x);
        proof {
            let t = old_out.insert(p as int, x);
            old_out.insert_ensures(p as int, x);
            assert forall|i1: int, j1: int| 0 <= i1 < j1 < t.len() implies lex_cmp(
                t[i1].spec_key()@,
                t[j1].spec_key()@,
            ) != Ordering::Greater by {
                if j1 < p {
                    assert(t[i1] == old_out[i1]);
                    assert(t[j1] == old_out[j1]);
                    assert(lex_cmp(old_out[i1].spec_key()@, old_out[j1].spec_key()@)
                        != Ordering::Greater);
                } else if j1 == p {
                    assert(t[i1] == old_out[i1]);
                    assert(t[j1] == x);
                    assert(lex_cmp(old_out[i1].spec_key()@, x.spec_key()@) != Ordering::Greater);
                } else if i1 < p {
                    assert(t[i1] == old_out[i1]);
                    assert(t[j1] == old_out[j1 - 1]);
                    assert(lex_cmp(old_out[i1].spec_key()@, old_out[j1 - 1].spec_key()@)
                        != Ordering::Greater);
                } else if i1 == p {
                    assert(t[i1] == x);
                    assert(t[j1] == old_out[j1 - 1]);
                    assert(lex_cmp(old_out[j1 - 1].spec_key()@, x.spec_key()@)
                        == Ordering::Greater);
                    crate::bytes::lemma_lex_cmp_antisymmetric(x.spec_key()@, t[j1].spec_key()@);
                } else {
                    assert(t[i1] == old_out[i1 - 1]);
                    assert(t[j1] == old_out[j1 - 1]);
                    assert(lex_cmp(old_out[i1 - 1].spec_key()@, old_out[j1 - 1].spec_key()@)
                        != Ordering::Greater);
                }
            }
            if sorted_by_key(orig) {
                assert forall|j1: int| 0 <= j1 < old_out.len() implies lex_cmp(
                    old_out[j1].spec_key()@,
                    x.spec_key()@,
                ) != Ordering::Greater by {
                    assert(old_out[j1] == orig.take(taken)[j1]);
                    assert(orig.take(taken)[j1] == orig[j1]);
                    assert(lex_cmp(orig[j1].spec_key()@, orig[taken].spec_key()@)
                        != Ordering::Greater);
                }
                if (p as int) < old_out.len() {
                    assert(lex_cmp(old_out[p as int].spec_key()@, x.spec_key()@)
                        == Ordering::Greater);
                    assert(false);
                }
                assert(p == old_out.len());
                assert(t =~= orig.take(taken + 1));
            }
            assert(orig.take(taken + 1) =~= orig.take(taken).push(orig[taken]));
            assert forall|k: Seq<u8>| records_with_key(t, k) == records_with_key(
                orig.take(taken + 1),
                k,
            ) by {
                let pred = has_key::<V>(k);
                assert(t =~= old_out.take(p as int) + (seq![x] + old_out.skip(p as int)));
                Seq::filter_distributes_over_add(
                    old_out.take(p as int),
                    seq![x] + old_out.skip(p as int),
                    pred,
                );
                Seq::filter_distributes_over_add(seq![x], old_out.skip(p as int), pred);
                assert(old_out =~= old_out.take(p as int) + old_out.skip(p as int));
                Seq::filter_distributes_over_add(
                    old_out.take(p as int),
                    old_out.skip(p as int),
                    pred,
                );
                assert(orig.take(taken + 1) =~= orig.take(taken) + seq![x]);
                Seq::filter_distributes_over_add(orig.take(taken), seq![x], pred);
                assert(records_with_key(old_out, k) == records_with_key(orig.take(taken), k));
                reveal_with_fuel(Seq::filter, 3);
                assert(seq![x].drop_last() =~= Seq::<CompactItem<Vec<u8>, V>>::empty());
                if x.spec_key()@ == k {
                    assert forall|i1: int|
                        0 <= i1 < old_out.skip(p as int).len() implies old_out.skip(
                        p as int,
                    )[i1].spec_key()@ != k by {
                        let e = old_out.skip(p as int)[i1];
                        assert(e == old_out[p + i1]);
                        assert(lex_cmp(e.spec_key()@, x.spec_key()@) == Ordering::Greater);
                        crate::bytes::lemma_lex_cmp_equal_iff(e.spec_key()@, x.spec_key()@);
                    }
                    lemma_filter_no_match(old_out.skip(p as int), k);
                    assert(records_with_key(t, k) =~= records_with_key(orig.take(taken + 1), k));
                } else {
                    assert(seq![x].filter(pred) =~= Seq::<CompactItem<Vec<u8>, V>>::empty());
                    assert(records_with_key(t, k) =~= records_with_key(orig.take(taken + 1), k));
                }
            }
        }
        out.insert(p, x);
        proof {
            assert(out@ == old_out.insert(p as int, x));
            vstd::seq_lib::to_multiset_insert(old_out, p as int, x);
            vstd::seq_lib::to_multiset_build(orig.take(taken), orig[taken]);
            taken = taken + 1;
        }
    }
    proof {
        assert(orig.take(taken) =~= orig);
    }
    out
}

/// Where a new record belongs in a key-sorted batch: after every
/// record whose key is not strictly greater, before all those whose
/// key is.
fn insert_position<V>(out: &Vec<CompactItem<Vec<u8>, V>>, x: &CompactItem<Vec<u8>, V>) -> (p:
    usize)
    requires
        sorted_by_key(out@),
    ensures
        0 <= p <= out@.len(),
        forall|j: int|
            0 <= j < p ==> lex_cmp(out@[j].spec_key()@, x.spec_key()@) != Ordering::Greater,
        forall|j: int|
            p <= j < out@.len() ==> lex_cmp(out@[j].spec_key()@, x.spec_key()@)
                == Ordering::Greater,
{
    let mut p: usize = 0;
    while p < out.len()
        invariant
            sorted_by_key(out@),
            0 <= p <= out@.len(),
            forall|j: int|
                0 <= j < p ==> lex_cmp(out@[j].spec_key()@, x.spec_key()@) != Ordering::Greater,
        decreases out@.len() - p,
    {
        let verdict = out[p].cmp(x);
        match verdict {
            Ordering::Greater => {
                proof {
                    assert forall|j: int|
                        p <= j < out@.len() implies lex_cmp(out@[j].spec_key()@, x.spec_key()@)
                        == Ordering::Greater by {
                        if j > p {
                            assert(lex_cmp(out@[p as int].spec_key()@, out@[j].spec_key()@)
                                != Ordering::Greater);
                            crate::bytes::lemma_lex_cmp_ge_greater(
                                out@[p as int].spec_key()@,
                                out@[j].spec_key()@,
                                x.spec_key()@,
                            );
                        }
                    }
                }
                return p;
            },
            _ => {
                p += 1;
            },
        }
    }
    p
}

} // verus!
