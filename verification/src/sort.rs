//! Stable sorting of entries under a sort specification.
//!
//! The sort is an insertion sort: elements are taken left to right and each
//! is inserted after every element it does not strictly precede, so elements
//! that compare equal keep their input order.

use core::cmp::Ordering;
use vstd::prelude::*;
use vstd::multiset::Multiset;
use vstd::relations::sorted_by;
use vstd::seq_lib::lemma_multiset_commutative;

use crate::cmp::SortBy;
use crate::cmp::cmp_entry;
use crate::cmp::flip;
use crate::cmp::lemma_compare_antisymmetric;
use crate::cmp::lemma_compare_transitive;
use crate::cmp::ord_of_entries;
use crate::info::Entry;
use crate::info::EntryV;

verus! {

/// `e` inserted into `s` after every element that is no greater than `e`.
pub open spec fn insort<T>(s: Seq<T>, e: T, leq: spec_fn(T, T) -> bool) -> Seq<T>
    decreases s.len(),
{
    if s.len() == 0 {
        seq![e]
    } else if leq(s[0], e) {
        seq![s[0]] + insort(s.drop_first(), e, leq)
    } else {
        seq![e] + s
    }
}

/// Stable insertion sort: elements are inserted left to right, each after
/// its equals.
pub open spec fn sort_by_spec<T>(s: Seq<T>, leq: spec_fn(T, T) -> bool) -> Seq<T>
    decreases s.len(),
{
    if s.len() == 0 {
        s
    } else {
        insort(sort_by_spec(s.drop_last(), leq), s.last(), leq)
    }
}

/// Inserting into a sorted sequence keeps it sorted and adds exactly the new
/// element.
pub proof fn lemma_insort_ensures<T>(s: Seq<T>, e: T, leq: spec_fn(T, T) -> bool)
    requires
        sorted_by(s, leq),
        forall|a: T, b: T| #[trigger] leq(a, b) || #[trigger] leq(b, a),
        forall|a: T, b: T, c: T| #[trigger] leq(a, b) && #[trigger] leq(b, c) ==> leq(a, c),
    ensures
        sorted_by(insort(s, e, leq), leq),
        insort(s, e, leq).len() == s.len() + 1,
        insort(s, e, leq)[0] == e || (s.len() > 0 && insort(s, e, leq)[0] == s[0]),
        insort(s, e, leq).to_multiset() == s.push(e).to_multiset(),
    decreases s.len(),
{
    broadcast use vstd::seq_lib::group_to_multiset_ensures;

    if s.len() == 0 {
        assert(insort(s, e, leq) =~= s.push(e));
    } else if leq(s[0], e) {
        let rest = s.drop_first();
        let t = insort(rest, e, leq);
        let r = seq![s[0]] + t;
        lemma_insort_ensures(rest, e, leq);
        // The head of the result is no greater than every later element.
        assert(leq(s[0], t[0]));
        assert forall|i: int, j: int| 0 <= i < j < r.len() implies #[trigger] leq(r[i], r[j]) by {
            if i == 0 {
                if j > 1 {
                    assert(leq(t[0], t[j - 1]));
                }
            } else {
                assert(leq(t[i - 1], t[j - 1]));
            }
        }
        // Multisets: peel the head off both sides.
        lemma_multiset_commutative(seq![s[0]], t);
        assert(seq![s[0]].to_multiset() =~= Multiset::empty().insert(s[0])) by {
            assert(seq![s[0]] =~= Seq::<T>::empty().push(s[0]));
        }
        assert(s.push(e) =~= seq![s[0]] + rest.push(e));
        lemma_multiset_commutative(seq![s[0]], rest.push(e));
        assert(r.to_multiset() =~= s.push(e).to_multiset());
    } else {
        let r = seq![e] + s;
        assert forall|i: int, j: int| 0 <= i < j < r.len() implies #[trigger] leq(r[i], r[j]) by {
            if i == 0 {
                assert(leq(e, s[0]));
                if j > 1 {
                    assert(leq(s[0], s[j - 1]));
                }
            } else {
                assert(leq(s[i - 1], s[j - 1]));
            }
        }
        lemma_multiset_commutative(seq![e], s);
        lemma_multiset_commutative(s, seq![e]);
        assert(s.push(e) =~= s + seq![e]);
        assert(r.to_multiset() =~= s.push(e).to_multiset());
    }
}

/// Inserting at the first position whose element is greater is what `insort`
/// does.
pub proof fn lemma_insort_at<T>(s: Seq<T>, e: T, leq: spec_fn(T, T) -> bool, j: int)
    requires
        0 <= j <= s.len(),
        forall|i: int| 0 <= i < j ==> #[trigger] leq(s[i], e),
        j < s.len() ==> !leq(s[j], e),
    ensures
        insort(s, e, leq) == s.insert(j, e),
    decreases s.len(),
{
    if s.len() == 0 {
        assert(insort(s, e, leq) =~= s.insert(0, e));
    } else if j == 0 {
        assert(insort(s, e, leq) =~= s.insert(0, e));
    } else {
        assert(leq(s[0], e));
        let rest = s.drop_first();
        assert(forall|i: int| 0 <= i < j - 1 ==> #[trigger] leq(rest[i], e));
        lemma_insort_at(rest, e, leq, j - 1);
        assert(seq![s[0]] + rest.insert(j - 1, e) =~= s.insert(j, e));
    }
}

/// Inserting an element that every element is no greater than appends it.
pub proof fn lemma_insort_after_all<T>(s: Seq<T>, e: T, leq: spec_fn(T, T) -> bool)
    requires
        forall|i: int| 0 <= i < s.len() ==> #[trigger] leq(s[i], e),
    ensures
        insort(s, e, leq) == s.push(e),
    decreases s.len(),
{
    lemma_insort_at(s, e, leq, s.len() as int);
    assert(s.insert(s.len() as int, e) =~= s.push(e));
}

/// The sort returns a sorted permutation of its input.
pub proof fn lemma_sort_by_spec_ensures<T>(s: Seq<T>, leq: spec_fn(T, T) -> bool)
    requires
        forall|a: T, b: T| #[trigger] leq(a, b) || #[trigger] leq(b, a),
        forall|a: T, b: T, c: T| #[trigger] leq(a, b) && #[trigger] leq(b, c) ==> leq(a, c),
    ensures
        sorted_by(sort_by_spec(s, leq), leq),
        sort_by_spec(s, leq).len() == s.len(),
        sort_by_spec(s, leq).to_multiset() == s.to_multiset(),
    decreases s.len(),
{
    broadcast use vstd::seq_lib::group_to_multiset_ensures;

    if s.len() > 0 {
        lemma_sort_by_spec_ensures(s.drop_last(), leq);
        lemma_insort_ensures(sort_by_spec(s.drop_last(), leq), s.last(), leq);
        assert(s.drop_last().push(s.last()) =~= s);
    }
}

/// Sorting a sequence that is already sorted is a no-op: the result is the
/// very same sequence.
pub proof fn lemma_sort_by_spec_sorted_id<T>(s: Seq<T>, leq: spec_fn(T, T) -> bool)
    requires
        sorted_by(s, leq),
    ensures
        sort_by_spec(s, leq) == s,
    decreases s.len(),
{
    if s.len() > 0 {
        let prefix = s.drop_last();
        lemma_sort_by_spec_sorted_id(prefix, leq);
        lemma_insort_after_all(prefix, s.last(), leq);
        assert(prefix.push(s.last()) =~= s);
    }
}

/// The order entries are sorted by: no greater under the key chain, with the
/// reverse flag already applied.
pub open spec fn entry_le(keys: Seq<SortBy>, reverse: bool) -> spec_fn(EntryV, EntryV) -> bool {
    |a: EntryV, b: EntryV| ord_of_entries(a, b, keys, reverse) != Ordering::Greater
}

/// What sorting a sequence of entries yields under the given keys and
/// reverse flag.
pub open spec fn sort_entries_spec(s: Seq<EntryV>, keys: Seq<SortBy>, reverse: bool) -> Seq<
    EntryV,
> {
    sort_by_spec(s, entry_le(keys, reverse))
}

/// The entry order is total and transitive; how entries sort is therefore
/// determined by the comparison alone.
pub proof fn lemma_entry_le_total_transitive(keys: Seq<SortBy>, reverse: bool)
    ensures
        forall|a: EntryV, b: EntryV|
            #[trigger] entry_le(keys, reverse)(a, b) || #[trigger] entry_le(keys, reverse)(b, a),
        forall|a: EntryV, b: EntryV, c: EntryV|
            #[trigger] entry_le(keys, reverse)(a, b) && #[trigger] entry_le(keys, reverse)(b, c)
                ==> entry_le(keys, reverse)(a, c),
{
    let leq = entry_le(keys, reverse);
    assert forall|a: EntryV, b: EntryV| #[trigger] leq(a, b) || #[trigger] leq(b, a) by {
        lemma_compare_antisymmetric(a, b, keys);
    }
    assert forall|a: EntryV, b: EntryV, c: EntryV|
        #[trigger] leq(a, b) && #[trigger] leq(b, c) implies leq(a, c) by {
        lemma_compare_transitive(a, b, c, keys);
        lemma_compare_transitive(c, b, a, keys);
        lemma_compare_antisymmetric(a, b, keys);
        lemma_compare_antisymmetric(b, c, keys);
        lemma_compare_antisymmetric(a, c, keys);
    }
}

/// Sorting an already-sorted entry sequence under the same keys and reverse
/// flag is a stable no-op.
pub proof fn lemma_sort_entries_sorted_id(s: Seq<EntryV>, keys: Seq<SortBy>, reverse: bool)
    requires
        sorted_by(s, entry_le(keys, reverse)),
    ensures
        sort_entries_spec(s, keys, reverse) == s,
{
    lemma_sort_by_spec_sorted_id(s, entry_le(keys, reverse));
}

/// Compares two entries under the complete sort order, the reverse flag
/// included.
fn cmp_entries_ordered(a: &Entry, b: &Entry, keys: &[SortBy], reverse: bool) -> (r: Ordering)
    ensures
        r == ord_of_entries(a.deep_view(), b.deep_view(), keys@, reverse),
{
    let o = cmp_entry(a, b, keys);
    if reverse {
        match o {
            Ordering::Less => Ordering::Greater,
            Ordering::Equal => Ordering::Equal,
            Ordering::Greater => Ordering::Less,
        }
    } else {
        o
    }
}

/// Where `e` belongs in the sorted prefix: the first index whose element is
/// strictly greater.
fn insert_pos(out: &Vec<Entry>, e: &Entry, keys: &[SortBy], reverse: bool) -> (j: usize)
    ensures
        j <= out.len(),
        forall|i: int|
            0 <= i < j ==> #[trigger] entry_le(keys@, reverse)(
                out.deep_view()[i],
                e.deep_view(),
            ),
        j < out.len() ==> !entry_le(keys@, reverse)(out.deep_view()[j as int], e.deep_view()),
{
    let mut j: usize = 0;
    while j < out.len()
        invariant
            j <= out.len(),
            forall|i: int|
                0 <= i < j ==> #[trigger] entry_le(keys@, reverse)(
                    out.deep_view()[i],
                    e.deep_view(),
                ),
        decreases out.len() - j,
    {
        match cmp_entries_ordered(&out[j], e, keys, reverse) {
            Ordering::Greater => {
                return j;
            },
            _ => {
                j = j + 1;
            },
        }
    }
    j
}

/// Sorts the entries per the sort specification: stably, by the key chain,
/// reversed once at the end when the reverse flag is set.
pub fn sort_entries(entries: Vec<Entry>, keys: &[SortBy], reverse: bool) -> (r: Vec<Entry>)
    ensures
        r.deep_view() == sort_entries_spec(entries.deep_view(), keys@, reverse),
        sorted_by(r.deep_view(), entry_le(keys@, reverse)),
        r.deep_view().to_multiset() == entries.deep_view().to_multiset(),
        r@.len() == entries@.len(),
{
    let ghost leq = entry_le(keys@, reverse);
    let ghost orig = entries.deep_view();
    let mut rest = entries;
    let mut out: Vec<Entry> = Vec::new();
    let ghost mut done: Seq<EntryV> = Seq::empty();
    proof {
        assert(done + rest.deep_view() =~= orig);
        assert(done.len() + rest@.len() == orig.len());
    }
    while rest.len() > 0
        invariant
            out.deep_view() == sort_by_spec(done, leq),
            out@.len() == done.len(),
            done + rest.deep_view() =~= orig,
            done.len() + rest@.len() == orig.len(),
            leq == entry_le(keys@, reverse),
        decreases rest.len(),
    {
        let ghost rest_before = rest.deep_view();
        let e = rest.remove(0);
        proof {
            assert(rest.deep_view() =~= rest_before.drop_first());
        }
        let j = insert_pos(&out, &e, keys, reverse);
        let ghost out_before = out.deep_view();
        proof {
            lemma_insort_at(out_before, e.deep_view(), leq, j as int);
            let stepped = done.push(e.deep_view());
            assert(stepped.drop_last() =~= done);
            assert(insort(sort_by_spec(done, leq), e.deep_view(), leq) == sort_by_spec(
                stepped,
                leq,
            ));
            assert(stepped + rest.deep_view() =~= orig);
            done = stepped;
        }
        out.insert(j, e);
        proof {
            assert(out.deep_view() =~= out_before.insert(j as int, e.deep_view()));
        }
    }
    proof {
        assert(done =~= orig);
        lemma_entry_le_total_transitive(keys@, reverse);
        lemma_sort_by_spec_ensures(orig, leq);
    }
    out
}

} // verus!
