//! Ordering of entries within an index, and a stable insertion sort by that order.

use vstd::prelude::*;
use crate::collate::{collation_order, collator_compare};
use crate::datetime::{compare_opt_datetime, opt_datetime_order};
use crate::entry::Entry;
use crate::index::{Sort, SortDirection, SortField};

verus! {

broadcast use vstd::seq_lib::group_to_multiset_ensures;

/// The order of two entries by a field: dates chronologically (missing dates first), titles by
/// the numeric-aware ICU collation.
pub open spec fn entry_order<M>(field: SortField, a: Entry<M>, b: Entry<M>) -> int {
    match field {
        SortField::Date => opt_datetime_order(a.date, b.date),
        SortField::Title => collation_order(true, a.title@, b.title@),
    }
}

/// The order of two entries under a sort specification (descending reverses the field order).
pub open spec fn sort_order<M>(sort: Sort, a: Entry<M>, b: Entry<M>) -> int {
    match sort.direction {
        SortDirection::Ascending => entry_order(sort.field, a, b),
        SortDirection::Descending => entry_order(sort.field, b, a),
    }
}

/// Every entry is ordered no later than its successor.
pub open spec fn is_sorted_by<M>(s: Seq<Entry<M>>, sort: Sort) -> bool {
    forall|i: int| 0 <= i < s.len() - 1 ==> sort_order(sort, #[trigger] s[i], s[i + 1]) <= 0
}

/// `s` holds entries of `orig`, `s[j]` being `orig[p[j]]` with no position of `orig` taken
/// twice, and neighbours of `s` that compare equal under `sort` keep the order they had in
/// `orig`.
pub open spec fn is_stable_selection<M>(orig: Seq<Entry<M>>, s: Seq<Entry<M>>, sort: Sort, p: Seq<int>) -> bool {
    &&& p.len() == s.len()
    &&& forall|j: int| 0 <= j < s.len() ==> 0 <= #[trigger] p[j] < orig.len() && s[j] == orig[p[j]]
    &&& forall|j: int, l: int| 0 <= j < l < s.len() ==> #[trigger] p[j] != #[trigger] p[l]
    &&& forall|j: int|
        0 <= j < s.len() - 1 && #[trigger] sort_order(sort, s[j], s[j + 1]) == 0 ==> p[j] < p[j + 1]
}

/// `s` holds all the entries of `orig`, rearranged stably (see `is_stable_selection`).
pub open spec fn is_stable_arrangement<M>(orig: Seq<Entry<M>>, s: Seq<Entry<M>>, sort: Sort, p: Seq<int>) -> bool {
    &&& s.len() == orig.len()
    &&& is_stable_selection(orig, s, sort, p)
}

/// The entries that a sequence of references points to.
pub open spec fn targets<M>(s: Seq<&Entry<M>>) -> Seq<Entry<M>> {
    s.map_values(|e: &Entry<M>| *e)
}

/// Compares two entries by a field.
pub fn compare_by_field<M>(field: SortField, a: &Entry<M>, b: &Entry<M>) -> (r: i8)
    ensures
        r == entry_order(field, *a, *b),
        entry_order(field, *b, *a) == -r,
{
    match field {
        SortField::Date => compare_opt_datetime(&a.date, &b.date),
        SortField::Title => collator_compare(a.title.as_str(), b.title.as_str(), true),
    }
}

/// Compares two entries under a sort specification.
pub fn compare_by_sort<M>(sort: Sort, a: &Entry<M>, b: &Entry<M>) -> (r: i8)
    ensures
        r == sort_order(sort, *a, *b),
        sort_order(sort, *b, *a) == -r,
{
    match sort.direction {
        SortDirection::Ascending => compare_by_field(sort.field, a, b),
        SortDirection::Descending => compare_by_field(sort.field, b, a),
    }
}

/// Inserting a new last entry of the source before every neighbour that it orders strictly
/// before keeps an arrangement stable.
proof fn stable_insert<M>(o0: Seq<Entry<M>>, tb: Seq<Entry<M>>, sort: Sort, p0: Seq<int>, k: int, x: Entry<M>)
    requires
        is_stable_arrangement(o0, tb, sort, p0),
        0 <= k <= tb.len(),
        k < tb.len() ==> sort_order(sort, x, tb[k]) < 0,
    ensures
        is_stable_arrangement(o0.push(x), tb.insert(k, x), sort, p0.insert(k, o0.len() as int)),
{
    let i = o0.len() as int;
    let o1 = o0.push(x);
    let t = tb.insert(k, x);
    let p = p0.insert(k, i);
    tb.insert_ensures(k, x);
    p0.insert_ensures(k, i);
    assert forall|j: int| 0 <= j < t.len() implies 0 <= #[trigger] p[j] < o1.len() && t[j] == o1[p[j]] by {
        if j < k {
            assert(p[j] == p0[j] && t[j] == tb[j]);
        } else if j > k {
            assert(p[j] == p0[j - 1] && t[j] == tb[j - 1]);
        }
    }
    assert forall|j: int, l: int| 0 <= j < l < t.len() implies #[trigger] p[j] != #[trigger] p[l] by {
        if j < k && l < k {
            assert(p0[j] != p0[l]);
        } else if j < k && l > k {
            assert(p0[j] != p0[l - 1]);
        } else if j > k {
            assert(p0[j - 1] != p0[l - 1]);
        } else if j < k {
            assert(p0[j] < i);
        } else {
            assert(p0[l - 1] < i);
        }
    }
    assert forall|j: int|
        0 <= j < t.len() - 1 && #[trigger] sort_order(sort, t[j], t[j + 1]) == 0 implies p[j] < p[j + 1] by {
        if j + 1 < k {
            assert(t[j] == tb[j] && t[j + 1] == tb[j + 1]);
            assert(sort_order(sort, tb[j], tb[j + 1]) == 0);
        } else if j + 1 == k {
            assert(p0[j] < i);
        } else if j == k {
            assert(t[j + 1] == tb[k]);
        } else {
            assert(t[j] == tb[j - 1] && t[j + 1] == tb[j]);
            assert(sort_order(sort, tb[j - 1], tb[j]) == 0);
        }
    }
}

/// Sorts entries (stably, by insertion) under a sort specification.
pub fn sort_entries<'a, M>(v: Vec<&'a Entry<M>>, sort: Sort) -> (r: Vec<&'a Entry<M>>)
    ensures
        targets(r@).to_multiset() == targets(v@).to_multiset(),
        r@.to_multiset() == v@.to_multiset(),
        is_sorted_by(targets(r@), sort),
        exists|p: Seq<int>| is_stable_arrangement(targets(v@), targets(r@), sort, p),
{
    let mut out: Vec<&'a Entry<M>> = Vec::new();
    let mut i: usize = 0;
    let ghost mut p: Seq<int> = Seq::empty();
    while i < v.len()
        invariant
            i <= v@.len(),
            out@.to_multiset() == v@.take(i as int).to_multiset(),
            targets(out@).to_multiset() == targets(v@.take(i as int)).to_multiset(),
            is_sorted_by(targets(out@), sort),
            is_stable_arrangement(targets(v@.take(i as int)), targets(out@), sort, p),
        decreases v@.len() - i,
    {
        let x = v[i];
        let mut k: usize = out.len();
        while k > 0
            invariant
                k <= out@.len(),
                is_sorted_by(targets(out@), sort),
                k < out@.len() ==> sort_order(sort, *x, *out@[k as int]) < 0,
            ensures
                k <= out@.len(),
                k < out@.len() ==> sort_order(sort, *x, *out@[k as int]) < 0,
                k > 0 ==> sort_order(sort, *out@[k - 1], *x) <= 0,
            decreases k,
        {
            let c: i8 = compare_by_sort(sort, out[k - 1], x);
            if c <= 0 {
                break;
            }
            k = k - 1;
        }
        let ghost before = out@;
        let ghost p0 = p;
        out.insert(k, x);
        proof {
            p = p0.insert(k as int, i as int);
            assert(v@.take(i + 1) =~= v@.take(i as int).push(v@[i as int]));
            assert(out@ =~= before.insert(k as int, x));
            before.insert_ensures(k as int, x);
            let t = targets(out@);
            let tb = targets(before);
            assert(t =~= tb.insert(k as int, *x));
            tb.insert_ensures(k as int, *x);
            assert(targets(v@.take(i + 1)) =~= targets(v@.take(i as int)).push(*x));
            assert forall|j: int| 0 <= j < t.len() - 1 implies sort_order(sort, #[trigger] t[j], t[j + 1]) <= 0 by {
                if j + 1 < k {
                    assert(t[j] == tb[j] && t[j + 1] == tb[j + 1]);
                } else if j + 1 == k {
                    assert(t[j] == tb[j] && t[j + 1] == *x);
                } else if j == k {
                    assert(t[j] == *x && t[j + 1] == tb[j]);
                } else {
                    assert(t[j] == tb[j - 1] && t[j + 1] == tb[j]);
                }
            }
            assert(targets(v@.take(i + 1)) =~= targets(v@.take(i as int)).push(*x));
            stable_insert(targets(v@.take(i as int)), tb, sort, p0, k as int, *x);
        }
        i = i + 1;
    }
    proof {
        assert(v@.take(v@.len() as int) =~= v@);
    }
    out
}

} // verus!
