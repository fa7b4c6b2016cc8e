use vstd::prelude::*;

use crate::date::{PaymentDate, spans_fit};

verus! {

/// Position `a` comes before position `b` in the date order: its date is
/// earlier, or the dates are equal and `a` stands first in the input.
pub open spec fn precedes<T: PaymentDate>(dates: Seq<T>, a: int, b: int) -> bool {
    dates[a].day_number() < dates[b].day_number() || (dates[a].day_number()
        == dates[b].day_number() && a < b)
}

/// `order` lists every position of `dates` once, by ascending date, and
/// payments on one date in their input order (a stable sort by date).
pub open spec fn is_date_order<T: PaymentDate>(dates: Seq<T>, order: Seq<usize>) -> bool {
    &&& order.len() == dates.len()
    &&& forall|k: int| 0 <= k < order.len() ==> order[k] < dates.len()
    &&& forall|j: usize| j < dates.len() ==> order.contains(j)
    &&& forall|k: int, l: int|
        0 <= k < l < order.len() ==> precedes(dates, order[k] as int, order[l] as int)
}

/// The positions of `dates` in ascending date order, stable for equal dates.
pub fn date_order<T: PaymentDate>(dates: &Vec<T>) -> (order: Vec<usize>)
    requires
        spans_fit(dates@),
    ensures
        is_date_order(dates@, order@),
{
    let mut order: Vec<usize> = Vec::new();
    let mut i: usize = 0;
    while i < dates.len()
        invariant
            spans_fit(dates@),
            i <= dates@.len(),
            order@.len() == i,
            forall|k: int| 0 <= k < order@.len() ==> order@[k] < i,
            forall|j: usize| j < i ==> order@.contains(j),
            forall|k: int, l: int|
                0 <= k < l < order@.len() ==> precedes(dates@, order@[k] as int, order@[l] as int),
        decreases dates@.len() - i,
    {
        let d = dates[i];
        let mut pos: usize = order.len();
        while pos > 0 && dates[order[pos - 1]].days_since(d) > 0
            invariant
                spans_fit(dates@),
                i < dates@.len(),
                d == dates@[i as int],
                pos <= order@.len(),
                order@.len() == i,
                forall|k: int| 0 <= k < order@.len() ==> order@[k] < i,
                forall|k: int|
                    pos <= k < order@.len() ==> dates@[order@[k] as int].day_number()
                        > d.day_number(),
            decreases pos,
        {
            pos = pos - 1;
        }
        let ghost before = order@;
        order.insert(pos, i);
        proof {
            assert(order@ == before.insert(pos as int, i));
            assert forall|k: int, l: int| 0 <= k < l < order@.len() implies precedes(
                dates@,
                order@[k] as int,
                order@[l] as int,
            ) by {
                if l == pos {
                    if k < pos - 1 {
                        assert(precedes(dates@, before[k] as int, before[pos - 1] as int));
                    }
                } else if k == pos {
                    assert(order@[l] == before[l - 1]);
                }
            }
            assert forall|j: usize| j <= i implies order@.contains(j) by {
                if j < i {
                    assert(before.contains(j));
                    let w = choose|w: int| 0 <= w < before.len() && before[w] == j;
                    if w < pos {
                        assert(order@[w] == j);
                    } else {
                        assert(order@[w + 1] == j);
                    }
                } else {
                    assert(order@[pos as int] == i);
                }
            }
        }
        i = i + 1;
    }
    order
}

/// The number of days from the earliest date to each date, taken along
/// `order`: the numerator of each payment's discount exponent.
pub fn day_offsets<T: PaymentDate>(dates: &Vec<T>, order: &Vec<usize>) -> (r: Vec<i32>)
    requires
        spans_fit(dates@),
        is_date_order(dates@, order@),
    ensures
        r@.len() == order@.len(),
        forall|k: int|
            0 <= k < r@.len() ==> r@[k] == dates@[order@[k] as int].day_number()
                - dates@[order@[0] as int].day_number(),
{
    let mut r: Vec<i32> = Vec::new();
    let mut k: usize = 0;
    while k < order.len()
        invariant
            spans_fit(dates@),
            is_date_order(dates@, order@),
            k <= order@.len(),
            r@.len() == k,
            forall|m: int|
                0 <= m < k ==> r@[m] == dates@[order@[m] as int].day_number()
                    - dates@[order@[0] as int].day_number(),
        decreases order@.len() - k,
    {
        let first = dates[order[0]];
        r.push(dates[order[k]].days_since(first));
        k = k + 1;
    }
    r
}

} // verus!

verus! {

/// The date order is canonical: the positions of one list of dates have a
/// single stable order by date, so sorting twice gives the same order.
pub proof fn lemma_date_order_unique<T: PaymentDate>(dates: Seq<T>, a: Seq<usize>, b: Seq<usize>)
    requires
        is_date_order(dates, a),
        is_date_order(dates, b),
    ensures
        a == b,
{
    if a != b {
        assert(!(a =~= b));
        let k = choose|k: int| 0 <= k < a.len() && a[k] != b[k];
        lemma_first_difference(a, b, k);
        let f = choose|f: int|
            0 <= f < a.len() && a[f] != b[f] && forall|g: int| 0 <= g < f ==> a[g] == b[g];
        let x = a[f];
        let y = b[f];
        assert(b.contains(x));
        let n = choose|n: int| 0 <= n < b.len() && b[n] == x;
        if n < f {
            assert(a[n] == b[n]);
            assert(precedes(dates, a[n] as int, a[f] as int));
        }
        assert(precedes(dates, b[f] as int, b[n] as int));
        assert(a.contains(y));
        let m = choose|m: int| 0 <= m < a.len() && a[m] == y;
        if m < f {
            assert(a[m] == b[m]);
            assert(precedes(dates, b[m] as int, b[f] as int));
        }
        assert(precedes(dates, a[f] as int, a[m] as int));
    }
}

proof fn lemma_first_difference(a: Seq<usize>, b: Seq<usize>, k: int)
    requires
        a.len() == b.len(),
        0 <= k < a.len(),
        a[k] != b[k],
    ensures
        exists|f: int|
            0 <= f < a.len() && a[f] != b[f] && forall|g: int| 0 <= g < f ==> a[g] == b[g],
    decreases k,
{
    if exists|g: int| 0 <= g < k && a[g] != b[g] {
        let g = choose|g: int| 0 <= g < k && a[g] != b[g];
        lemma_first_difference(a, b, g);
    } else {
        assert(forall|g: int| 0 <= g < k ==> a[g] == b[g]);
    }
}

} // verus!

verus! {

/// The day numbers of `dates`, read along `order`.
pub open spec fn days_along<T: PaymentDate>(dates: Seq<T>, order: Seq<usize>) -> Seq<int> {
    order.map_values(|i: usize| dates[i as int].day_number())
}

/// `p` rearranges the positions `0..n`: each stands in it exactly once.
pub open spec fn is_rearrangement(p: Seq<usize>, n: nat) -> bool {
    &&& p.len() == n
    &&& forall|k: int| 0 <= k < p.len() ==> p[k] < n
    &&& forall|j: usize| j < n ==> p.contains(j)
    &&& forall|k: int, l: int| 0 <= k < l < p.len() ==> p[k] != p[l]
}

/// Permuting the input does not change the dates met along the date order:
/// if `moved` holds `dates[p[k]]` at each position `k`, the day numbers read
/// along the date order of either list are the same, and so are the day
/// offsets that serve as discount exponents.
pub proof fn lemma_order_independent<T: PaymentDate>(
    dates: Seq<T>,
    moved: Seq<T>,
    p: Seq<usize>,
    order: Seq<usize>,
    moved_order: Seq<usize>,
)
    requires
        dates.len() <= usize::MAX,
        is_rearrangement(p, dates.len()),
        moved.len() == dates.len(),
        forall|k: int| 0 <= k < moved.len() ==> moved[k] == dates[p[k] as int],
        is_date_order(dates, order),
        is_date_order(moved, moved_order),
    ensures
        days_along(dates, order) == days_along(moved, moved_order),
{
    let n = dates.len();
    let all = Seq::new(n, |i: int| dates[i].day_number());
    let through = moved_order.map_values(|k: usize| p[k as int]);
    assert(is_rearrangement(order, n)) by {
        assert forall|k: int, l: int| 0 <= k < l < order.len() implies order[k] != order[l] by {
            assert(precedes(dates, order[k] as int, order[l] as int));
        }
    }
    assert(is_rearrangement(through, n)) by {
        assert forall|j: usize| j < n implies through.contains(j) by {
            assert(p.contains(j));
            let k = choose|k: int| 0 <= k < p.len() && p[k] == j;
            assert(moved_order.contains(k as usize));
            let l = choose|l: int| 0 <= l < moved_order.len() && moved_order[l] == k as usize;
            assert(through[l] == j);
        }
        assert forall|k: int, l: int| 0 <= k < l < through.len() implies through[k]
            != through[l] by {
            assert(precedes(moved, moved_order[k] as int, moved_order[l] as int));
        }
    }
    lemma_rearranged_multiset(all, order);
    lemma_rearranged_multiset(all, through);
    let x = days_along(dates, order);
    let y = days_along(moved, moved_order);
    assert(x =~= order.map_values(|i: usize| all[i as int]));
    assert(y =~= through.map_values(|i: usize| all[i as int]));
    let leq = |a: int, b: int| a <= b;
    assert(vstd::relations::sorted_by(x, leq)) by {
        assert forall|k: int, l: int| 0 <= k < l < x.len() implies leq(x[k], x[l]) by {
            assert(precedes(dates, order[k] as int, order[l] as int));
        }
    }
    assert(vstd::relations::sorted_by(y, leq)) by {
        assert forall|k: int, l: int| 0 <= k < l < y.len() implies leq(y[k], y[l]) by {
            assert(precedes(moved, moved_order[k] as int, moved_order[l] as int));
        }
    }
    vstd::seq_lib::lemma_sorted_unique(x, y, leq);
}

/// Reading a sequence along a rearrangement of its positions keeps its
/// elements.
proof fn lemma_rearranged_multiset(s: Seq<int>, q: Seq<usize>)
    requires
        s.len() <= usize::MAX,
        is_rearrangement(q, s.len()),
    ensures
        q.map_values(|i: usize| s[i as int]).to_multiset() == s.to_multiset(),
    decreases s.len(),
{
    broadcast use vstd::seq_lib::group_to_multiset_ensures;

    if s.len() > 0 {
        let last = (s.len() - 1) as usize;
        assert(q.contains(last));
        let w = choose|w: int| 0 <= w < q.len() && q[w] == last;
        let rest = s.drop_last();
        let q2 = q.remove(w);
        assert(is_rearrangement(q2, rest.len())) by {
            assert forall|j: usize| j < rest.len() implies q2.contains(j) by {
                assert(q.contains(j));
                let k = choose|k: int| 0 <= k < q.len() && q[k] == j;
                assert(k != w);
                if k < w {
                    assert(q2[k] == j);
                } else {
                    assert(q2[k - 1] == j);
                }
            }
            assert forall|k: int| 0 <= k < q2.len() implies q2[k] < rest.len() by {
                if k < w {
                    assert(q[k] != q[w]);
                } else {
                    assert(q[k + 1] != q[w]);
                }
            }
        }
        lemma_rearranged_multiset(rest, q2);
        let read = q.map_values(|i: usize| s[i as int]);
        assert(read.remove(w) =~= q2.map_values(|i: usize| rest[i as int]));
        vstd::seq_lib::to_multiset_remove(read, w);
        assert(s =~= rest.push(s[last as int]));
        vstd::seq_lib::to_multiset_build(rest, s[last as int]);
        assert(read.to_multiset() =~= read.remove(w).to_multiset().insert(read[w]));
    }
}

} // verus!

verus! {

/// The items taken along `order`: the payments' amounts in date order.
pub fn along<A: Copy>(items: &Vec<A>, order: &Vec<usize>) -> (r: Vec<A>)
    requires
        forall|k: int| 0 <= k < order@.len() ==> order@[k] < items@.len(),
    ensures
        r@ == order@.map_values(|i: usize| items@[i as int]),
{
    let mut r: Vec<A> = Vec::new();
    let mut k: usize = 0;
    while k < order.len()
        invariant
            forall|m: int| 0 <= m < order@.len() ==> order@[m] < items@.len(),
            k <= order@.len(),
            r@ =~= order@.subrange(0, k as int).map_values(|i: usize| items@[i as int]),
        decreases order@.len() - k,
    {
        r.push(items[order[k]]);
        k = k + 1;
        assert(r@ =~= order@.subrange(0, k as int).map_values(|i: usize| items@[i as int]));
    }
    assert(order@.subrange(0, k as int) =~= order@);
    r
}

/// No two of `dates` fall on the same day.
pub open spec fn distinct_days<T: PaymentDate>(dates: Seq<T>) -> bool {
    forall|i: int, j: int|
        0 <= i < j < dates.len() ==> #[trigger] dates[i].day_number()
            != #[trigger] dates[j].day_number()
}

/// Permuting payments on distinct days does not change what the solver
/// sees: if `moved` and `moved_items` hold `dates[p[k]]` and `items[p[k]]`
/// at each position `k`, the items and the day numbers read along the date
/// order of either list are the same. (Payments that share a day stay in
/// input order, so a permutation among them reorders their items.)
pub proof fn lemma_payments_order_independent<T: PaymentDate, A>(
    dates: Seq<T>,
    items: Seq<A>,
    moved: Seq<T>,
    moved_items: Seq<A>,
    p: Seq<usize>,
    order: Seq<usize>,
    moved_order: Seq<usize>,
)
    requires
        dates.len() <= usize::MAX,
        items.len() == dates.len(),
        distinct_days(dates),
        is_rearrangement(p, dates.len()),
        moved.len() == dates.len(),
        moved_items.len() == dates.len(),
        forall|k: int| 0 <= k < moved.len() ==> moved[k] == dates[p[k] as int],
        forall|k: int| 0 <= k < moved.len() ==> moved_items[k] == items[p[k] as int],
        is_date_order(dates, order),
        is_date_order(moved, moved_order),
    ensures
        order.map_values(|i: usize| items[i as int]) == moved_order.map_values(
            |i: usize| moved_items[i as int],
        ),
        days_along(dates, order) == days_along(moved, moved_order),
{
    lemma_order_independent(dates, moved, p, order, moved_order);
    let n = dates.len();
    let through = moved_order.map_values(|k: usize| p[k as int]);
    assert(is_date_order(dates, through)) by {
        assert forall|j: usize| j < n implies through.contains(j) by {
            assert(p.contains(j));
            let k = choose|k: int| 0 <= k < p.len() && p[k] == j;
            assert(moved_order.contains(k as usize));
            let l = choose|l: int| 0 <= l < moved_order.len() && moved_order[l] == k as usize;
            assert(through[l] == j);
        }
        assert forall|k: int, l: int| 0 <= k < l < through.len() implies precedes(
            dates,
            through[k] as int,
            through[l] as int,
        ) by {
            assert(precedes(moved, moved_order[k] as int, moved_order[l] as int));
            assert(moved_order[k] != moved_order[l]);
            assert(through[k] != through[l]);
            if through[k] < through[l] {
                assert(dates[through[k] as int].day_number() != dates[through[l] as int].day_number());
            } else {
                assert(dates[through[l] as int].day_number() != dates[through[k] as int].day_number());
            }
        }
    }
    lemma_date_order_unique(dates, order, through);
    assert(order.map_values(|i: usize| items[i as int]) =~= moved_order.map_values(
        |i: usize| moved_items[i as int],
    ));
}

} // verus!
