//! Folding of items by second: the items of each second are summed into one
//! item, and the sums are ordered by second.

use vstd::prelude::*;

verus! {

/// An item of one second whose counters can be summed.
pub trait Summable: Sized {
    /// The names of the counters.
    type Counter;

    /// The second that the item belongs to.
    spec fn second(self) -> u64;

    /// The value of counter `c`.
    spec fn amount(self, c: Self::Counter) -> int;

    /// The highest value that counter `c` can hold.
    spec fn limit(c: Self::Counter) -> int;

    /// The item of the second of `self` whose counters are the sums of the
    /// counters of `self` and `other`.
    spec fn plus(self, other: Self) -> Self;

    /// The same counters, moved to second `t`.
    spec fn at(self, t: u64) -> Self;

    proof fn lemma_amount(self, c: Self::Counter)
        ensures
            0 <= self.amount(c),
    ;

    proof fn lemma_plus(self, other: Self, c: Self::Counter)
        requires
            self.amount(c) + other.amount(c) <= Self::limit(c),
        ensures
            self.plus(other).amount(c) == self.amount(c) + other.amount(c),
    ;

    proof fn lemma_plus_second(self, other: Self)
        ensures
            self.plus(other).second() == self.second(),
    ;

    proof fn lemma_at(self, t: u64, c: Self::Counter)
        ensures
            self.at(t).second() == t,
            self.at(t).amount(c) == self.amount(c),
    ;
}

/// Sum of counter `c` over the items of second `t`.
pub open spec fn second_total<T: Summable>(items: Seq<T>, t: u64, c: T::Counter) -> int
    decreases items.len(),
{
    if items.len() == 0 {
        0
    } else {
        second_total(items.drop_last(), t, c) + if items.last().second() == t {
            items.last().amount(c)
        } else {
            0
        }
    }
}

/// Sum of counter `c` over all items.
pub open spec fn grand_total<T: Summable>(items: Seq<T>, c: T::Counter) -> int
    decreases items.len(),
{
    if items.len() == 0 {
        0
    } else {
        grand_total(items.drop_last(), c) + items.last().amount(c)
    }
}

/// Every counter, summed over the items of any one second, fits the counter's
/// type.
pub open spec fn totals_fit<T: Summable>(items: Seq<T>) -> bool {
    forall|t: u64, c: T::Counter| #[trigger] second_total(items, t, c) <= T::limit(c)
}

/// The seconds of the items rise strictly.
pub open spec fn rising<T: Summable>(items: Seq<T>) -> bool {
    forall|p: int, q: int|
        0 <= p < q < items.len() ==> items[p].second() < items[q].second()
}

/// Some item belongs to second `t`.
pub open spec fn has_second<T: Summable>(items: Seq<T>, t: u64) -> bool {
    exists|p: int| 0 <= p < items.len() && #[trigger] items[p].second() == t
}

/// `acc` with `x` added to the item of its second, or put in as a new item
/// where `acc` has none for that second.
pub open spec fn merge_item<T: Summable>(acc: Seq<T>, x: T) -> Seq<
    T,
>
    decreases acc.len(),
{
    if acc.len() == 0 {
        seq![x]
    } else if acc.last().second() < x.second() {
        acc.push(x)
    } else if acc.last().second() == x.second() {
        acc.drop_last().push(acc.last().plus(x))
    } else {
        merge_item(acc.drop_last(), x).push(acc.last())
    }
}

/// One item per second of `items`, holding the sums of that second's
/// counters, ordered by second.
pub open spec fn fold_by_second<T: Summable>(items: Seq<T>) -> Seq<T>
    decreases items.len(),
{
    if items.len() == 0 {
        seq![]
    } else {
        merge_item(fold_by_second(items.drop_last()), items.last())
    }
}

/// The total of a second over the first items is not negative and no more
/// than the total over all.
pub proof fn lemma_second_total_bounds<T: Summable>(items: Seq<T>, t: u64, c: T::Counter, k: int)
    requires
        0 <= k <= items.len(),
    ensures
        0 <= second_total(items.take(k), t, c) <= second_total(items, t, c),
    decreases items.len() - k,
{
    lemma_second_total_nonneg(items.take(k), t, c);
    if k == items.len() {
        assert(items.take(k) == items);
    } else {
        assert(items.take(k + 1).drop_last() == items.take(k));
        items[k].lemma_amount(c);
        lemma_second_total_bounds(items, t, c, k + 1);
    }
}

/// The total of a second is not negative.
pub proof fn lemma_second_total_nonneg<T: Summable>(items: Seq<T>, t: u64, c: T::Counter)
    ensures
        0 <= second_total(items, t, c),
    decreases items.len(),
{
    if items.len() > 0 {
        lemma_second_total_nonneg(items.drop_last(), t, c);
        items.last().lemma_amount(c);
    }
}

/// The total of a second over two lists is the sum of its totals over each.
pub proof fn lemma_second_total_concat<T: Summable>(
    a: Seq<T>,
    b: Seq<T>,
    t: u64,
    c: T::Counter,
)
    ensures
        second_total(a + b, t, c) == second_total(a, t, c) + second_total(b, t, c),
    decreases b.len(),
{
    if b.len() == 0 {
        assert(a + b == a);
    } else {
        lemma_second_total_concat(a, b.drop_last(), t, c);
        assert((a + b).drop_last() == a + b.drop_last());
    }
}

/// The sum of a counter over two lists is the sum of its sums over each.
pub proof fn lemma_grand_total_concat<T: Summable>(
    a: Seq<T>,
    b: Seq<T>,
    c: T::Counter,
)
    ensures
        grand_total(a + b, c) == grand_total(a, c) + grand_total(b, c),
    decreases b.len(),
{
    if b.len() == 0 {
        assert(a + b == a);
    } else {
        lemma_grand_total_concat(a, b.drop_last(), c);
        assert((a + b).drop_last() == a + b.drop_last());
    }
}

/// An item's counter is no more than the total of its second.
pub proof fn lemma_item_within_total<T: Summable>(items: Seq<T>, p: int, c: T::Counter)
    requires
        0 <= p < items.len(),
    ensures
        items[p].amount(c) <= second_total(items, items[p].second(), c),
    decreases items.len(),
{
    lemma_second_total_nonneg(items.drop_last(), items[p].second(), c);
    items.last().lemma_amount(c);
    if p < items.len() - 1 {
        lemma_item_within_total(items.drop_last(), p, c);
    }
}

/// Where the seconds rise strictly, the total of a second is the counter of
/// that second's one item.
pub proof fn lemma_rising_total<T: Summable>(items: Seq<T>, p: int, c: T::Counter)
    requires
        rising(items),
        0 <= p < items.len(),
    ensures
        second_total(items, items[p].second(), c) == items[p].amount(c),
    decreases items.len(),
{
    let t = items[p].second();
    if p < items.len() - 1 {
        lemma_rising_total(items.drop_last(), p, c);
    } else {
        lemma_absent_total(items.drop_last(), t, c);
    }
}

/// A second that no item belongs to has the total zero.
pub proof fn lemma_absent_total<T: Summable>(items: Seq<T>, t: u64, c: T::Counter)
    requires
        forall|p: int| 0 <= p < items.len() ==> items[p].second() != t,
    ensures
        second_total(items, t, c) == 0,
    decreases items.len(),
{
    if items.len() > 0 {
        lemma_absent_total(items.drop_last(), t, c);
    }
}

/// What `merge_item` does, told by the position at which `x` comes to stand.
pub proof fn lemma_merge_at<T: Summable>(acc: Seq<T>, x: T, p: int)
    requires
        0 <= p <= acc.len(),
        forall|q: int| p <= q < acc.len() ==> acc[q].second() > x.second(),
        p > 0 ==> acc[p - 1].second() <= x.second(),
    ensures
        merge_item(acc, x) == if p > 0 && acc[p - 1].second() == x.second() {
            acc.update(p - 1, acc[p - 1].plus(x))
        } else {
            acc.insert(p, x)
        },
    decreases acc.len() - p,
{
    if p == acc.len() {
        if p > 0 && acc[p - 1].second() == x.second() {
            assert(acc.drop_last().push(acc.last().plus(x)) =~= acc.update(
                p - 1,
                acc[p - 1].plus(x),
            ));
        } else {
            assert(acc.push(x) =~= acc.insert(p, x));
        }
    } else {
        let front = acc.drop_last();
        lemma_merge_at(front, x, p);
        if p > 0 && acc[p - 1].second() == x.second() {
            assert(front.update(p - 1, front[p - 1].plus(x)).push(acc.last()) =~= acc.update(
                p - 1,
                acc[p - 1].plus(x),
            ));
        } else {
            assert(front.insert(p, x).push(acc.last()) =~= acc.insert(p, x));
        }
    }
}

/// The position at which `merge_item` puts `x`: behind the last item whose
/// second is not later than that of `x`.
pub open spec fn merge_pos<T: Summable>(acc: Seq<T>, x: T) -> int
    decreases acc.len(),
{
    if acc.len() == 0 {
        0
    } else if acc.last().second() <= x.second() {
        acc.len() as int
    } else {
        merge_pos(acc.drop_last(), x)
    }
}

/// The items from the merge position on are of later seconds, and the one
/// before it is not.
pub proof fn lemma_merge_pos<T: Summable>(acc: Seq<T>, x: T)
    ensures
        0 <= merge_pos(acc, x) <= acc.len(),
        forall|q: int| merge_pos(acc, x) <= q < acc.len() ==> acc[q].second() > x.second(),
        merge_pos(acc, x) > 0 ==> acc[merge_pos(acc, x) - 1].second() <= x.second(),
    decreases acc.len(),
{
    if acc.len() > 0 && acc.last().second() > x.second() {
        let front = acc.drop_last();
        lemma_merge_pos(front, x);
        assert forall|q: int| merge_pos(acc, x) <= q < acc.len() implies acc[q].second()
            > x.second() by {
            if q < front.len() {
                assert(front[q].second() > x.second());
            }
        }
    }
}

/// Merging an item adds its counter to the total of its second and leaves
/// the totals of the other seconds as they were.
pub proof fn lemma_merge_total<T: Summable>(
    acc: Seq<T>,
    x: T,
    t: u64,
    c: T::Counter,
)
    requires
        second_total(acc, x.second(), c) + x.amount(c) <= T::limit(c),
    ensures
        second_total(merge_item(acc, x), t, c) == second_total(acc, t, c) + if t
            == x.second() {
            x.amount(c)
        } else {
            0
        },
    decreases acc.len(),
{
    let m = merge_item(acc, x);
    if acc.len() == 0 {
        assert(m.drop_last() =~= acc);
    } else if acc.last().second() < x.second() {
        assert(m.drop_last() =~= acc);
    } else if acc.last().second() == x.second() {
        assert(m.drop_last() =~= acc.drop_last());
        lemma_item_within_total(acc, acc.len() - 1, c);
        acc.last().lemma_plus(x, c);
        acc.last().lemma_plus_second(x);
    } else {
        lemma_merge_total(acc.drop_last(), x, t, c);
        assert(m.drop_last() =~= merge_item(acc.drop_last(), x));
    }
}

/// Merging an item keeps the seconds rising and adds the item's second to
/// those that are present.
pub proof fn lemma_merge_rising<T: Summable>(acc: Seq<T>, x: T)
    requires
        rising(acc),
    ensures
        rising(merge_item(acc, x)),
        has_second(merge_item(acc, x), x.second()),
        forall|t: u64| has_second(acc, t) ==> has_second(merge_item(acc, x), t),
        forall|t: u64|
            has_second(merge_item(acc, x), t) ==> has_second(acc, t) || t == x.second(),
{
    let m = merge_item(acc, x);
    let p = merge_pos(acc, x);
    lemma_merge_pos(acc, x);
    lemma_merge_at(acc, x, p);
    if p > 0 && acc[p - 1].second() == x.second() {
        acc[p - 1].lemma_plus_second(x);
        assert(m[p - 1].second() == x.second());
        assert forall|t: u64| has_second(acc, t) implies has_second(m, t) by {
            let r = choose|r: int| 0 <= r < acc.len() && #[trigger] acc[r].second() == t;
            assert(m[r].second() == t);
        }
        assert forall|t: u64| has_second(m, t) implies has_second(acc, t) || t
            == x.second() by {
            let r = choose|r: int| 0 <= r < m.len() && #[trigger] m[r].second() == t;
            assert(acc[r].second() == t);
        }
    } else {
        assert(m[p].second() == x.second());
        assert forall|a: int, b: int| 0 <= a < b < m.len() implies m[a].second()
            < m[b].second() by {
            let a0 = if a < p { a } else { a - 1 };
            let b0 = if b < p { b } else { b - 1 };
            if a != p && b != p {
                assert(acc[a0].second() < acc[b0].second());
            } else if a == p {
                assert(acc[b0].second() > x.second());
            } else {
                assert(p > 0);
                if a0 < p - 1 {
                    assert(acc[a0].second() < acc[p - 1].second());
                }
            }
        }
        assert forall|t: u64| has_second(acc, t) implies has_second(m, t) by {
            let r = choose|r: int| 0 <= r < acc.len() && #[trigger] acc[r].second() == t;
            if r < p {
                assert(m[r].second() == t);
            } else {
                assert(m[r + 1].second() == t);
            }
        }
        assert forall|t: u64| has_second(m, t) implies has_second(acc, t) || t
            == x.second() by {
            let r = choose|r: int| 0 <= r < m.len() && #[trigger] m[r].second() == t;
            if r < p {
                assert(acc[r].second() == t);
            } else if r > p {
                assert(acc[r - 1].second() == t);
            }
        }
    }
}

/// Merging an item adds its counter to the sum over all items.
pub proof fn lemma_merge_grand_total<T: Summable>(acc: Seq<T>, x: T, c: T::Counter)
    requires
        second_total(acc, x.second(), c) + x.amount(c) <= T::limit(c),
    ensures
        grand_total(merge_item(acc, x), c) == grand_total(acc, c) + x.amount(c),
    decreases acc.len(),
{
    let m = merge_item(acc, x);
    if acc.len() == 0 {
        assert(m.drop_last() =~= acc);
    } else if acc.last().second() < x.second() {
        assert(m.drop_last() =~= acc);
    } else if acc.last().second() == x.second() {
        assert(m.drop_last() =~= acc.drop_last());
        lemma_item_within_total(acc, acc.len() - 1, c);
        acc.last().lemma_plus(x, c);
    } else {
        lemma_merge_grand_total(acc.drop_last(), x, c);
        assert(m.drop_last() =~= merge_item(acc.drop_last(), x));
    }
}

/// The totals of a prefix fit where those of the whole do.
pub proof fn lemma_prefix_fits<T: Summable>(items: Seq<T>, k: int)
    requires
        totals_fit(items),
        0 <= k <= items.len(),
    ensures
        totals_fit(items.take(k)),
{
    assert forall|t: u64, c: T::Counter| #[trigger]
        second_total(items.take(k), t, c) <= T::limit(c) by {
        lemma_second_total_bounds(items, t, c, k);
        assert(second_total(items, t, c) <= T::limit(c));
    }
}

/// Folding conserves every counter of every second: the folded items rise
/// strictly by second, there is one for each second that `items` has, and
/// it holds the totals of that second.
pub proof fn lemma_fold_by_second<T: Summable>(items: Seq<T>)
    requires
        totals_fit(items),
    ensures
        rising(fold_by_second(items)),
        forall|t: u64| has_second(fold_by_second(items), t) <==> has_second(items, t),
        forall|t: u64, c: T::Counter| #[trigger]
            second_total(fold_by_second(items), t, c) == second_total(items, t, c),
        forall|c: T::Counter| #[trigger]
            grand_total(fold_by_second(items), c) == grand_total(items, c),
    decreases items.len(),
{
    if items.len() > 0 {
        let front = items.drop_last();
        let x = items.last();
        assert(front == items.take(items.len() - 1));
        lemma_prefix_fits(items, items.len() - 1);
        lemma_fold_by_second(front);
        let acc = fold_by_second(front);
        lemma_merge_rising(acc, x);
        assert forall|t: u64| has_second(fold_by_second(items), t) <==> has_second(
            items,
            t,
        ) by {
            if has_second(items, t) {
                let p = choose|p: int| 0 <= p < items.len() && #[trigger] items[p].second() == t;
                if p < front.len() {
                    assert(front[p].second() == t);
                }
            }
            if has_second(front, t) {
                let p = choose|p: int| 0 <= p < front.len() && #[trigger] front[p].second() == t;
                assert(items[p].second() == t);
            }
            if t == x.second() {
                assert(items[items.len() - 1].second() == t);
            }
        }
        assert forall|t: u64, c: T::Counter| #[trigger]
            second_total(fold_by_second(items), t, c) == second_total(items, t, c) by {
            assert(second_total(acc, x.second(), c) == second_total(front, x.second(), c));
            assert(second_total(items, x.second(), c) <= T::limit(c));
            lemma_merge_total(acc, x, t, c);
            assert(second_total(acc, t, c) == second_total(front, t, c));
        }
        assert forall|c: T::Counter| #[trigger]
            grand_total(fold_by_second(items), c) == grand_total(items, c) by {
            assert(second_total(acc, x.second(), c) == second_total(front, x.second(), c));
            assert(second_total(items, x.second(), c) <= T::limit(c));
            lemma_merge_grand_total(acc, x, c);
            assert(grand_total(acc, c) == grand_total(front, c));
        }
    } else {
        assert forall|t: u64| !has_second(items, t) by {}
    }
}

/// One more item fits where its counters fit on top of the totals of its
/// second.
pub proof fn lemma_push_fits<T: Summable>(items: Seq<T>, x: T)
    requires
        totals_fit(items),
        forall|c: T::Counter| #[trigger] second_total(items, x.second(), c) + x.amount(c) <= T::limit(c),
    ensures
        totals_fit(items.push(x)),
{
    assert forall|t: u64, c: T::Counter| #[trigger]
        second_total(items.push(x), t, c) <= T::limit(c) by {
        assert(items.push(x).drop_last() == items);
        assert(second_total(items, t, c) <= T::limit(c));
        assert(second_total(items, x.second(), c) + x.amount(c) <= T::limit(c));
    }
}

/// Where the totals of some items do not fit, those of more items do not
/// fit either.
pub proof fn lemma_prefix_overflows<T: Summable>(items: Seq<T>, k: int, t: u64, c: T::Counter)
    requires
        0 <= k <= items.len(),
        second_total(items.take(k), t, c) > T::limit(c),
    ensures
        !totals_fit(items),
{
    lemma_second_total_bounds(items, t, c, k);
    assert(second_total(items, t, c) > T::limit(c));
}

/// Where the seconds rise strictly and `p` is where second `t` would stand,
/// the total of `t` is the counter of the item before `p` where that has
/// second `t`, and zero otherwise.
pub proof fn lemma_total_at<T: Summable>(items: Seq<T>, t: u64, p: int, c: T::Counter)
    requires
        rising(items),
        0 <= p <= items.len(),
        forall|q: int| p <= q < items.len() ==> items[q].second() > t,
        p > 0 ==> items[p - 1].second() <= t,
    ensures
        second_total(items, t, c) == if p > 0 && items[p - 1].second() == t {
            items[p - 1].amount(c)
        } else {
            0
        },
{
    if p > 0 && items[p - 1].second() == t {
        lemma_rising_total(items, p - 1, c);
    } else {
        assert forall|q: int| 0 <= q < items.len() implies items[q].second() != t by {
            if q < p - 1 {
                assert(items[q].second() < items[p - 1].second());
            }
        }
        lemma_absent_total(items, t, c);
    }
}

/// Every item has the property `p`.
pub open spec fn all_hold<T>(items: Seq<T>, p: spec_fn(T) -> bool) -> bool {
    forall|i: int| 0 <= i < items.len() ==> p(#[trigger] items[i])
}

/// A property that every item has, and that sums keep, is one that every
/// folded item has.
pub proof fn lemma_fold_holds<T: Summable>(items: Seq<T>, p: spec_fn(T) -> bool)
    requires
        all_hold(items, p),
        forall|a: T, b: T| p(a) ==> p(#[trigger] a.plus(b)),
    ensures
        all_hold(fold_by_second(items), p),
    decreases items.len(),
{
    if items.len() > 0 {
        let front = items.drop_last();
        let x = items.last();
        assert(all_hold(front, p)) by {
            assert forall|i: int| 0 <= i < front.len() implies p(#[trigger] front[i]) by {
                assert(front[i] == items[i]);
            }
        }
        lemma_fold_holds(front, p);
        let acc = fold_by_second(front);
        let m = merge_item(acc, x);
        let pos = merge_pos(acc, x);
        lemma_merge_pos(acc, x);
        lemma_merge_at(acc, x, pos);
        assert(p(x)) by {
            assert(items[items.len() - 1] == x);
        }
        assert forall|i: int| 0 <= i < m.len() implies p(#[trigger] m[i]) by {
            if pos > 0 && acc[pos - 1].second() == x.second() {
                if i == pos - 1 {
                    assert(p(acc[pos - 1]));
                    assert(p(acc[pos - 1].plus(x)));
                } else {
                    assert(m[i] == acc[i]);
                }
            } else {
                if i < pos {
                    assert(m[i] == acc[i]);
                } else if i > pos {
                    assert(m[i] == acc[i - 1]);
                }
            }
        }
    }
}

/// A property that every item has, and that moving to another second keeps,
/// is one that every moved item has.
pub proof fn lemma_rebucketed_holds<T: Summable>(items: Seq<T>, interval: u64, p: spec_fn(T) -> bool)
    requires
        all_hold(items, p),
        forall|a: T, t: u64| p(a) ==> p(#[trigger] a.at(t)),
    ensures
        all_hold(rebucketed(items, interval), p),
{
    assert forall|i: int| 0 <= i < rebucketed(items, interval).len() implies p(
        #[trigger] rebucketed(items, interval)[i],
    ) by {
        assert(p(items[i]));
    }
}

/// The second that stands for `t` after downsampling: the next multiple of
/// `interval` behind `t`.
pub open spec fn bucket_second(t: u64, interval: u64) -> int {
    t + (interval - t % interval)
}

/// `items`, each moved to the second that stands for its own.
pub open spec fn rebucketed<T: Summable>(items: Seq<T>, interval: u64) -> Seq<T> {
    items.map_values(|x: T| x.at(bucket_second(x.second(), interval) as u64))
}

/// The seconds that stand for those of `items` fit `u64`, and so do the sums
/// of the counters that meet in one of them.
pub open spec fn can_downsample<T: Summable>(items: Seq<T>, interval: u64) -> bool {
    &&& forall|i: int| 0 <= i < items.len() ==> #[trigger] items[i].second() + interval <= u64::MAX
    &&& totals_fit(rebucketed(items, interval))
}

/// What downsampling makes of the items of one record: one item per
/// interval, holding the sums of the items that lie in it, ordered by second.
pub open spec fn downsampled_items<T: Summable>(items: Seq<T>, interval: u64) -> Seq<T> {
    fold_by_second(rebucketed(items, interval))
}

/// The second that stands for `t` lies behind `t`, at most `interval` away,
/// and is a multiple of `interval`.
pub proof fn lemma_bucket_second(t: u64, interval: u64)
    requires
        interval >= 1,
    ensures
        t < bucket_second(t, interval) <= t + interval,
        bucket_second(t, interval) % (interval as int) == 0,
{
    let i = interval as int;
    let q = (t as int) / i;
    let r = (t as int) % i;
    assert(t as int == i * q + r && 0 <= r < i) by (nonlinear_arith)
        requires
            q == (t as int) / i,
            r == (t as int) % i,
            i >= 1,
    ;
    assert((i * q + i) % i == 0) by (nonlinear_arith)
        requires
            i >= 1,
    ;
}

/// Moving items to other seconds leaves the sum of each counter as it was.
pub proof fn lemma_rebucketed_total<T: Summable>(items: Seq<T>, interval: u64, c: T::Counter)
    ensures
        grand_total(rebucketed(items, interval), c) == grand_total(items, c),
    decreases items.len(),
{
    if items.len() > 0 {
        lemma_rebucketed_total(items.drop_last(), interval, c);
        assert(rebucketed(items, interval).drop_last() =~= rebucketed(
            items.drop_last(),
            interval,
        ));
        items.last().lemma_at(bucket_second(items.last().second(), interval) as u64, c);
    }
}

/// Downsampling conserves the sum of every counter over the items of a
/// record.
pub proof fn lemma_downsampling_conserves<T: Summable>(items: Seq<T>, interval: u64, c: T::Counter)
    requires
        can_downsample(items, interval),
    ensures
        grand_total(downsampled_items(items, interval), c) == grand_total(items, c),
{
    lemma_fold_by_second(rebucketed(items, interval));
    lemma_rebucketed_total(items, interval, c);
}

/// Every downsampled item stands at the end of the interval of some item of
/// the input, and every item of the input has a downsampled item there.
pub proof fn lemma_downsampled_seconds<T: Summable>(items: Seq<T>, interval: u64, t: u64)
    requires
        interval >= 1,
        can_downsample(items, interval),
    ensures
        has_second(downsampled_items(items, interval), t) <==> exists|i: int|
            0 <= i < items.len() && #[trigger] bucket_second(items[i].second(), interval) == t,
        rising(downsampled_items(items, interval)),
{
    let moved = rebucketed(items, interval);
    lemma_fold_by_second(moved);
    if has_second(moved, t) {
        let p = choose|p: int| 0 <= p < moved.len() && #[trigger] moved[p].second() == t;
        assert(items[p].second() + interval <= u64::MAX);
        lemma_bucket_second(items[p].second(), interval);
        items[p].lemma_at(bucket_second(items[p].second(), interval) as u64, arbitrary());
        assert(bucket_second(items[p].second(), interval) == t);
    }
    if exists|i: int|
        0 <= i < items.len() && #[trigger] bucket_second(items[i].second(), interval) == t {
        let i = choose|i: int|
            0 <= i < items.len() && #[trigger] bucket_second(items[i].second(), interval) == t;
        items[i].lemma_at(t, arbitrary());
        assert(moved[i] == items[i].at(t));
        assert(moved[i].second() == t);
    }
}

} // verus!
