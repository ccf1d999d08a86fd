//! Putting records in order.

use vstd::prelude::*;

verus! {

/// What has a rank by which it is put in order. Values of one rank may differ otherwise.
pub trait Ranked: Sized {
    /// Whether this value stands before another.
    spec fn before(self, other: Self) -> bool;

    /// Of two values at most one stands before the other.
    proof fn lemma_asymmetric(one: Self, other: Self)
        requires
            one.before(other),
        ensures
            !other.before(one),
    ;

    /// What stands before a value stands before everything that does not stand before that value.
    proof fn lemma_after(one: Self, early: Self, late: Self)
        requires
            one.before(early),
            !late.before(early),
        ensures
            one.before(late),
    ;

    /// Whether this value stands before another.
    fn precedes(&self, other: &Self) -> (answer: bool)
        ensures
            answer == self.before(*other),
    ;
}

/// Whether neither of two values stands before the other.
pub open spec fn same_rank<T: Ranked>(one: T, other: T) -> bool {
    !one.before(other) && !other.before(one)
}

/// Which values have the rank of one.
pub open spec fn ranked_as<T: Ranked>(one: T) -> spec_fn(T) -> bool {
    |other: T| same_rank(other, one)
}

/// Whether values are the same ones in order, those of one rank as they stood.
pub open spec fn sorted_from<T: Ranked>(sorted: Seq<T>, values: Seq<T>) -> bool {
    &&& forall|i: int, j: int|
        0 <= i < j < sorted.len() ==> !(#[trigger] sorted[j]).before(#[trigger] sorted[i])
    &&& forall|one: T| #[trigger] sorted.filter(ranked_as(one)) == values.filter(ranked_as(one))
}

pub(crate) proof fn lemma_filter_none<T>(values: Seq<T>, keep: spec_fn(T) -> bool)
    requires
        forall|i: int| 0 <= i < values.len() ==> !keep(#[trigger] values[i]),
    ensures
        values.filter(keep) == Seq::<T>::empty(),
    decreases values.len(),
{
    reveal(Seq::filter);
    if values.len() > 0 {
        lemma_filter_none(values.drop_last(), keep);
    }
}

proof fn lemma_filter_insert<T>(values: Seq<T>, at: int, value: T, keep: spec_fn(T) -> bool)
    requires
        0 <= at <= values.len(),
        keep(value) ==> forall|i: int| at <= i < values.len() ==> !keep(#[trigger] values[i]),
    ensures
        values.insert(at, value).filter(keep) == if keep(value) {
            values.filter(keep).push(value)
        } else {
            values.filter(keep)
        },
{
    let front = values.take(at);
    let back = values.skip(at);
    let one = seq![value];
    assert(values =~= front + back);
    assert(values.insert(at, value) =~= front + one + back);
    Seq::filter_distributes_over_add(front, back, keep);
    Seq::filter_distributes_over_add(front + one, back, keep);
    Seq::filter_distributes_over_add(front, one, keep);
    reveal_with_fuel(Seq::filter, 2);
    assert(one.drop_last() =~= Seq::empty());
    assert(one.filter(keep) =~= if keep(value) {
        one
    } else {
        Seq::empty()
    });
    if keep(value) {
        lemma_filter_none(back, keep);
        assert(values.insert(at, value).filter(keep) =~= values.filter(keep).push(value));
    } else {
        assert(values.insert(at, value).filter(keep) =~= values.filter(keep));
    }
}

pub(crate) proof fn lemma_filter_push<T>(values: Seq<T>, value: T, keep: spec_fn(T) -> bool)
    ensures
        values.push(value).filter(keep) == if keep(value) {
            values.filter(keep).push(value)
        } else {
            values.filter(keep)
        },
{
    lemma_filter_insert(values, values.len() as int, value, keep);
    assert(values.insert(values.len() as int, value) =~= values.push(value));
}

pub(crate) proof fn lemma_filter_keeps<T>(values: Seq<T>, keep: spec_fn(T) -> bool, value: T)
    ensures
        values.filter(keep).contains(value) <==> values.contains(value) && keep(value),
    decreases values.len(),
{
    if values.len() == 0 {
        reveal(Seq::filter);
    } else {
        let front = values.drop_last();
        let last = values.last();
        assert(values =~= front.push(last));
        lemma_filter_keeps(front, keep, value);
        lemma_filter_push(front, last, keep);
        let kept = front.filter(keep);
        if front.contains(value) {
            let i = front.index_of(value);
            assert(values[i] == value);
        }
        if values.contains(value) && value != last {
            let i = values.index_of(value);
            assert(front[i] == value);
        }
        if value == last {
            assert(values[values.len() - 1] == value);
            if keep(last) {
                assert(kept.push(last)[kept.len() as int] == value);
            }
        }
        if keep(last) {
            if kept.contains(value) {
                let i = kept.index_of(value);
                assert(kept.push(last)[i] == value);
            }
            if kept.push(last).contains(value) && value != last {
                let i = kept.push(last).index_of(value);
                assert(kept[i] == value);
            }
        }
    }
}

/// Values that were put in order are the same values.
pub proof fn sorting_keeps_every_value<T: Ranked>(sorted: Seq<T>, values: Seq<T>, value: T)
    requires
        sorted_from(sorted, values),
    ensures
        sorted.contains(value) <==> values.contains(value),
{
    let keep = ranked_as(value);
    if value.before(value) {
        T::lemma_asymmetric(value, value);
    }
    lemma_filter_keeps(sorted, keep, value);
    lemma_filter_keeps(values, keep, value);
    assert(sorted.filter(keep) == values.filter(keep));
}

pub(crate) proof fn lemma_filters_commute<T>(
    values: Seq<T>,
    one: spec_fn(T) -> bool,
    other: spec_fn(T) -> bool,
)
    ensures
        values.filter(one).filter(other) == values.filter(other).filter(one),
    decreases values.len(),
{
    if values.len() == 0 {
        reveal(Seq::filter);
    } else {
        let front = values.drop_last();
        assert(values =~= front.push(values.last()));
        lemma_filters_commute(front, one, other);
        lemma_filter_push(front, values.last(), one);
        lemma_filter_push(front, values.last(), other);
        lemma_filter_push(front.filter(one), values.last(), other);
        lemma_filter_push(front.filter(other), values.last(), one);
    }
}

pub(crate) proof fn lemma_filter_all<T>(values: Seq<T>, keep: spec_fn(T) -> bool)
    requires
        forall|i: int| 0 <= i < values.len() ==> keep(#[trigger] values[i]),
    ensures
        values.filter(keep) == values,
    decreases values.len(),
{
    reveal(Seq::filter);
    if values.len() > 0 {
        lemma_filter_all(values.drop_last(), keep);
        assert(values =~= values.drop_last().push(values.last()));
    }
}

/// There is one way only to put values in order: those of one rank stand as they stood.
pub proof fn sorting_has_one_result<T: Ranked>(one: Seq<T>, other: Seq<T>, values: Seq<T>)
    requires
        sorted_from(one, values),
        sorted_from(other, values),
    ensures
        one == other,
{
    assert forall|of: T| #[trigger] one.filter(ranked_as(of)) == other.filter(ranked_as(of)) by {
        assert(one.filter(ranked_as(of)) == values.filter(ranked_as(of)));
        assert(other.filter(ranked_as(of)) == values.filter(ranked_as(of)));
    }
    lemma_same_order(one, other);
}

proof fn lemma_same_order<T: Ranked>(one: Seq<T>, other: Seq<T>)
    requires
        sorted_from(one, other),
        sorted_from(other, one),
    ensures
        one == other,
    decreases one.len(),
{
    if one.len() == 0 {
        if other.len() > 0 {
            sorting_keeps_every_value(one, other, other[0]);
            assert(other.contains(other[0]));
        }
        assert(one =~= other);
    } else {
        let last = one.last();
        assert(one.contains(one[one.len() - 1]));
        sorting_keeps_every_value(one, other, last);
        let end = other.last();
        assert(other.contains(other[other.len() - 1]));
        sorting_keeps_every_value(one, other, end);
        let i = other.index_of(last);
        let j = one.index_of(end);
        assert(!end.before(last)) by {
            if i < other.len() - 1 {
                assert(!other[other.len() - 1].before(other[i]));
            } else if end.before(end) {
                T::lemma_asymmetric(end, end);
            }
        }
        assert(!last.before(end)) by {
            if j < one.len() - 1 {
                assert(!one[one.len() - 1].before(one[j]));
            } else if last.before(last) {
                T::lemma_asymmetric(last, last);
            }
        }
        let front = one.drop_last();
        let others = other.drop_last();
        assert(one =~= front.push(last));
        assert(other =~= others.push(end));
        let keep = ranked_as(last);
        if last.before(last) {
            T::lemma_asymmetric(last, last);
        }
        lemma_filter_push(front, last, keep);
        lemma_filter_push(others, end, keep);
        assert(one.filter(keep) == other.filter(keep));
        assert(front.filter(keep).push(last).last() == last);
        assert(others.filter(keep).push(end).last() == end);
        assert forall|of: T| #[trigger] front.filter(ranked_as(of)) == others.filter(
            ranked_as(of),
        ) by {
            lemma_filter_push(front, last, ranked_as(of));
            lemma_filter_push(others, last, ranked_as(of));
            assert(one.filter(ranked_as(of)) == other.filter(ranked_as(of)));
            let kept = front.filter(ranked_as(of));
            let remain = others.filter(ranked_as(of));
            assert(kept.push(last).drop_last() =~= kept);
            assert(remain.push(last).drop_last() =~= remain);
        }
        lemma_same_order(front, others);
    }
}

/// Puts a value into its place, behind those of its rank.
fn insert_sorted<T: Ranked>(sorted: &mut Vec<T>, value: T, Ghost(values): Ghost<Seq<T>>)
    requires
        sorted_from(old(sorted)@, values),
    ensures
        sorted_from(final(sorted)@, values.push(value)),
{
    let mut at: usize = sorted.len();
    let ghost start = sorted@;
    while at > 0 && value.precedes(&sorted[at - 1])
        invariant
            at <= sorted@.len(),
            sorted@ == start,
            forall|i: int| at <= i < sorted@.len() ==> value.before(#[trigger] sorted@[i]),
        decreases at,
    {
        at = at - 1;
    }
    sorted.insert(at, value);
    proof {
        let now = start.insert(at as int, value);
        assert(sorted@ =~= now);
        assert forall|i: int| 0 <= i < at implies !value.before(#[trigger] start[i]) by {
            if value.before(start[i]) && i < at - 1 {
                assert(!start[at - 1].before(start[i]));
                T::lemma_after(value, start[i], start[at - 1]);
            }
        }
        assert forall|i: int, j: int| 0 <= i < j < now.len() implies !(#[trigger] now[j]).before(
            #[trigger] now[i],
        ) by {
            if j < at {
                assert(!start[j].before(start[i]));
            } else if i > at {
                assert(!start[j - 1].before(start[i - 1]));
            } else if i < at && j > at {
                assert(!start[j - 1].before(start[i]));
            } else if j == at {
                assert(!value.before(start[i]));
            } else {
                assert(value.before(start[j - 1]));
                T::lemma_asymmetric(value, start[j - 1]);
            }
        }
        assert forall|one: T| #[trigger] now.filter(ranked_as(one)) == values.push(value).filter(
            ranked_as(one),
        ) by {
            let keep = ranked_as(one);
            if keep(value) {
                assert forall|i: int| at <= i < start.len() implies !keep(#[trigger] start[i]) by {
                    if same_rank(start[i], one) {
                        T::lemma_after(value, start[i], one);
                    }
                }
            }
            lemma_filter_insert(start, at as int, value, keep);
            lemma_filter_push(values, value, keep);
            assert(start.filter(keep) == values.filter(keep));
        }
    }
}

/// The values in order, those of one rank as they stood.
pub fn sort<T: Ranked>(values: Vec<T>) -> (sorted: Vec<T>)
    ensures
        sorted_from(sorted@, values@),
{
    let mut values = values;
    let mut sorted: Vec<T> = Vec::new();
    let ghost all = values@;
    let total = values.len();
    proof {
        assert(all.take(0) =~= sorted@);
        assert(all.skip(0) =~= all);
    }
    for i in 0..total
        invariant
            total == all.len(),
            values@ == all.skip(i as int),
            sorted_from(sorted@, all.take(i as int)),
    {
        let value = values.remove(0);
        proof {
            assert(value == all[i as int]);
            assert(values@ =~= all.skip(i + 1));
            assert(all.take(i + 1) =~= all.take(i as int).push(value));
        }
        insert_sorted(&mut sorted, value, Ghost(all.take(i as int)));
    }
    assert(all.take(total as int) =~= all);
    sorted
}

/// Of values that were put in order none stands before an earlier one, and those of one rank stand
/// as they stood.
pub proof fn sorted_values_are_in_order<T: Ranked>(
    sorted: Seq<T>,
    values: Seq<T>,
    i: int,
    j: int,
    one: T,
)
    requires
        sorted_from(sorted, values),
        0 <= i < j < sorted.len(),
    ensures
        !sorted[j].before(sorted[i]),
        sorted.filter(ranked_as(one)) == values.filter(ranked_as(one)),
{
}

} // verus!
