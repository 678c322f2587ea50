//! Quartile, median, outlier and average statistics over slices of
//! non-negative integers.
//!
//! Medians of integer data are either integers or end in one half, and the
//! Tukey fences `Q1 - 1.5*IQR` / `Q3 + 1.5*IQR` are quarter-integers, so every
//! quantity here is computed exactly: medians and quartiles are returned
//! *doubled* and the fences are kept *quadrupled*, which keeps the whole
//! computation in integer arithmetic with no rounding at all.

use vstd::prelude::*;

verus! {

/// Twice the median of a non-empty sequence: the sum of the two central
/// values for an even length, twice the single central value for an odd one.
pub open spec fn doubled_median(s: Seq<usize>) -> int
    recommends
        s.len() > 0,
{
    if s.len() % 2 == 0 {
        s[s.len() as int / 2 - 1] + s[s.len() as int / 2]
    } else {
        2 * s[s.len() as int / 2]
    }
}

/// The lower half of a sequence: everything strictly before the middle.
pub open spec fn lower_half(s: Seq<usize>) -> Seq<usize> {
    s.take(s.len() as int / 2)
}

/// The upper half of a sequence: for an even length the second half, for an
/// odd length everything after the (excluded) middle element.
pub open spec fn upper_half(s: Seq<usize>) -> Seq<usize> {
    if s.len() % 2 == 0 {
        s.skip(s.len() as int / 2)
    } else {
        s.skip(s.len() as int / 2 + 1)
    }
}

/// Median of a slice, doubled so that it stays exact in integers:
/// `Some(2 * median)` unless the slice is empty.
pub fn get_median(data_vec: &[usize]) -> (result: Option<u128>)
    ensures
        match result {
            Some(m) => data_vec@.len() > 0 && m == doubled_median(data_vec@),
            None => data_vec@.len() == 0,
        },
{
    let data_vec_length: usize = data_vec.len();
    if data_vec_length == 0 {
        return None;
    }
    let half_way: usize = data_vec_length / 2;
    if data_vec_length % 2 == 0 {
        Some(data_vec[half_way - 1] as u128 + data_vec[half_way] as u128)
    } else {
        Some(2 * (data_vec[half_way] as u128))
    }
}

/// First, second and third quartile of a slice, each doubled so that it stays
/// exact in integers: `Some((2*Q1, 2*Q2, 2*Q3))` unless the slice holds fewer
/// than two values.  `Q2` is the median of the whole slice, `Q1` and `Q3` the
/// medians of its lower and upper halves.
pub fn get_quartile_values(data_vec: &[usize]) -> (result: Option<(u128, u128, u128)>)
    ensures
        match result {
            Some(q) => data_vec@.len() >= 2 && q.0 == doubled_median(lower_half(data_vec@))
                && q.1 == doubled_median(data_vec@) && q.2 == doubled_median(
                upper_half(data_vec@),
            ),
            None => data_vec@.len() < 2,
        },
{
    let data_vec_length: usize = data_vec.len();

    if data_vec_length < 2 {
        return None;
    }

    let mut halfway: usize = data_vec_length / 2;

    let q1_value = get_median(&data_vec[0..halfway]);
    let q2_value = get_median(data_vec);

    if data_vec_length % 2 != 0 {
        halfway += 1;
    }

    let q3_value = get_median(&data_vec[halfway..data_vec_length]);

    proof {
        assert(data_vec@.subrange(0, data_vec@.len() as int / 2) =~= lower_half(data_vec@));
        assert(data_vec@.subrange(halfway as int, data_vec@.len() as int) =~= upper_half(
            data_vec@,
        ));
    }

    match (q1_value, q2_value, q3_value) {
        (Some(q1), Some(q2), Some(q3)) => Some((q1, q2, q3)),
        _ => None,
    }
}

/// The ascending order on values that the statistics sort by.
pub open spec fn value_order() -> spec_fn(usize, usize) -> bool {
    |x: usize, y: usize| x <= y
}

/// The ascending sorted permutation of a sequence.
pub open spec fn sorted_ascending(s: Seq<usize>) -> Seq<usize> {
    s.sort_by(value_order())
}

proof fn lemma_value_order_is_total()
    ensures
        vstd::relations::total_ordering(value_order()),
{
}

/// Sorts a vector of values ascending, in place.
pub(crate) fn sort_values(data_vec: &mut Vec<usize>)
    ensures
        final(data_vec)@ == sorted_ascending(old(data_vec)@),
{
    let ghost original = data_vec@;
    let mut i: usize = 1;
    while i < data_vec.len()
        invariant
            1 <= i,
            data_vec@.len() == original.len(),
            data_vec@.to_multiset() == original.to_multiset(),
            forall|a: int, b: int| 0 <= a < b < i && b < data_vec@.len()
                ==> data_vec@[a] <= data_vec@[b],
        decreases data_vec@.len() - i,
    {
        let mut j: usize = i;
        while j > 0 && data_vec[j - 1] > data_vec[j]
            invariant
                0 <= j <= i < data_vec@.len(),
                data_vec@.len() == original.len(),
                data_vec@.to_multiset() == original.to_multiset(),
                forall|a: int, b: int|
                    0 <= a < b <= i && a != j && b != j ==> data_vec@[a] <= data_vec@[b],
                forall|b: int| j < b <= i ==> data_vec@[j as int] <= data_vec@[b],
            decreases j,
        {
            let ghost before = data_vec@;
            let lower = data_vec[j - 1];
            let upper = data_vec[j];
            data_vec.set(j - 1, upper);
            data_vec.set(j, lower);
            proof {
                assert(data_vec@ =~= before.update(j - 1, before[j as int]).update(
                    j as int,
                    before[j - 1],
                ));
                vstd::seq_lib::to_multiset_update(before, j - 1, before[j as int]);
                vstd::seq_lib::to_multiset_update(
                    before.update(j - 1, before[j as int]),
                    j as int,
                    before[j - 1],
                );
                before.to_multiset_ensures();
                before.update(j - 1, before[j as int]).to_multiset_ensures();
                assert(before.contains(before[j - 1]));
                assert(data_vec@.to_multiset() =~= before.to_multiset());
            }
            j -= 1;
        }
        i += 1;
    }
    proof {
        lemma_value_order_is_total();
        assert(vstd::relations::sorted_by(data_vec@, value_order()));
        original.lemma_sort_by_ensures(value_order());
        vstd::seq_lib::lemma_sorted_unique(data_vec@, original.sort_by(value_order()), value_order());
    }
}

/// Four times the lower Tukey fence `Q1 - 1.5*IQR` of a sequence of at least
/// two values, kept quadrupled so that it stays exact in integers.
pub open spec fn quadrupled_lower_fence(t: Seq<usize>) -> int
    recommends
        t.len() >= 2,
{
    let q1 = doubled_median(lower_half(t));
    let q3 = doubled_median(upper_half(t));
    2 * q1 - 3 * (q3 - q1)
}

/// Four times the upper Tukey fence `Q3 + 1.5*IQR`, kept quadrupled so that
/// it stays exact in integers.
pub open spec fn quadrupled_upper_fence(t: Seq<usize>) -> int
    recommends
        t.len() >= 2,
{
    let q1 = doubled_median(lower_half(t));
    let q3 = doubled_median(upper_half(t));
    2 * q3 + 3 * (q3 - q1)
}

/// The subsequence of values strictly below the (quadrupled) bound, in order.
pub open spec fn values_below(t: Seq<usize>, quadrupled_bound: int) -> Seq<usize>
    decreases t.len(),
{
    if t.len() == 0 {
        Seq::empty()
    } else {
        let rest = values_below(t.drop_last(), quadrupled_bound);
        if 4 * t.last() < quadrupled_bound {
            rest.push(t.last())
        } else {
            rest
        }
    }
}

/// The subsequence of values strictly above the upper bound, in order.  A
/// value already strictly below the lower bound is counted only as a lower
/// outlier, never here as well (with ascending bounds no value can be both).
pub open spec fn values_above(t: Seq<usize>, quadrupled_lower: int, quadrupled_upper: int) -> Seq<
    usize,
>
    decreases t.len(),
{
    if t.len() == 0 {
        Seq::empty()
    } else {
        let rest = values_above(t.drop_last(), quadrupled_lower, quadrupled_upper);
        if !(4 * t.last() < quadrupled_lower) && 4 * t.last() > quadrupled_upper {
            rest.push(t.last())
        } else {
            rest
        }
    }
}

/// A doubled median stays within twice the value range.
pub proof fn lemma_doubled_median_bounds(s: Seq<usize>)
    requires
        s.len() > 0,
    ensures
        0 <= doubled_median(s) <= 2 * usize::MAX,
{
}

/// Tukey outlier detection: sorts the data unless the caller vouches that it
/// already is, then splits off the values strictly below `Q1 - 1.5*IQR` and
/// strictly above `Q3 + 1.5*IQR`.  Returns `None` when there are fewer than
/// two values or no outlier at all.  The fences are quarter-integers, so the
/// comparison is done exactly, against four times the fence.
pub fn get_outliers(data_vec: Vec<usize>, is_sorted: bool) -> (result: Option<
    (Vec<usize>, Vec<usize>),
>)
    ensures
        ({
            let t = if is_sorted {
                data_vec@
            } else {
                sorted_ascending(data_vec@)
            };
            let low = values_below(t, quadrupled_lower_fence(t));
            let high = values_above(t, quadrupled_lower_fence(t), quadrupled_upper_fence(t));
            match result {
                Some(r) => t.len() >= 2 && (low.len() > 0 || high.len() > 0) && r.0@ == low
                    && r.1@ == high,
                None => t.len() < 2 || (low.len() == 0 && high.len() == 0),
            }
        }),
{
    let mut data_vec = data_vec;
    if data_vec.is_empty() {
        proof {
            data_vec@.lemma_sort_by_ensures(value_order());
            data_vec@.to_multiset_ensures();
            data_vec@.sort_by(value_order()).to_multiset_ensures();
        }
        return None;
    }

    if !is_sorted {
        sort_values(&mut data_vec);
    }
    let ghost t = data_vec@;

    if let Some((q1_value, _, q3_value)) = get_quartile_values(data_vec.as_slice()) {
        proof {
            lemma_doubled_median_bounds(lower_half(t));
            lemma_doubled_median_bounds(upper_half(t));
        }
        let q1_scaled = q1_value as i128;
        let q3_scaled = q3_value as i128;
        let interquartile_range: i128 = q3_scaled - q1_scaled;

        let lower_range: i128 = 2 * q1_scaled - 3 * interquartile_range;
        let upper_range: i128 = 2 * q3_scaled + 3 * interquartile_range;

        let mut lower_outliers: Vec<usize> = Vec::new();
        let mut upper_outliers: Vec<usize> = Vec::new();

        let mut i: usize = 0;
        while i < data_vec.len()
            invariant
                i <= data_vec@.len(),
                data_vec@ == t,
                t.len() >= 2,
                lower_range == quadrupled_lower_fence(t),
                upper_range == quadrupled_upper_fence(t),
                lower_outliers@ == values_below(t.take(i as int), quadrupled_lower_fence(t)),
                upper_outliers@ == values_above(
                    t.take(i as int),
                    quadrupled_lower_fence(t),
                    quadrupled_upper_fence(t),
                ),
            decreases data_vec@.len() - i,
        {
            proof {
                assert(t.take(i + 1).drop_last() =~= t.take(i as int));
            }
            let data = data_vec[i];
            if 4 * (data as i128) < lower_range {
                lower_outliers.push(data);
            } else if 4 * (data as i128) > upper_range {
                upper_outliers.push(data);
            }
            i += 1;
        }
        proof {
            assert(t.take(t.len() as int) =~= t);
        }

        if lower_outliers.is_empty() && upper_outliers.is_empty() {
            return None;
        }

        return Some((lower_outliers, upper_outliers));
    }

    None
}

/// The sum of a sequence of values.
pub open spec fn seq_sum(s: Seq<usize>) -> int
    decreases s.len(),
{
    if s.len() == 0 {
        0
    } else {
        seq_sum(s.drop_last()) + s.last()
    }
}

/// Exact arithmetic mean of a slice, as the fraction `numerator /
/// denominator`: the sum of the values over their count, with the empty
/// slice yielding `0 / 1`.
pub fn get_average(data_vec: &[usize]) -> (result: (u128, usize))
    ensures
        result.0 == seq_sum(data_vec@),
        result.1 == if data_vec@.len() == 0 {
            1int
        } else {
            data_vec@.len() as int
        },
{
    let length: usize = data_vec.len();
    if length == 0 {
        return (0, 1);
    }
    let mut sum_of_values: u128 = 0;
    let mut i: usize = 0;
    while i < length
        invariant
            i <= length,
            length == data_vec@.len(),
            sum_of_values == seq_sum(data_vec@.take(i as int)),
            sum_of_values <= i * (usize::MAX as int),
        decreases length - i,
    {
        proof {
            assert(data_vec@.take(i + 1).drop_last() =~= data_vec@.take(i as int));
            let word_max = usize::MAX as int;
            assert(word_max <= 0xffff_ffff_ffff_ffff);
            assert((i + 1) * word_max == i * word_max + word_max) by (nonlinear_arith);
            assert((i + 1) * word_max <= 0x1_0000_0000_0000_0000 * 0xffff_ffff_ffff_ffff)
                by (nonlinear_arith)
                requires
                    0 <= i + 1 <= 0x1_0000_0000_0000_0000,
                    0 <= word_max <= 0xffff_ffff_ffff_ffff,
            ;
        }
        sum_of_values = sum_of_values + data_vec[i] as u128;
        i += 1;
    }
    proof {
        assert(data_vec@.take(length as int) =~= data_vec@);
    }
    (sum_of_values, length)
}

} // verus!
