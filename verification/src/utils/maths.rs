//! Order statistics over samples of non-negative integers: mean, median,
//! quartiles and interquartile-range outliers.
//!
//! Medians of even-length samples and quartile bounds are not integers, so
//! the specifications carry them exactly as scaled integers: medians and
//! quartiles are doubled, outlier bounds are quadrupled. No precision is
//! lost anywhere.

use vstd::prelude::*;
use vstd::relations::{sorted_by, total_ordering};
use vstd::seq_lib::lemma_sorted_unique;

verus! {

/// The ordering the statistics sort by.
pub open spec fn value_leq() -> spec_fn(usize, usize) -> bool {
    |a: usize, b: usize| a <= b
}

/// Whether a sample is in ascending order.
pub open spec fn is_sorted_ascending(s: Seq<usize>) -> bool {
    forall|i: int, j: int| 0 <= i < j < s.len() ==> s[i] <= s[j]
}

/// The sample rearranged into ascending order.
pub open spec fn sorted_ascending(s: Seq<usize>) -> Seq<usize> {
    s.sort_by(value_leq())
}

/// The sum of a sample.
pub open spec fn seq_sum(s: Seq<usize>) -> int
    decreases s.len(),
{
    if s.len() == 0 {
        0
    } else {
        seq_sum(s.drop_last()) + s.last()
    }
}

/// Twice the median of a sorted sample: the sum of the two central values
/// for an even length, twice the central value for an odd length, and zero
/// for an empty sample.
pub open spec fn median_doubled(s: Seq<usize>) -> int {
    if s.len() == 0 {
        0
    } else if s.len() % 2 == 0 {
        s[s.len() as int / 2 - 1] + s[s.len() as int / 2]
    } else {
        2 * s[s.len() as int / 2]
    }
}

/// The lower half of a sorted sample: the values below the median position.
pub open spec fn lower_half(s: Seq<usize>) -> Seq<usize> {
    s.take(s.len() as int / 2)
}

/// Where the upper half of a sample of length `n` starts: just past the
/// median position, skipping the central value itself when `n` is odd (the
/// "exclusive median" quartile method).
pub open spec fn upper_half_start(n: int) -> int {
    if n % 2 == 1 {
        n / 2 + 1
    } else {
        n / 2
    }
}

/// The upper half of a sorted sample.
pub open spec fn upper_half(s: Seq<usize>) -> Seq<usize> {
    s.skip(upper_half_start(s.len() as int))
}

/// Twice the first quartile of a sorted sample.
pub open spec fn first_quartile_doubled(s: Seq<usize>) -> int {
    median_doubled(lower_half(s))
}

/// Twice the third quartile of a sorted sample.
pub open spec fn third_quartile_doubled(s: Seq<usize>) -> int {
    median_doubled(upper_half(s))
}

/// Twice the interquartile range of a sorted sample.
pub open spec fn interquartile_range_doubled(s: Seq<usize>) -> int {
    third_quartile_doubled(s) - first_quartile_doubled(s)
}

/// Four times the lower outlier bound `Q1 - 1.5 * IQR` of a sorted sample.
pub open spec fn lower_outlier_bound_quadrupled(s: Seq<usize>) -> int {
    2 * first_quartile_doubled(s) - 3 * interquartile_range_doubled(s)
}

/// Four times the upper outlier bound `Q3 + 1.5 * IQR` of a sorted sample.
pub open spec fn upper_outlier_bound_quadrupled(s: Seq<usize>) -> int {
    2 * third_quartile_doubled(s) + 3 * interquartile_range_doubled(s)
}

/// Whether `value` lies strictly below the lower outlier bound of the sorted
/// sample `s`.
pub open spec fn is_low_outlier(s: Seq<usize>, value: usize) -> bool {
    4 * value < lower_outlier_bound_quadrupled(s)
}

/// Whether `value` lies strictly above the upper outlier bound of the sorted
/// sample `s`.
pub open spec fn is_high_outlier(s: Seq<usize>, value: usize) -> bool {
    4 * value > upper_outlier_bound_quadrupled(s)
}

/// The values of the sorted sample `s` below its lower outlier bound, in
/// order.
pub open spec fn low_outliers(s: Seq<usize>) -> Seq<usize> {
    s.filter(|value: usize| is_low_outlier(s, value))
}

/// The values of the sorted sample `s` above its upper outlier bound, in
/// order.
pub open spec fn high_outliers(s: Seq<usize>) -> Seq<usize> {
    s.filter(|value: usize| is_high_outlier(s, value))
}

/// A sample's sum is at most its length times any upper bound on its values.
pub proof fn lemma_seq_sum_bounded(s: Seq<usize>, bound: int)
    requires
        forall|i: int| 0 <= i < s.len() ==> s[i] <= bound,
    ensures
        seq_sum(s) <= s.len() * bound,
    decreases s.len(),
{
    if s.len() == 0 {
    } else {
        lemma_seq_sum_bounded(s.drop_last(), bound);
        assert((s.len() - 1) * bound + bound == s.len() * bound) by (nonlinear_arith);
    }
}

/// The ordering `value_leq` is total.
proof fn lemma_value_leq_total()
    ensures
        total_ordering(value_leq()),
{
    let leq = value_leq();
    assert forall|a: usize| #[trigger] leq(a, a) by {}
    assert forall|a: usize, b: usize| #[trigger] leq(a, b) && #[trigger] leq(b, a) implies a == b by {}
    assert forall|a: usize, b: usize, c: usize|
        #[trigger] leq(a, b) && #[trigger] leq(b, c) implies leq(a, c) by {}
    assert forall|a: usize, b: usize| !(#[trigger] leq(a, b)) implies leq(b, a) by {}
}

/// An ascending sequence with the same values as `original` is exactly
/// `sorted_ascending(original)`.
pub proof fn lemma_sorted_ascending_unique(original: Seq<usize>, sorted: Seq<usize>)
    requires
        sorted.to_multiset() == original.to_multiset(),
        is_sorted_ascending(sorted),
    ensures
        sorted == sorted_ascending(original),
{
    let leq = value_leq();
    lemma_value_leq_total();
    original.lemma_sort_by_ensures(leq);
    assert(sorted_by(sorted, leq)) by {
        assert forall|i: int, j: int| 0 <= i < j < sorted.len() implies #[trigger] leq(
            sorted[i],
            sorted[j],
        ) by {
            assert(sorted[i] <= sorted[j]);
        }
    }
    lemma_sorted_unique(original.sort_by(leq), sorted, leq);
}

/// Sorting a sample keeps its length and its values, and yields ascending
/// order.
pub proof fn lemma_sorted_ascending_properties(s: Seq<usize>)
    ensures
        sorted_ascending(s).len() == s.len(),
        sorted_ascending(s).to_multiset() == s.to_multiset(),
        is_sorted_ascending(sorted_ascending(s)),
{
    broadcast use vstd::seq_lib::group_to_multiset_ensures;

    let leq = value_leq();
    lemma_value_leq_total();
    s.lemma_sort_by_ensures(leq);
    assert(s.to_multiset().len() == s.len());
    assert(sorted_ascending(s).to_multiset().len() == sorted_ascending(s).len());
    assert forall|i: int, j: int| 0 <= i < j < sorted_ascending(s).len() implies sorted_ascending(
        s,
    )[i] <= sorted_ascending(s)[j] by {
        assert(leq(sorted_ascending(s)[i], sorted_ascending(s)[j]));
    }
}

/// Rearranges a sample into ascending order.
pub(crate) fn sort_values(values: Vec<usize>) -> (result: Vec<usize>)
    ensures
        result@.to_multiset() == values@.to_multiset(),
        is_sorted_ascending(result@),
        result@ == sorted_ascending(values@),
{
    let ghost original = values@;
    let mut result: Vec<usize> = Vec::new();
    let mut i: usize = 0;
    proof {
        broadcast use vstd::seq_lib::group_to_multiset_ensures;

        assert(values@.take(0) =~= Seq::<usize>::empty());
        assert(result@.to_multiset() =~= values@.take(0).to_multiset());
    }
    while i < values.len()
        invariant
            i <= values@.len(),
            result@.to_multiset() == values@.take(i as int).to_multiset(),
            is_sorted_ascending(result@),
        decreases values@.len() - i,
    {
        let value = values[i];
        let mut position: usize = 0;
        while position < result.len() && result[position] <= value
            invariant
                position <= result@.len(),
                forall|k: int| 0 <= k < position ==> result@[k] <= value,
            decreases result@.len() - position,
        {
            position = position + 1;
        }
        let ghost before = result@;
        result.insert(position, value);
        proof {
            broadcast use vstd::seq_lib::group_to_multiset_ensures;
            broadcast use vstd::seq_lib::to_multiset_insert;

            assert(values@.take(i + 1).drop_last() =~= values@.take(i as int));
            assert(values@.take(i + 1) =~= values@.take(i as int).push(value));
            assert(result@.to_multiset() =~= values@.take(i + 1).to_multiset());
            assert forall|a: int, b: int| 0 <= a < b < result@.len() implies result@[a]
                <= result@[b] by {
                if b < position {
                    assert(result@[a] == before[a] && result@[b] == before[b]);
                } else if a > position {
                    assert(result@[a] == before[a - 1] && result@[b] == before[b - 1]);
                } else if a == position {
                    assert(result@[a] == value && result@[b] == before[b - 1]);
                    assert(position < before.len());
                    assert(before[position as int] > value);
                } else if b == position {
                    assert(result@[a] == before[a] && result@[b] == value);
                } else {
                    assert(a < position && b > position);
                    assert(result@[a] == before[a] && result@[b] == before[b - 1]);
                    if b - 1 == position {
                        assert(before[position as int] > value || position == before.len());
                        assert(before[a] <= value || a >= position);
                    }
                }
            }
        }
        i = i + 1;
    }
    proof {
        assert(values@.take(values@.len() as int) =~= values@);
        lemma_sorted_ascending_unique(original, result@);
    }
    result
}

/// Twice the median of `values[from..to]`, where `values` is sorted.
fn median_doubled_of_range(values: &Vec<usize>, from: usize, to: usize) -> (result: u128)
    requires
        from <= to <= values@.len(),
    ensures
        result as int == median_doubled(values@.subrange(from as int, to as int)),
        result <= 2 * (usize::MAX as u128),
{
    let ghost range = values@.subrange(from as int, to as int);
    let length = to - from;
    if length == 0 {
        0
    } else if length % 2 == 0 {
        let a = values[from + length / 2 - 1];
        let b = values[from + length / 2];
        proof {
            assert(range[length as int / 2 - 1] == a);
            assert(range[length as int / 2] == b);
        }
        (a as u128) + (b as u128)
    } else {
        let central = values[from + length / 2];
        proof {
            assert(range[length as int / 2] == central);
        }
        2 * (central as u128)
    }
}

/// The arithmetic mean of a sample, as the exact pair `(sum, count)`.
/// An empty sample yields an error rather than a default: the mean of
/// nothing is undefined and callers must decide for themselves.
pub fn get_average(data_vec: &Vec<usize>) -> (result: Result<(u128, usize), &'static str>)
    ensures
        result is Ok <==> data_vec@.len() > 0,
        result matches Ok((sum, count)) ==> sum as int == seq_sum(data_vec@) && count
            == data_vec@.len(),
{
    if data_vec.len() == 0 {
        return Result::Err("Cannot calculate the average of an empty data set");
    }
    let mut sum: u128 = 0;
    let mut i: usize = 0;
    proof {
        assert(data_vec@.take(0) =~= Seq::<usize>::empty());
    }
    while i < data_vec.len()
        invariant
            i <= data_vec@.len(),
            sum as int == seq_sum(data_vec@.take(i as int)),
            sum as int <= (i as int) * (usize::MAX as int),
        decreases data_vec@.len() - i,
    {
        proof {
            assert((i as int) * (usize::MAX as int) + (usize::MAX as int) == (i + 1) * (
            usize::MAX as int)) by (nonlinear_arith);
            assert((i + 1) * (usize::MAX as int) <= 0xffffffffffffffffffffffffffffffff) by {
                assert((i + 1) * (usize::MAX as int) <= (usize::MAX as int + 1) * (
                usize::MAX as int)) by (nonlinear_arith)
                    requires
                        0 <= i + 1 <= usize::MAX as int + 1,
                ;
            }
        }
        sum = sum + (data_vec[i] as u128);
        i = i + 1;
        proof {
            assert(data_vec@.take(i as int).drop_last() =~= data_vec@.take(i - 1));
        }
    }
    proof {
        assert(data_vec@.take(data_vec@.len() as int) =~= data_vec@);
    }
    Result::Ok((sum, data_vec.len()))
}

/// The quartiles of a sample, each doubled so that half-integer values stay
/// exact: twice the first quartile, twice the median, twice the third
/// quartile, by the exclusive-median method. `is_sorted` declares that the
/// caller already sorted the sample.
pub fn get_quartiles(data_vec: Vec<usize>, is_sorted: bool) -> (result: (u128, u128, u128))
    requires
        is_sorted ==> is_sorted_ascending(data_vec@),
    ensures
        ({
            let s = sorted_ascending(data_vec@);
            &&& result.0 as int == first_quartile_doubled(s)
            &&& result.1 as int == median_doubled(s)
            &&& result.2 as int == third_quartile_doubled(s)
        }),
{
    let ghost original = data_vec@;
    let sorted_vec = if is_sorted {
        proof {
            broadcast use vstd::seq_lib::group_to_multiset_ensures;

            lemma_sorted_ascending_unique(original, data_vec@);
        }
        data_vec
    } else {
        sort_values(data_vec)
    };
    let length = sorted_vec.len();
    let first_quartile = median_doubled_of_range(&sorted_vec, 0, length / 2);
    let second_quartile = median_doubled_of_range(&sorted_vec, 0, length);
    let upper_start = if length % 2 == 1 {
        length / 2 + 1
    } else {
        length / 2
    };
    let third_quartile = median_doubled_of_range(&sorted_vec, upper_start, length);
    proof {
        let s = sorted_ascending(original);
        assert(sorted_vec@.subrange(0, length as int / 2) =~= lower_half(s));
        assert(sorted_vec@.subrange(0, length as int) =~= s);
        assert(upper_start as int == upper_half_start(s.len() as int));
        assert(sorted_vec@.subrange(upper_start as int, length as int) =~= upper_half(s));
    }
    (first_quartile, second_quartile, third_quartile)
}

/// The interquartile-range outliers of a sample: `None` for an empty sample
/// (no statistics exist), otherwise the values below `Q1 - 1.5 * IQR` and the
/// values above `Q3 + 1.5 * IQR`, each in ascending order — both possibly
/// empty. `is_sorted` declares that the caller already sorted the sample.
#[verifier::rlimit(60)]
pub fn get_outliers(data_vec: Vec<usize>, is_sorted: bool) -> (result: Option<
    (Vec<usize>, Vec<usize>),
>)
    requires
        is_sorted ==> is_sorted_ascending(data_vec@),
    ensures
        result is Some <==> data_vec@.len() > 0,
        result matches Some((lower, upper)) ==> lower@ == low_outliers(sorted_ascending(data_vec@))
            && upper@ == high_outliers(sorted_ascending(data_vec@)),
{
    let ghost original = data_vec@;
    if data_vec.len() == 0 {
        return Option::None;
    }
    let sorted_vec = if is_sorted {
        proof {
            broadcast use vstd::seq_lib::group_to_multiset_ensures;

            lemma_sorted_ascending_unique(original, data_vec@);
        }
        data_vec
    } else {
        sort_values(data_vec)
    };
    let ghost s = sorted_ascending(original);
    proof {
        assert(sorted_vec@ == s);
    }

    let length = sorted_vec.len();
    let first_quartile = median_doubled_of_range(&sorted_vec, 0, length / 2);
    let upper_start = if length % 2 == 1 {
        length / 2 + 1
    } else {
        length / 2
    };
    let third_quartile = median_doubled_of_range(&sorted_vec, upper_start, length);
    proof {
        assert(sorted_vec@.subrange(0, length as int / 2) =~= lower_half(s));
        assert(upper_start as int == upper_half_start(s.len() as int));
        assert(sorted_vec@.subrange(upper_start as int, length as int) =~= upper_half(s));
    }
    let interquartile: i128 = (third_quartile as i128) - (first_quartile as i128);
    let lower_bound: i128 = 2 * (first_quartile as i128) - 3 * interquartile;
    let upper_bound: i128 = 2 * (third_quartile as i128) + 3 * interquartile;
    proof {
        assert(lower_bound as int == lower_outlier_bound_quadrupled(s));
        assert(upper_bound as int == upper_outlier_bound_quadrupled(s));
    }

    let mut lower: Vec<usize> = Vec::new();
    let mut upper: Vec<usize> = Vec::new();
    let mut i: usize = 0;
    proof {
        reveal_with_fuel(Seq::<_>::filter, 2);
        assert(s.take(0) =~= Seq::<usize>::empty());
        assert(lower@ =~= s.take(0).filter(|value: usize| is_low_outlier(s, value)));
        assert(upper@ =~= s.take(0).filter(|value: usize| is_high_outlier(s, value)));
    }
    while i < sorted_vec.len()
        invariant
            i <= s.len(),
            sorted_vec@ == s,
            lower_bound as int == lower_outlier_bound_quadrupled(s),
            upper_bound as int == upper_outlier_bound_quadrupled(s),
            lower@ == s.take(i as int).filter(|value: usize| is_low_outlier(s, value)),
            upper@ == s.take(i as int).filter(|value: usize| is_high_outlier(s, value)),
        decreases s.len() - i,
    {
        let value = sorted_vec[i];
        if 4 * (value as i128) < lower_bound {
            lower.push(value);
        }
        if 4 * (value as i128) > upper_bound {
            upper.push(value);
        }
        i = i + 1;
        proof {
            reveal_with_fuel(Seq::<_>::filter, 2);
            assert(s.take(i as int).drop_last() =~= s.take(i - 1));
            assert(s.take(i as int).last() == s[i - 1]);
            assert(lower@ =~= s.take(i as int).filter(|value: usize| is_low_outlier(s, value)));
            assert(upper@ =~= s.take(i as int).filter(|value: usize| is_high_outlier(s, value)));
        }
    }
    proof {
        assert(s.take(s.len() as int) =~= s);
    }
    Option::Some((lower, upper))
}

} // verus!
