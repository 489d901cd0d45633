//! The five aggregates of a numeric column.
//!
//! `count` is the number of rows, missing entries included. The other four
//! are taken over the entries that are present, and are absent when there
//! are none: an empty column, or a column of missing entries only, is a
//! state to report, not a failure.
//!
//! Smallest and largest are decided by `Binary64::key`. Where no entry is a
//! NaN this is the order of the numbers themselves; among entries of one key
//! (the two zeros) the first one is taken. A NaN has the key of its pattern,
//! beyond the infinity of its sign, and no more is claimed of a column that
//! holds one.
//!
//! Sum and mean are the engine's, with every NaN read as one: a sum or a
//! mean that is a NaN is always `CANONICAL_NAN`, on every machine.

use crate::binary64::lemma_key_order_is_number_order;
use crate::binary64::Binary64;
use crate::binary64::CANONICAL_NAN;
use crate::conversion::converted;
use crate::conversion::lemma_short_integers_convert_exactly;
use crate::engine::binary64_quotient;
use crate::engine::binary64_sum;
use crate::engine::float_quotient;
use crate::engine::float_sum;
use crate::engine::patterns;
use crate::engine::MAX_ROWS;
use crate::numeric::NumericColumn;
use vstd::arithmetic::power2::pow2;
use vstd::prelude::*;

verus! {

/// The result record.
#[derive(Clone, Copy, Debug, PartialEq, Eq, Structural)]
pub struct Statistics {
    /// The number of rows, missing entries included.
    pub count: usize,
    /// The smallest entry present.
    pub min: Option<Binary64>,
    /// The largest entry present.
    pub max: Option<Binary64>,
    /// The sum of the entries present.
    pub sum: Option<Binary64>,
    /// The sum divided by the number of entries present.
    pub mean: Option<Binary64>,
}

/// The entries that are present, in their order.
pub open spec fn present(entries: Seq<Option<Binary64>>) -> Seq<Binary64>
    decreases entries.len(),
{
    if entries.len() == 0 {
        Seq::empty()
    } else {
        let before = present(entries.drop_last());
        match entries.last() {
            Some(x) => before.push(x),
            None => before,
        }
    }
}

/// Whether `values[i]` is the first among the entries of least key.
pub open spec fn is_first_least(values: Seq<Binary64>, i: int) -> bool {
    &&& 0 <= i < values.len()
    &&& forall|j: int| 0 <= j < values.len() ==> values[i].key() <= (#[trigger] values[j]).key()
    &&& forall|j: int| 0 <= j < i ==> values[i].key() < (#[trigger] values[j]).key()
}

/// Whether `values[i]` is the first among the entries of greatest key.
pub open spec fn is_first_greatest(values: Seq<Binary64>, i: int) -> bool {
    &&& 0 <= i < values.len()
    &&& forall|j: int| 0 <= j < values.len() ==> (#[trigger] values[j]).key() <= values[i].key()
    &&& forall|j: int| 0 <= j < i ==> (#[trigger] values[j]).key() < values[i].key()
}

/// The smallest of a non-empty sequence of numbers.
pub open spec fn least(values: Seq<Binary64>) -> Binary64 {
    values[choose|i: int| is_first_least(values, i)]
}

/// The largest of a non-empty sequence of numbers.
pub open spec fn greatest(values: Seq<Binary64>) -> Binary64 {
    values[choose|i: int| is_first_greatest(values, i)]
}

/// The smallest of a sequence of numbers, if it has any.
pub open spec fn least_of(values: Seq<Binary64>) -> Option<Binary64> {
    if values.len() == 0 {
        None
    } else {
        Some(least(values))
    }
}

/// The largest of a sequence of numbers, if it has any.
pub open spec fn greatest_of(values: Seq<Binary64>) -> Option<Binary64> {
    if values.len() == 0 {
        None
    } else {
        Some(greatest(values))
    }
}

/// The statistics of a column with `count` rows whose present entries are
/// `values`, given the sum and the mean of those. Where no entry is present
/// the sum and the mean are absent, whatever was given.
pub open spec fn assembled(
    count: nat,
    values: Seq<Binary64>,
    total: Option<Binary64>,
    average: Option<Binary64>,
) -> Statistics {
    Statistics {
        count: count as usize,
        min: least_of(values),
        max: greatest_of(values),
        sum: if values.len() == 0 {
            None
        } else {
            total
        },
        mean: if values.len() == 0 {
            None
        } else {
            average
        },
    }
}

/// The sum of a sequence of numbers, as the engine accumulates it, with every
/// NaN read as one.
pub open spec fn sum_of(values: Seq<Binary64>) -> Binary64 {
    (Binary64 { bits: binary64_sum(patterns(values)) }).canonical()
}

/// The number of entries, as a number. Columns are short enough for it to be
/// exact.
pub open spec fn count_of(values: Seq<Binary64>) -> Binary64 {
    converted(values.len() as i64)
}

/// The quotient of two numbers, as the engine divides, with every NaN read as
/// one.
pub open spec fn quotient_of(dividend: Binary64, divisor: Binary64) -> Binary64 {
    (Binary64 { bits: binary64_quotient(dividend.bits, divisor.bits) }).canonical()
}

/// The mean of a sequence of numbers: their sum divided by their number.
pub open spec fn mean_of(values: Seq<Binary64>) -> Binary64 {
    quotient_of(sum_of(values), count_of(values))
}

/// The statistics of a numeric column.
pub open spec fn statistics_of(entries: Seq<Option<Binary64>>) -> Statistics {
    let values = present(entries);
    assembled(entries.len(), values, Some(sum_of(values)), Some(mean_of(values)))
}

/// Only one entry can be the first of least key.
pub proof fn lemma_first_least_is_unique(values: Seq<Binary64>, i: int)
    requires
        is_first_least(values, i),
    ensures
        least(values) == values[i],
{
    let k = choose|k: int| is_first_least(values, k);
    if k < i {
        assert(values[i].key() < values[k].key());
        assert(values[k].key() <= values[i].key());
    } else if i < k {
        assert(values[k].key() < values[i].key());
        assert(values[i].key() <= values[k].key());
    }
}

/// Only one entry can be the first of greatest key.
pub proof fn lemma_first_greatest_is_unique(values: Seq<Binary64>, i: int)
    requires
        is_first_greatest(values, i),
    ensures
        greatest(values) == values[i],
{
    let k = choose|k: int| is_first_greatest(values, k);
    if k < i {
        assert(values[k].key() < values[i].key());
        assert(values[i].key() <= values[k].key());
    } else if i < k {
        assert(values[i].key() < values[k].key());
        assert(values[k].key() <= values[i].key());
    }
}

/// Among the entries up to `n`, some entry is the first of least key.
proof fn lemma_first_least_up_to(values: Seq<Binary64>, n: int) -> (i: int)
    requires
        0 < n <= values.len(),
    ensures
        is_first_least(values.take(n), i),
    decreases n,
{
    if n == 1 {
        0
    } else {
        let before = lemma_first_least_up_to(values, n - 1);
        if values[n - 1].key() < values[before].key() {
            n - 1
        } else {
            before
        }
    }
}

/// Among the entries up to `n`, some entry is the first of greatest key.
proof fn lemma_first_greatest_up_to(values: Seq<Binary64>, n: int) -> (i: int)
    requires
        0 < n <= values.len(),
    ensures
        is_first_greatest(values.take(n), i),
    decreases n,
{
    if n == 1 {
        0
    } else {
        let before = lemma_first_greatest_up_to(values, n - 1);
        if values[before].key() < values[n - 1].key() {
            n - 1
        } else {
            before
        }
    }
}

/// The smallest of a non-empty sequence is one of its entries, and no entry
/// has a lesser key.
pub proof fn lemma_least_is_a_lower_bound(values: Seq<Binary64>)
    requires
        values.len() > 0,
    ensures
        values.contains(least(values)),
        forall|j: int|
            0 <= j < values.len() ==> least(values).key() <= (#[trigger] values[j]).key(),
{
    let i = lemma_first_least_up_to(values, values.len() as int);
    assert(values.take(values.len() as int) =~= values);
    lemma_first_least_is_unique(values, i);
}

/// The largest of a non-empty sequence is one of its entries, and no entry
/// has a greater key.
pub proof fn lemma_greatest_is_an_upper_bound(values: Seq<Binary64>)
    requires
        values.len() > 0,
    ensures
        values.contains(greatest(values)),
        forall|j: int|
            0 <= j < values.len() ==> (#[trigger] values[j]).key() <= greatest(values).key(),
{
    let i = lemma_first_greatest_up_to(values, values.len() as int);
    assert(values.take(values.len() as int) =~= values);
    lemma_first_greatest_is_unique(values, i);
}

/// Among numbers, the order is that of their values: where every entry is
/// finite, the smallest has the least value and the largest the greatest.
pub proof fn lemma_least_and_greatest_by_value(values: Seq<Binary64>)
    requires
        values.len() > 0,
        forall|j: int| 0 <= j < values.len() ==> (#[trigger] values[j]).is_finite(),
    ensures
        least(values).is_finite(),
        greatest(values).is_finite(),
        forall|j: int|
            0 <= j < values.len() ==> least(values).scaled_value() <= (
            #[trigger] values[j]).scaled_value(),
        forall|j: int|
            0 <= j < values.len() ==> (#[trigger] values[j]).scaled_value() <= greatest(
                values,
            ).scaled_value(),
{
    lemma_least_is_a_lower_bound(values);
    lemma_greatest_is_an_upper_bound(values);
    assert forall|j: int| 0 <= j < values.len() implies least(values).scaled_value() <= (
    #[trigger] values[j]).scaled_value() by {
        lemma_key_order_is_number_order(least(values), values[j]);
    }
    assert forall|j: int| 0 <= j < values.len() implies (#[trigger] values[j]).scaled_value()
        <= greatest(values).scaled_value() by {
        lemma_key_order_is_number_order(values[j], greatest(values));
    }
}

/// There are no more entries present than there are entries.
proof fn lemma_present_len(entries: Seq<Option<Binary64>>)
    ensures
        present(entries).len() <= entries.len(),
    decreases entries.len(),
{
    if entries.len() > 0 {
        lemma_present_len(entries.drop_last());
    }
}

/// The smallest of a sequence of numbers, if it has any.
pub fn smallest(values: &Vec<Binary64>) -> (r: Option<Binary64>)
    ensures
        r == least_of(values@),
{
    if values.len() == 0 {
        return None;
    }
    let mut best: usize = 0;
    let mut i: usize = 1;
    while i < values.len()
        invariant
            0 <= best < i <= values.len(),
            forall|j: int|
                0 <= j < i ==> values@[best as int].key() <= (#[trigger] values@[j]).key(),
            forall|j: int|
                0 <= j < best ==> values@[best as int].key() < (#[trigger] values@[j]).key(),
        decreases values.len() - i,
    {
        if values[i].precedes(values[best]) {
            best = i;
        }
        i += 1;
    }
    proof {
        lemma_first_least_is_unique(values@, best as int);
    }
    Some(values[best])
}

/// The largest of a sequence of numbers, if it has any.
pub fn largest(values: &Vec<Binary64>) -> (r: Option<Binary64>)
    ensures
        r == greatest_of(values@),
{
    if values.len() == 0 {
        return None;
    }
    let mut best: usize = 0;
    let mut i: usize = 1;
    while i < values.len()
        invariant
            0 <= best < i <= values.len(),
            forall|j: int|
                0 <= j < i ==> (#[trigger] values@[j]).key() <= values@[best as int].key(),
            forall|j: int|
                0 <= j < best ==> (#[trigger] values@[j]).key() < values@[best as int].key(),
        decreases values.len() - i,
    {
        if values[best].precedes(values[i]) {
            best = i;
        }
        i += 1;
    }
    proof {
        lemma_first_greatest_is_unique(values@, best as int);
    }
    Some(values[best])
}

/// Puts the record together from the number of rows, the entries present,
/// and their sum and mean as the engine computed them.
pub fn assemble(
    count: usize,
    values: &Vec<Binary64>,
    total: Option<Binary64>,
    average: Option<Binary64>,
) -> (r: Statistics)
    ensures
        r == assembled(count as nat, values@, total, average),
{
    if values.len() == 0 {
        Statistics { count, min: None, max: None, sum: None, mean: None }
    } else {
        Statistics {
            count,
            min: smallest(values),
            max: largest(values),
            sum: total,
            mean: average,
        }
    }
}

impl NumericColumn {
    /// The entries that are present, in their order.
    pub fn present_values(&self) -> (r: Vec<Binary64>)
        ensures
            r@ == present(self@),
            r@.len() <= MAX_ROWS,
    {
        let n = self.len();
        let mut values: Vec<Binary64> = Vec::new();
        let mut i: usize = 0;
        while i < n
            invariant
                i <= n,
                n == self@.len(),
                values@ == present(self@.take(i as int)),
            decreases n - i,
        {
            proof {
                assert(self@.take(i + 1).drop_last() =~= self@.take(i as int));
            }
            match self.get(i) {
                Some(x) => {
                    values.push(x);
                },
                None => {},
            }
            i += 1;
        }
        proof {
            assert(self@.take(n as int) =~= self@);
            lemma_present_len(self@);
        }
        values
    }
}

/// Reads every NaN in what the engine handed back as one.
pub fn settle(result: Option<Binary64>) -> (r: Option<Binary64>)
    ensures
        r == match result {
            Some(x) => Some(x.canonical()),
            None => None,
        },
{
    match result {
        Some(x) => Some(x.canonicalize()),
        None => None,
    }
}

/// Computes the statistics of a numeric column. Where some entry is present,
/// the engine sums the entries present and divides the sum by their number;
/// a NaN that comes of either is read as the one NaN before it goes on.
pub fn aggregate(column: &NumericColumn) -> (r: Statistics)
    ensures
        r == statistics_of(column@),
        r.count == column@.len(),
{
    let values = column.present_values();
    if values.len() == 0 {
        return assemble(column.len(), &values, None, None);
    }
    let count = Binary64::from_int(values.len() as i64);
    let total = settle(float_sum(&values));
    let average = match total {
        Some(t) => settle(float_quotient(t, count)),
        None => None,
    };
    assemble(column.len(), &values, total, average)
}

/// Where every entry is missing, none is present.
proof fn lemma_none_present(entries: Seq<Option<Binary64>>)
    requires
        forall|i: int| 0 <= i < entries.len() ==> entries[i] is None,
    ensures
        present(entries).len() == 0,
    decreases entries.len(),
{
    if entries.len() > 0 {
        lemma_none_present(entries.drop_last());
    }
}

/// A column whose entries are all missing, an empty column among them, has
/// its rows counted and no other aggregate.
pub proof fn lemma_all_missing_is_all_absent(entries: Seq<Option<Binary64>>)
    requires
        forall|i: int| 0 <= i < entries.len() ==> entries[i] is None,
    ensures
        statistics_of(entries) == (Statistics {
            count: entries.len() as usize,
            min: None,
            max: None,
            sum: None,
            mean: None,
        }),
{
    lemma_none_present(entries);
}

/// The four aggregates are present together or absent together, and they are
/// present exactly when some entry is.
pub proof fn lemma_aggregates_go_together(entries: Seq<Option<Binary64>>)
    ensures
        statistics_of(entries).min is Some <==> present(entries).len() > 0,
        statistics_of(entries).max is Some <==> present(entries).len() > 0,
        statistics_of(entries).sum is Some <==> present(entries).len() > 0,
        statistics_of(entries).mean is Some <==> present(entries).len() > 0,
{
}

/// Where sum and mean are present, the mean is the sum divided by the number
/// of entries that are present, not by the number of rows; that number goes
/// into the division as it is, without rounding. The mean is the engine's
/// quotient of the two with every NaN read as one.
pub proof fn lemma_mean_is_sum_over_present(entries: Seq<Option<Binary64>>)
    requires
        statistics_of(entries).sum is Some,
        statistics_of(entries).mean is Some,
        entries.len() <= MAX_ROWS,
    ensures
        statistics_of(entries).mean->0 == quotient_of(
            statistics_of(entries).sum->0,
            count_of(present(entries)),
        ),
        statistics_of(entries).mean->0 == (Binary64 {
            bits: binary64_quotient(
                statistics_of(entries).sum->0.bits,
                count_of(present(entries)).bits,
            ),
        }).canonical(),
        count_of(present(entries)).is_finite(),
        count_of(present(entries)).scaled_value() == present(entries).len() * pow2(1074),
{
    lemma_present_len(entries);
    lemma_short_integers_convert_exactly(present(entries).len() as i64);
}

/// A sum or a mean that is a NaN is the one NaN, whatever the machine: no
/// other NaN pattern ever stands in the record.
pub proof fn lemma_sum_and_mean_hold_one_nan(entries: Seq<Option<Binary64>>)
    ensures
        statistics_of(entries).sum matches Some(x) ==> (x.is_nan() ==> x.bits == CANONICAL_NAN),
        statistics_of(entries).mean matches Some(x) ==> (x.is_nan() ==> x.bits
            == CANONICAL_NAN),
{
}

/// The count is the number of rows, however many entries are missing.
pub proof fn lemma_count_is_length(entries: Seq<Option<Binary64>>)
    requires
        entries.len() <= MAX_ROWS,
    ensures
        statistics_of(entries).count == entries.len(),
{
}

} // verus!
