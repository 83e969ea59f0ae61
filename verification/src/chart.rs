//! Historical price series with incrementally maintained aggregates.
//!
//! A `PriceChart` keeps an ordered list of dated prices together with their
//! sum, sum of squares, minimum and maximum. The sums are updated in O(1) by
//! `change_price`, while the minimum and maximum are refreshed by a full
//! rescan. Prices are fixed-point numbers (millionths, see `fixed::SCALE`).

use vstd::prelude::*;

use crate::date::{day_number, parse_iso_result, Date};
use crate::parse::parse_fixed_result;
use crate::request::{DailyPrice, StockData};
use vstd::pervasive::unreached;

verus! {

broadcast use vstd::seq_lib::group_to_multiset_ensures;

/// Largest number of observations a series may hold.
pub const MAX_POINTS: usize = 1_000_000;

/// Largest magnitude a price may have, in fixed-point units (one million
/// whole units). Together with `MAX_POINTS` this keeps every aggregate
/// within its machine type.
pub const PRICE_LIMIT: i64 = 1_000_000_000_000;

/// A single dated price observation.
#[derive(Debug, Clone, Copy, PartialEq, Eq, Structural)]
pub struct DataPoint {
    pub price: i64,
    pub date: Date,
}

/// Why a series operation was rejected.
#[derive(Debug, Clone, Copy, PartialEq, Eq, Structural)]
pub enum ChartError {
    /// A series must hold at least one observation.
    EmptySeries,
    /// More observations than `MAX_POINTS`.
    TooManyPoints,
    /// A price magnitude beyond `PRICE_LIMIT`.
    PriceOutOfRange,
    /// An index past the end of the series.
    IndexOutOfRange,
    /// A date string that does not name a calendar day.
    InvalidDate,
    /// A price string that is not a decimal number in range.
    InvalidPrice,
}

/// Sum of a sequence of prices.
pub open spec fn sum_prices(s: Seq<i64>) -> int
    decreases s.len(),
{
    if s.len() == 0 {
        0
    } else {
        sum_prices(s.drop_last()) + s.last()
    }
}

/// Sum of the squares of a sequence of prices.
pub open spec fn sum_squares(s: Seq<i64>) -> int
    decreases s.len(),
{
    if s.len() == 0 {
        0
    } else {
        sum_squares(s.drop_last()) + (s.last() as int) * (s.last() as int)
    }
}

/// Largest price of a non-empty sequence.
pub open spec fn max_price_of(s: Seq<i64>) -> int
    decreases s.len(),
{
    if s.len() <= 1 {
        s.last() as int
    } else {
        let m = max_price_of(s.drop_last());
        if s.last() as int > m {
            s.last() as int
        } else {
            m
        }
    }
}

/// Smallest price of a non-empty sequence.
pub open spec fn min_price_of(s: Seq<i64>) -> int
    decreases s.len(),
{
    if s.len() <= 1 {
        s.last() as int
    } else {
        let m = min_price_of(s.drop_last());
        if (s.last() as int) < m {
            s.last() as int
        } else {
            m
        }
    }
}

/// Whether a price is within the accepted magnitude.
pub open spec fn price_in_range(p: i64) -> bool {
    -PRICE_LIMIT <= p <= PRICE_LIMIT
}

/// Why a sequence of observations cannot form a series, if it cannot.
pub open spec fn series_error(s: Seq<DataPoint>) -> Option<ChartError> {
    if s.len() == 0 {
        Some(ChartError::EmptySeries)
    } else if s.len() > MAX_POINTS {
        Some(ChartError::TooManyPoints)
    } else if exists|i: int| 0 <= i < s.len() && !price_in_range(#[trigger] s[i].price) {
        Some(ChartError::PriceOutOfRange)
    } else {
        None
    }
}

/// An ordered price series with its maintained aggregates.
#[derive(Debug)]
pub struct PriceChart {
    pub data: Vec<DataPoint>,
    pub squared_sum: i128,
    pub sum: i64,
    pub max_price: i64,
    pub min_price: i64,
    pub refresh_chart: bool,
}

impl DataPoint {
    /// Pairs a price with its date.
    pub fn new(price: i64, date: Date) -> (r: DataPoint)
        ensures
            r.price == price,
            r.date == date,
    {
        DataPoint { price, date }
    }
}

impl PriceChart {
    /// The prices of the series, in order.
    pub open spec fn prices(&self) -> Seq<i64> {
        self.data@.map_values(|dp: DataPoint| dp.price)
    }

    /// The series invariant: a bounded, non-empty list of in-range prices
    /// whose four aggregates are exactly the sums, minimum and maximum of the
    /// current prices.
    pub open spec fn wf(&self) -> bool {
        &&& 1 <= self.data@.len() <= MAX_POINTS
        &&& (forall|i: int|
            0 <= i < self.data@.len() ==> price_in_range(#[trigger] self.data@[i].price))
        &&& self.sum == sum_prices(self.prices())
        &&& self.squared_sum == sum_squares(self.prices())
        &&& self.max_price == max_price_of(self.prices())
        &&& self.min_price == min_price_of(self.prices())
    }
}

/// A sum of at most `len` in-range prices stays within `len * PRICE_LIMIT`.
pub proof fn lemma_sum_prices_bound(s: Seq<i64>)
    requires
        forall|i: int| 0 <= i < s.len() ==> price_in_range(#[trigger] s[i]),
    ensures
        -(s.len() * PRICE_LIMIT) <= sum_prices(s) <= s.len() * PRICE_LIMIT,
    decreases s.len(),
{
    if s.len() > 0 {
        lemma_sum_prices_bound(s.drop_last());
    }
}

/// A sum of at most `len` squares of in-range prices stays within
/// `len * PRICE_LIMIT * PRICE_LIMIT`.
pub proof fn lemma_sum_squares_bound(s: Seq<i64>)
    requires
        forall|i: int| 0 <= i < s.len() ==> price_in_range(#[trigger] s[i]),
    ensures
        0 <= sum_squares(s) <= s.len() * (PRICE_LIMIT as int * PRICE_LIMIT as int),
    decreases s.len(),
{
    if s.len() > 0 {
        lemma_sum_squares_bound(s.drop_last());
        let l = s.last();
        assert(0 <= (l as int) * (l as int) <= PRICE_LIMIT as int * PRICE_LIMIT as int)
            by (nonlinear_arith)
            requires
                -PRICE_LIMIT <= l <= PRICE_LIMIT,
        ;
    }
}

/// Extending a prefix by one element extends each aggregate by that element.
pub proof fn lemma_aggregates_take_one_more(s: Seq<i64>, i: int)
    requires
        0 <= i < s.len(),
    ensures
        sum_prices(s.take(i + 1)) == sum_prices(s.take(i)) + s[i],
        sum_squares(s.take(i + 1)) == sum_squares(s.take(i)) + (s[i] as int) * (s[i] as int),
        i == 0 ==> max_price_of(s.take(1)) == s[0] && min_price_of(s.take(1)) == s[0],
        i >= 1 ==> max_price_of(s.take(i + 1)) == if s[i] as int > max_price_of(s.take(i)) {
            s[i] as int
        } else {
            max_price_of(s.take(i))
        },
        i >= 1 ==> min_price_of(s.take(i + 1)) == if (s[i] as int) < min_price_of(s.take(i)) {
            s[i] as int
        } else {
            min_price_of(s.take(i))
        },
{
    let t = s.take(i + 1);
    assert(t.drop_last() =~= s.take(i));
    assert(t.last() == s[i]);
    if i == 0 {
        assert(s.take(0) =~= Seq::<i64>::empty());
        assert(sum_prices(Seq::<i64>::empty()) == 0);
        assert(sum_squares(Seq::<i64>::empty()) == 0);
    }
}

/// Adding one in-range price keeps the running sums within the ranges that
/// `MAX_POINTS` and `PRICE_LIMIT` guarantee.
proof fn lemma_running_sum_bounds(cur_sum: int, cur_sq: int, p: int, i: int)
    by (nonlinear_arith)
    requires
        -(i * PRICE_LIMIT) <= cur_sum <= i * PRICE_LIMIT,
        0 <= cur_sq <= i * (PRICE_LIMIT as int * PRICE_LIMIT as int),
        -PRICE_LIMIT <= p <= PRICE_LIMIT,
        0 <= i < MAX_POINTS,
    ensures
        -((i + 1) * PRICE_LIMIT) <= cur_sum + p <= (i + 1) * PRICE_LIMIT,
        i64::MIN <= cur_sum + p <= i64::MAX,
        0 <= cur_sq + p * p <= (i + 1) * (PRICE_LIMIT as int * PRICE_LIMIT as int),
        cur_sq + p * p <= i128::MAX,
{
}

impl PriceChart {
    /// Builds a series from observations, computing all four aggregates in
    /// one pass. Rejects an empty or oversized list and out-of-range prices.
    pub fn new(input_data: &Vec<DataPoint>) -> (r: Result<PriceChart, ChartError>)
        ensures
            r matches Err(e) ==> series_error(input_data@) == Some(e),
            r matches Ok(c) ==> series_error(input_data@) is None && c.data@ == input_data@
                && c.wf() && !c.refresh_chart,
    {
        let n = input_data.len();
        if n == 0 {
            return Err(ChartError::EmptySeries);
        }
        if n > MAX_POINTS {
            return Err(ChartError::TooManyPoints);
        }
        let ghost ps = input_data@.map_values(|dp: DataPoint| dp.price);
        let mut i: usize = 0;
        while i < n
            invariant
                n == input_data@.len(),
                1 <= n <= MAX_POINTS,
                0 <= i <= n,
                ps == input_data@.map_values(|dp: DataPoint| dp.price),
                forall|j: int| 0 <= j < i ==> price_in_range(#[trigger] input_data@[j].price),
            decreases n - i,
        {
            let p = input_data[i].price;
            if p < -PRICE_LIMIT || p > PRICE_LIMIT {
                proof {
                    assert(!price_in_range(input_data@[i as int].price));
                }
                return Err(ChartError::PriceOutOfRange);
            }
            i = i + 1;
        }
        let mut sum: i64 = 0;
        let mut squared_sum: i128 = 0;
        let mut max_price: i64 = input_data[0].price;
        let mut min_price: i64 = input_data[0].price;
        let mut i: usize = 1;
        let first = input_data[0].price;
        proof {
            lemma_aggregates_take_one_more(ps, 0);
            assert(0 <= (first as int) * (first as int) <= PRICE_LIMIT as int * PRICE_LIMIT as int)
                by (nonlinear_arith)
                requires
                    -PRICE_LIMIT <= first <= PRICE_LIMIT,
            ;
        }
        sum = first;
        squared_sum = (first as i128) * (first as i128);
        while i < n
            invariant
                n == input_data@.len(),
                1 <= i <= n,
                n <= MAX_POINTS,
                ps == input_data@.map_values(|dp: DataPoint| dp.price),
                forall|j: int| 0 <= j < n ==> price_in_range(#[trigger] input_data@[j].price),
                sum == sum_prices(ps.take(i as int)),
                squared_sum == sum_squares(ps.take(i as int)),
                max_price == max_price_of(ps.take(i as int)),
                min_price == min_price_of(ps.take(i as int)),
                -((i as int) * PRICE_LIMIT) <= sum <= (i as int) * PRICE_LIMIT,
                0 <= squared_sum <= (i as int) * (PRICE_LIMIT as int * PRICE_LIMIT as int),
                -PRICE_LIMIT <= min_price <= PRICE_LIMIT,
                -PRICE_LIMIT <= max_price <= PRICE_LIMIT,
            decreases n - i,
        {
            let p = input_data[i].price;
            proof {
                lemma_aggregates_take_one_more(ps, i as int);
                assert(ps[i as int] == input_data@[i as int].price);
                lemma_running_sum_bounds(sum as int, squared_sum as int, p as int, i as int);
            }
            sum = sum + p;
            squared_sum = squared_sum + (p as i128) * (p as i128);
            if p > max_price {
                max_price = p;
            }
            if p < min_price {
                min_price = p;
            }
            i = i + 1;
        }
        proof {
            assert(ps.take(n as int) =~= ps);
        }
        Ok(PriceChart {
            data: input_data.clone(),
            squared_sum,
            sum,
            max_price,
            min_price,
            refresh_chart: false,
        })
    }
}

/// Replacing one price changes each sum by the difference its element
/// contributes.
pub proof fn lemma_sums_after_update(s: Seq<i64>, i: int, v: i64)
    requires
        0 <= i < s.len(),
    ensures
        sum_prices(s.update(i, v)) == sum_prices(s) - s[i] + v,
        sum_squares(s.update(i, v)) == sum_squares(s) - (s[i] as int) * (s[i] as int) + (
        v as int) * (v as int),
    decreases s.len(),
{
    let t = s.update(i, v);
    if i == s.len() - 1 {
        assert(t.drop_last() =~= s.drop_last());
        assert(t.last() == v);
    } else {
        assert(t.drop_last() =~= s.drop_last().update(i, v));
        assert(t.last() == s.last());
        lemma_sums_after_update(s.drop_last(), i, v);
    }
}

/// The prices of a series, one dated observation per input price, dates
/// advancing one day at a time from the starting date.
pub open spec fn synth_points(prices: Seq<i64>, start: Date) -> Seq<DataPoint> {
    Seq::new(
        prices.len(),
        |i: int| DataPoint { price: prices[i], date: Date { days: (start.days + i) as i64 } },
    )
}

/// The eight observations a fresh chart starts from.
pub open spec fn default_prices() -> Seq<i64> {
    seq![
        113_000_000i64,
        116_500_000i64,
        137_000_000i64,
        145_300_000i64,
        101_320_000i64,
        104_330_000i64,
        120_320_000i64,
        100_400_000i64,
    ]
}

impl PriceChart {
    /// Recomputes the smallest and largest current price by a full scan.
    fn scan_extremes(data: &Vec<DataPoint>) -> (r: (i64, i64))
        requires
            1 <= data@.len(),
        ensures
            r.0 == min_price_of(data@.map_values(|dp: DataPoint| dp.price)),
            r.1 == max_price_of(data@.map_values(|dp: DataPoint| dp.price)),
    {
        let ghost ps = data@.map_values(|dp: DataPoint| dp.price);
        let n = data.len();
        let mut min_price: i64 = data[0].price;
        let mut max_price: i64 = data[0].price;
        let mut i: usize = 1;
        proof {
            lemma_aggregates_take_one_more(ps, 0);
        }
        while i < n
            invariant
                n == data@.len(),
                1 <= i <= n,
                ps == data@.map_values(|dp: DataPoint| dp.price),
                max_price == max_price_of(ps.take(i as int)),
                min_price == min_price_of(ps.take(i as int)),
            decreases n - i,
        {
            let p = data[i].price;
            proof {
                lemma_aggregates_take_one_more(ps, i as int);
                assert(ps[i as int] == data@[i as int].price);
            }
            if p > max_price {
                max_price = p;
            }
            if p < min_price {
                min_price = p;
            }
            i = i + 1;
        }
        proof {
            assert(ps.take(n as int) =~= ps);
        }
        (min_price, max_price)
    }

    /// Replaces the price at `index`: the two sums are adjusted in O(1) by
    /// the difference the element contributes, then the minimum and maximum
    /// are refreshed by a full O(n) rescan. Rejects a bad index or an
    /// out-of-range price and leaves the series unmodified in that case.
    pub fn change_price(&mut self, index: usize, new_price: i64) -> (r: Result<(), ChartError>)
        requires
            old(self).wf(),
        ensures
            r is Ok <==> index < old(self).data@.len() && price_in_range(new_price),
            r matches Err(e) ==> *final(self) == *old(self) && e == (
            if index >= old(self).data@.len() {
                ChartError::IndexOutOfRange
            } else {
                ChartError::PriceOutOfRange
            }),
            r is Ok ==> final(self).wf() && final(self).data@ == old(self).data@.update(
                index as int,
                DataPoint { price: new_price, date: old(self).data@[index as int].date },
            ) && final(self).sum == old(self).sum + new_price - old(self).data@[
                index as int
            ].price && final(self).squared_sum == old(self).squared_sum + (new_price as int) * (
            new_price as int) - (old(self).data@[index as int].price as int) * (old(self).data@[
                index as int
            ].price as int) && final(self).refresh_chart == old(self).refresh_chart,
    {
        if index >= self.data.len() {
            return Err(ChartError::IndexOutOfRange);
        }
        if new_price < -PRICE_LIMIT || new_price > PRICE_LIMIT {
            return Err(ChartError::PriceOutOfRange);
        }
        let ghost ps = self.data@.map_values(|dp: DataPoint| dp.price);
        let ghost nps = ps.update(index as int, new_price);
        let current = self.data[index].price;
        proof {
            assert(ps[index as int] == current);
            lemma_sums_after_update(ps, index as int, new_price);
            assert(forall|j: int| 0 <= j < ps.len() ==> price_in_range(#[trigger] ps[j]));
            assert(forall|j: int| 0 <= j < nps.len() ==> price_in_range(#[trigger] nps[j]));
            lemma_sum_prices_bound(nps);
            lemma_sum_squares_bound(nps);
            lemma_sum_squares_bound(ps);
            assert(-1_000_000_000_000_000_000int <= sum_prices(nps) && sum_prices(nps)
                <= 1_000_000_000_000_000_000int) by (nonlinear_arith)
                requires
                    -(nps.len() * PRICE_LIMIT) <= sum_prices(nps) <= nps.len() * PRICE_LIMIT,
                    nps.len() <= 1_000_000,
            ;
            assert(sum_squares(nps) <= 1_000_000_000_000_000_000_000_000_000_000int)
                by (nonlinear_arith)
                requires
                    sum_squares(nps) <= nps.len() * (PRICE_LIMIT as int * PRICE_LIMIT as int),
                    nps.len() <= 1_000_000,
            ;
            assert(sum_squares(ps) <= 1_000_000_000_000_000_000_000_000_000_000int)
                by (nonlinear_arith)
                requires
                    sum_squares(ps) <= ps.len() * (PRICE_LIMIT as int * PRICE_LIMIT as int),
                    ps.len() <= 1_000_000,
            ;
            assert(0 <= (current as int) * (current as int) <= PRICE_LIMIT as int
                * PRICE_LIMIT as int) by (nonlinear_arith)
                requires
                    -PRICE_LIMIT <= current <= PRICE_LIMIT,
            ;
            assert(0 <= (new_price as int) * (new_price as int) <= PRICE_LIMIT as int
                * PRICE_LIMIT as int) by (nonlinear_arith)
                requires
                    -PRICE_LIMIT <= new_price <= PRICE_LIMIT,
            ;
        }
        let wide_sum: i128 = (self.sum as i128) + (new_price as i128) - (current as i128);
        self.sum = wide_sum as i64;
        self.squared_sum = self.squared_sum + (new_price as i128) * (new_price as i128) - (
        current as i128) * (current as i128);
        let date = self.data[index].date;
        self.data.set(index, DataPoint { price: new_price, date });
        proof {
            assert(self.data@.map_values(|dp: DataPoint| dp.price) =~= nps);
        }
        let (min_price, max_price) = Self::scan_extremes(&self.data);
        self.min_price = min_price;
        self.max_price = max_price;
        Ok(())
    }

    /// Population variance of the prices: `squared_sum/n - (sum/n)²`, held
    /// exactly as the integer quotient `(n·squared_sum - sum²) / n²` in
    /// squared fixed-point units. Never negative, and exactly zero for a
    /// series of identical prices.
    pub fn variance(&self) -> (v: i128)
        requires
            self.wf(),
        ensures
            v == (self.data@.len() * self.squared_sum - self.sum * self.sum) / (self.data@.len()
                as int * self.data@.len() as int),
            v >= 0,
            (forall|i: int|
                0 <= i < self.prices().len() ==> #[trigger] self.prices()[i]
                    == self.prices()[0]) ==> v == 0,
    {
        let n: i128 = self.data.len() as i128;
        proof {
            if forall|i: int|
                0 <= i < self.prices().len() ==> #[trigger] self.prices()[i]
                    == self.prices()[0] {
                lemma_variance_zero_for_constant(self.prices(), self.prices()[0]);
            }
            lemma_sum_prices_bound(self.prices());
            lemma_sum_squares_bound(self.prices());
            lemma_variance_nonneg(self.prices());
            assert(self.prices().len() == self.data@.len());
            assert(n * self.squared_sum <= 1_000_000_000_000_000_000_000_000_000_000_000_000i128
                && n * self.squared_sum >= 0) by (nonlinear_arith)
                requires
                    1 <= n <= 1_000_000,
                    0 <= self.squared_sum <= 1_000_000_000_000_000_000_000_000_000_000i128,
            ;
            assert(0 <= (self.sum as int) * (self.sum as int)
                <= 1_000_000_000_000_000_000_000_000_000_000_000_000int) by (nonlinear_arith)
                requires
                    -1_000_000_000_000_000_000 <= self.sum <= 1_000_000_000_000_000_000,
            ;
            assert(1 <= n * n <= 1_000_000_000_000int) by (nonlinear_arith)
                requires
                    1 <= n <= 1_000_000,
            ;
        }
        let num: i128 = n * self.squared_sum - (self.sum as i128) * (self.sum as i128);
        let den: i128 = n * n;
        num / den
    }

    /// The latest chronological price: the spot price for pricing purposes.
    pub fn underlying_price(&self) -> (r: i64)
        requires
            self.wf(),
        ensures
            r == self.data@.last().price,
    {
        self.data[self.data.len() - 1].price
    }

    /// Builds a series from bare prices, fabricating dates that advance one
    /// day at a time from the starting date.
    pub fn from_prices_and_date(input_data: Vec<i64>, starting_date: Date) -> (r: Result<
        PriceChart,
        ChartError,
    >)
        requires
            starting_date.days + input_data@.len() <= i64::MAX,
        ensures
            r matches Err(e) ==> series_error(synth_points(input_data@, starting_date)) == Some(
                e,
            ),
            r matches Ok(c) ==> series_error(synth_points(input_data@, starting_date)) is None
                && c.data@ == synth_points(input_data@, starting_date) && c.wf()
                && !c.refresh_chart,
    {
        let n = input_data.len();
        if n == 0 {
            return Err(ChartError::EmptySeries);
        }
        if n > MAX_POINTS {
            return Err(ChartError::TooManyPoints);
        }
        let mut points: Vec<DataPoint> = Vec::new();
        let mut i: usize = 0;
        while i < n
            invariant
                n == input_data@.len(),
                1 <= n <= MAX_POINTS,
                starting_date.days + n <= i64::MAX,
                0 <= i <= n,
                points@.len() == i,
                forall|j: int|
                    0 <= j < i ==> #[trigger] points@[j] == (DataPoint {
                        price: input_data@[j],
                        date: Date { days: (starting_date.days + j) as i64 },
                    }),
            decreases n - i,
        {
            let date = Date { days: starting_date.days + (i as i64) };
            points.push(DataPoint { price: input_data[i], date });
            i = i + 1;
        }
        proof {
            assert(points@ =~= synth_points(input_data@, starting_date));
        }
        PriceChart::new(&points)
    }
}

/// Chronological order of observations.
pub open spec fn sorted_by_date(s: Seq<DataPoint>) -> bool {
    forall|i: int, j: int|
        0 <= i < j < s.len() ==> #[trigger] s[i].date.days <= #[trigger] s[j].date.days
}

/// The observation an imported entry parses to (when both parses succeed).
pub open spec fn entry_point(e: (String, DailyPrice)) -> DataPoint {
    DataPoint {
        price: parse_fixed_result(e.1.close@)->Some_0,
        date: parse_iso_result(e.0@)->Some_0,
    }
}

/// The first parse failure among imported entries, scanned in order: a date
/// that names no calendar day, or a closing price that is no decimal number
/// in range.
pub open spec fn entries_error(es: Seq<(String, DailyPrice)>) -> Option<ChartError>
    decreases es.len(),
{
    if es.len() == 0 {
        None
    } else if parse_iso_result(es[0].0@) is None {
        Some(ChartError::InvalidDate)
    } else if parse_fixed_result(es[0].1.close@) is None {
        Some(ChartError::InvalidPrice)
    } else {
        entries_error(es.skip(1))
    }
}

/// The observations of an imported series, in the order received.
pub open spec fn parsed_points(es: Seq<(String, DailyPrice)>) -> Seq<DataPoint> {
    Seq::new(es.len(), |i: int| entry_point(es[i]))
}

/// Why an import cannot form a series, if it cannot: a parse failure, or a
/// series that would be empty or oversized.
pub open spec fn import_error(es: Seq<(String, DailyPrice)>) -> Option<ChartError> {
    match entries_error(es) {
        Some(e) => Some(e),
        None => if es.len() == 0 {
            Some(ChartError::EmptySeries)
        } else if es.len() > MAX_POINTS {
            Some(ChartError::TooManyPoints)
        } else {
            None
        },
    }
}

/// Inserts an observation before the first later-dated one, keeping the
/// list chronological.
fn insert_sorted(out: &mut Vec<DataPoint>, dp: DataPoint)
    requires
        sorted_by_date(old(out)@),
    ensures
        sorted_by_date(final(out)@),
        final(out)@.to_multiset() == old(out)@.to_multiset().insert(dp),
        final(out)@.len() == old(out)@.len() + 1,
        forall|j: int|
            0 <= j < final(out)@.len() ==> final(out)@[j] == dp || old(out)@.contains(
                #[trigger] final(out)@[j],
            ),
{
    let n = out.len();
    let mut pos: usize = 0;
    while pos < n && out[pos].date.days <= dp.date.days
        invariant
            n == out@.len(),
            0 <= pos <= n,
            sorted_by_date(out@),
            forall|j: int| 0 <= j < pos ==> #[trigger] out@[j].date.days <= dp.date.days,
        decreases n - pos,
    {
        pos = pos + 1;
    }
    let ghost before = out@;
    out.insert(pos, dp);
    proof {
        before.insert_ensures(pos as int, dp);
        assert forall|i: int, j: int| 0 <= i < j < out@.len() implies #[trigger] out@[i].date.days
            <= #[trigger] out@[j].date.days by {
            if j < pos {
            } else if j == pos {
                assert(out@[i] == before[i]);
            } else if i == pos {
                assert(out@[j] == before[j - 1]);
                assert(before[pos as int].date.days > dp.date.days);
                if pos < j - 1 {
                    assert(before[pos as int].date.days <= before[j - 1].date.days);
                }
            } else if i < pos {
                assert(out@[i] == before[i]);
                assert(out@[j] == before[j - 1]);
                if i < j - 1 {
                    assert(before[i].date.days <= before[j - 1].date.days);
                }
            } else {
                assert(out@[i] == before[i - 1]);
                assert(out@[j] == before[j - 1]);
            }
        }
        assert forall|j: int| 0 <= j < out@.len() implies out@[j] == dp || before.contains(
            #[trigger] out@[j],
        ) by {
            if j < pos {
                assert(out@[j] == before[j]);
            } else if j > pos {
                assert(out@[j] == before[j - 1]);
            }
        }
    }
}

impl PriceChart {
    /// Builds a series from an imported daily time series: parses each date
    /// and closing price, sorts the observations chronologically, and
    /// computes the aggregates. A malformed date or price is a hard error
    /// and names the first failing kind in scan order.
    pub fn from_json(raw_data: StockData) -> (r: Result<PriceChart, ChartError>)
        ensures
            r matches Err(e) ==> import_error(raw_data.time_series@) == Some(e),
            r matches Ok(c) ==> import_error(raw_data.time_series@) is None && c.wf()
                && !c.refresh_chart && sorted_by_date(c.data@) && c.data@.to_multiset()
                == parsed_points(raw_data.time_series@).to_multiset(),
    {
        let es = &raw_data.time_series;
        let n = es.len();
        let mut pts: Vec<DataPoint> = Vec::new();
        let mut i: usize = 0;
        proof {
            assert(es@.skip(0) =~= es@);
            assert(parsed_points(es@.take(0)) =~= Seq::<DataPoint>::empty());
            assert(pts@.to_multiset() =~= parsed_points(es@.take(0)).to_multiset());
        }
        while i < n
            invariant
                n == es@.len(),
                es@ == raw_data.time_series@,
                0 <= i <= n,
                pts@.len() == i,
                sorted_by_date(pts@),
                pts@.to_multiset() == parsed_points(es@.take(i as int)).to_multiset(),
                entries_error(es@) == entries_error(es@.skip(i as int)),
                forall|j: int| 0 <= j < pts@.len() ==> price_in_range(#[trigger] pts@[j].price),
            decreases n - i,
        {
            proof {
                assert(es@.skip(i as int)[0] == es@[i as int]);
            }
            let date = match Date::parse_iso(es[i].0.as_str()) {
                Some(d) => d,
                None => {
                    return Err(ChartError::InvalidDate);
                },
            };
            let price = match crate::parse::parse_fixed(es[i].1.close.as_str()) {
                Some(p) => p,
                None => {
                    return Err(ChartError::InvalidPrice);
                },
            };
            let dp = DataPoint { price, date };
            proof {
                assert(es@.skip(i as int).skip(1) =~= es@.skip(i as int + 1));
                assert(dp == entry_point(es@[i as int]));
                assert(parsed_points(es@.take(i as int + 1)) =~= parsed_points(
                    es@.take(i as int),
                ).push(entry_point(es@[i as int])));
            }
            insert_sorted(&mut pts, dp);
            i = i + 1;
        }
        proof {
            assert(es@.take(n as int) =~= es@);
            assert(es@.skip(n as int) =~= Seq::<(String, DailyPrice)>::empty());
        }
        match PriceChart::new(&pts) {
            Ok(c) => Ok(c),
            Err(e) => {
                proof {
                    if e == ChartError::PriceOutOfRange {
                        assert(exists|j: int|
                            0 <= j < pts@.len() && !price_in_range(#[trigger] pts@[j].price));
                        assert(false);
                    }
                }
                Err(e)
            },
        }
    }
}

/// The square deviation of a price list from any value is never negative:
/// `Σ(xᵢ - y)² = Σxᵢ² + n·y² - 2·y·Σxᵢ ≥ 0`.
pub proof fn lemma_sq_dev_nonneg(s: Seq<i64>, y: int)
    ensures
        sum_squares(s) + s.len() * (y * y) - 2 * y * sum_prices(s) >= 0,
    decreases s.len(),
{
    if s.len() > 0 {
        let t = s.drop_last();
        let l = s.last() as int;
        lemma_sq_dev_nonneg(t, y);
        assert(sum_squares(s) + s.len() * (y * y) - 2 * y * sum_prices(s) >= 0)
            by (nonlinear_arith)
            requires
                sum_squares(s) == sum_squares(t) + l * l,
                sum_prices(s) == sum_prices(t) + l,
                s.len() == t.len() + 1,
                sum_squares(t) + t.len() * (y * y) - 2 * y * sum_prices(t) >= 0,
        ;
    }
}

/// The variance numerator is never negative: `n·Σxᵢ² ≥ (Σxᵢ)²`, so the
/// population variance of any series is at least zero.
pub proof fn lemma_variance_nonneg(s: Seq<i64>)
    ensures
        s.len() * sum_squares(s) - sum_prices(s) * sum_prices(s) >= 0,
    decreases s.len(),
{
    if s.len() > 0 {
        let t = s.drop_last();
        let l = s.last() as int;
        lemma_variance_nonneg(t);
        lemma_sq_dev_nonneg(t, l);
        assert(s.len() * sum_squares(s) - sum_prices(s) * sum_prices(s) >= 0)
            by (nonlinear_arith)
            requires
                sum_squares(s) == sum_squares(t) + l * l,
                sum_prices(s) == sum_prices(t) + l,
                s.len() == t.len() + 1,
                t.len() * sum_squares(t) - sum_prices(t) * sum_prices(t) >= 0,
                sum_squares(t) + t.len() * (l * l) - 2 * l * sum_prices(t) >= 0,
        ;
    }
}

/// A series of identical prices has variance exactly zero: its variance
/// numerator `n·Σxᵢ² - (Σxᵢ)²` vanishes.
pub proof fn lemma_variance_zero_for_constant(s: Seq<i64>, c: i64)
    requires
        forall|i: int| 0 <= i < s.len() ==> s[i] == c,
    ensures
        sum_prices(s) == s.len() * c,
        sum_squares(s) == s.len() * ((c as int) * (c as int)),
        s.len() * sum_squares(s) == sum_prices(s) * sum_prices(s),
    decreases s.len(),
{
    let n = s.len() as int;
    if s.len() == 0 {
        assert(n * c == 0) by (nonlinear_arith)
            requires
                n == 0,
        ;
        assert(n * ((c as int) * (c as int)) == 0) by (nonlinear_arith)
            requires
                n == 0,
        ;
    } else {
        let t = s.drop_last();
        lemma_variance_zero_for_constant(t, c);
        assert(s.last() == c);
        assert(sum_prices(s) == s.len() * c) by (nonlinear_arith)
            requires
                sum_prices(s) == sum_prices(t) + c,
                sum_prices(t) == t.len() * c,
                s.len() == t.len() + 1,
        ;
        assert(sum_squares(s) == s.len() * ((c as int) * (c as int))) by (nonlinear_arith)
            requires
                sum_squares(s) == sum_squares(t) + (c as int) * (c as int),
                sum_squares(t) == t.len() * ((c as int) * (c as int)),
                s.len() == t.len() + 1,
        ;
    }
    assert(s.len() * (s.len() * ((c as int) * (c as int))) == (s.len() * c) * (s.len() * c))
        by (nonlinear_arith);
}

impl Default for PriceChart {
    /// A fresh chart: eight fixed observations dated daily from 2025-01-03.
    fn default() -> (r: PriceChart)
        ensures
            r.data@ == synth_points(
                default_prices(),
                Date { days: day_number(2025, 1, 3) as i64 },
            ),
            r.wf(),
            !r.refresh_chart,
    {
        let prices: Vec<i64> = vec![
            113_000_000,
            116_500_000,
            137_000_000,
            145_300_000,
            101_320_000,
            104_330_000,
            120_320_000,
            100_400_000,
        ];
        let date = match Date::from_ymd(2025, 1, 3) {
            Some(d) => d,
            None => unreached(),
        };
        proof {
            assert(prices@ =~= default_prices());
            let pts = synth_points(default_prices(), date);
            assert(forall|j: int| 0 <= j < pts.len() ==> price_in_range(#[trigger] pts[j].price));
            assert(series_error(pts) is None);
        }
        match PriceChart::from_prices_and_date(prices, date) {
            Ok(c) => c,
            Err(_) => unreached(),
        }
    }
}

} // verus!
