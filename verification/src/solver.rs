//! Bisection search for implied volatility.
//!
//! The solver halves a volatility bracket: at each step the closed-form call
//! price at the bracket midpoint is compared against the observed market
//! price, and the half that still contains the crossing is kept. The
//! evaluation of the closed-form price is the caller's (it needs the normal
//! distribution); every decision — the halving, the bracket invariant, the
//! convergence test and the iteration bound — is here, proved.

use vstd::prelude::*;

use crate::monte_carlo::MonteCarloPricing;

verus! {

/// Lower end of the initial volatility bracket: 0.01 in fixed point.
pub const SIGMA_LOW: i64 = 10_000;

/// Upper end of the initial volatility bracket: 2.0 in fixed point.
pub const SIGMA_HIGH: i64 = 2_000_000;

/// Bracket width at or below which the search has converged: 0.0001.
pub const TOLERANCE: i64 = 100;

/// Number of halvings that always suffices to converge from the initial
/// bracket.
pub const MAX_BISECTION_STEPS: u32 = 15;

/// A volatility bracket `[low, high]` inside the searched range.
#[derive(Debug, Clone, Copy, PartialEq, Eq, Structural)]
pub struct VolBracket {
    pub low: i64,
    pub high: i64,
}

impl VolBracket {
    /// An ordered bracket within the searched volatility range.
    pub open spec fn wf(&self) -> bool {
        0 <= self.low <= self.high <= SIGMA_HIGH
    }

    /// Width of the bracket.
    pub open spec fn width(&self) -> int {
        self.high - self.low
    }

    /// Midpoint of the bracket.
    pub open spec fn mid_spec(&self) -> int {
        (self.low + self.high) as int / 2
    }

    /// The bracket the search starts from.
    pub fn start() -> (r: VolBracket)
        ensures
            r.low == SIGMA_LOW,
            r.high == SIGMA_HIGH,
            r.wf(),
    {
        VolBracket { low: SIGMA_LOW, high: SIGMA_HIGH }
    }

    /// The midpoint: the candidate volatility, and the estimate once the
    /// bracket has converged.
    pub fn mid(&self) -> (r: i64)
        requires
            self.wf(),
        ensures
            r == self.mid_spec(),
            self.low <= r <= self.high,
    {
        (self.low + self.high) / 2
    }

    /// Whether the bracket is narrow enough to stop.
    pub fn converged(&self) -> (r: bool)
        requires
            self.wf(),
        ensures
            r == (self.width() <= TOLERANCE),
    {
        self.high - self.low <= TOLERANCE
    }
}

/// One halving of a bracket: keep the lower half when the price at the
/// midpoint was above the market price, the upper half otherwise.
pub open spec fn bisection_step_spec(b: VolBracket, price_above_market: bool) -> VolBracket {
    if price_above_market {
        VolBracket { low: b.low, high: b.mid_spec() as i64 }
    } else {
        VolBracket { low: b.mid_spec() as i64, high: b.high }
    }
}

/// The bracket after answering a whole sequence of midpoint comparisons,
/// oldest first.
pub open spec fn run_bisection(b: VolBracket, responses: Seq<bool>) -> VolBracket
    decreases responses.len(),
{
    if responses.len() == 0 {
        b
    } else {
        bisection_step_spec(run_bisection(b, responses.drop_last()), responses.last())
    }
}

/// The width bound after `k` halvings, each rounding up.
pub open spec fn ceil_half_iter(w: int, k: nat) -> int
    decreases k,
{
    if k == 0 {
        w
    } else {
        (ceil_half_iter(w, (k - 1) as nat) + 1) / 2
    }
}

impl MonteCarloPricing {
    /// Whether the initial bracket contains the crossing at all: the
    /// closed-form prices at the bracket ends must straddle the market
    /// price, else the search would converge to a boundary that does not
    /// match it. `low_price` and `high_price` are the closed-form call
    /// prices at the low and high end.
    pub fn crossing_bracketed(&self, low_price: i64, high_price: i64) -> (r: bool)
        ensures
            r == (low_price <= self.market_option_price < high_price),
    {
        low_price <= self.market_option_price && self.market_option_price < high_price
    }

    /// One step of the implied-volatility search: `mid_price` is the
    /// closed-form call price at the bracket midpoint; the half kept is
    /// decided against this model's market option price.
    pub fn implied_volatility_step(&self, b: VolBracket, mid_price: i64) -> (r: VolBracket)
        requires
            b.wf(),
        ensures
            r == bisection_step_spec(b, mid_price > self.market_option_price),
            r.wf(),
            b.low <= r.low && r.high <= b.high,
            2 * r.width() <= b.width() + 1,
            b.width() >= 2 ==> r.width() < b.width(),
    {
        let mid = b.mid();
        if mid_price > self.market_option_price {
            VolBracket { low: b.low, high: mid }
        } else {
            VolBracket { low: mid, high: b.high }
        }
    }
}

/// A step keeps the crossing bracketed: if the pricing function is below or
/// at the target on the low end and above it on the high end, the kept half
/// still is. No monotonicity is needed for this.
pub proof fn lemma_step_preserves_crossing(
    f: spec_fn(int) -> int,
    target: int,
    b: VolBracket,
    above: bool,
)
    requires
        b.wf(),
        above == (f(b.mid_spec()) > target),
        f(b.low as int) <= target,
        target < f(b.high as int),
    ensures
        f(bisection_step_spec(b, above).low as int) <= target,
        target < f(bisection_step_spec(b, above).high as int),
{
}

/// Any run of steps whose answers compare the midpoint price against the
/// target keeps the crossing bracketed.
pub proof fn lemma_run_preserves_crossing(f: spec_fn(int) -> int, target: int, b: VolBracket, responses: Seq<bool>)
    requires
        b.wf(),
        f(b.low as int) <= target,
        target < f(b.high as int),
        forall|i: int|
            0 <= i < responses.len() ==> #[trigger] responses[i] == (f(
                run_bisection(b, responses.take(i)).mid_spec(),
            ) > target),
    ensures
        run_bisection(b, responses).wf(),
        f(run_bisection(b, responses).low as int) <= target,
        target < f(run_bisection(b, responses).high as int),
    decreases responses.len(),
{
    if responses.len() > 0 {
        let prefix = responses.drop_last();
        assert(prefix =~= responses.take(responses.len() - 1));
        assert(forall|i: int|
            0 <= i < prefix.len() ==> prefix.take(i) =~= responses.take(i) && #[trigger] prefix[i]
                == responses[i]);
        lemma_run_preserves_crossing(f, target, b, prefix);
        let cur = run_bisection(b, prefix);
        lemma_step_preserves_crossing(f, target, cur, responses.last());
    }
}

/// Each answered step keeps the bracket well formed and at most ceil-halves
/// its width.
proof fn lemma_run_width(b: VolBracket, responses: Seq<bool>)
    requires
        b.wf(),
    ensures
        run_bisection(b, responses).wf(),
        run_bisection(b, responses).width() <= ceil_half_iter(b.width(), responses.len()),
        0 <= run_bisection(b, responses).width(),
    decreases responses.len(),
{
    if responses.len() > 0 {
        lemma_run_width(b, responses.drop_last());
    }
}

/// The ceil-halving chain from the initial width is within tolerance after
/// fifteen or more steps.
proof fn lemma_ceil_iter_within_tolerance(k: nat)
    requires
        k >= 15,
    ensures
        ceil_half_iter(1_990_000, k) <= 100,
    decreases k,
{
    if k == 15 {
        reveal_with_fuel(ceil_half_iter, 16);
    } else {
        lemma_ceil_iter_within_tolerance((k - 1) as nat);
    }
}

/// Iteration bound: from the initial bracket, fifteen answered midpoint
/// comparisons always converge, whatever the answers. This is the safety cap
/// a driving loop may rely on.
pub proof fn lemma_bisection_terminates(responses: Seq<bool>)
    requires
        responses.len() >= MAX_BISECTION_STEPS,
    ensures
        run_bisection(
            VolBracket { low: SIGMA_LOW, high: SIGMA_HIGH },
            responses,
        ).width() <= TOLERANCE,
{
    let b = VolBracket { low: SIGMA_LOW, high: SIGMA_HIGH };
    lemma_run_width(b, responses);
    lemma_ceil_iter_within_tolerance(responses.len());
}

/// Recovery: when the pricing function is strictly increasing, its value at
/// some volatility is the target, and the crossing is bracketed, then that
/// volatility lies in the bracket — so once the bracket has converged, the
/// midpoint estimate is within tolerance of it.
pub proof fn lemma_implied_vol_recovery(
    f: spec_fn(int) -> int,
    target: int,
    sigma: int,
    b: VolBracket,
)
    requires
        b.wf(),
        b.width() <= TOLERANCE,
        forall|x: int, y: int| x < y ==> #[trigger] f(x) < #[trigger] f(y),
        f(b.low as int) <= target,
        target < f(b.high as int),
        f(sigma) == target,
    ensures
        b.low <= sigma < b.high,
        -TOLERANCE <= b.mid_spec() - sigma <= TOLERANCE,
{
    if sigma < b.low {
        assert(f(sigma) < f(b.low as int));
        assert(false);
    }
    if sigma >= b.high {
        if sigma > b.high {
            assert(f(b.high as int) < f(sigma));
        }
        assert(false);
    }
}

} // verus!
