//! Simulated swaps across a pool.
use vstd::prelude::*;

use crate::arith::{
    clamp_i256, compute_swap_step, get_sqrt_ratio_at_tick, has_rising_price, is_price,
    lies_between, max_sqrt_ratio, min_sqrt_ratio, sqrt_ratio_at_tick, swap_step, SwapStep,
    SwapStepView, MAX_TICK, MIN_TICK,
};
use crate::errors::{swap_failure, SwapFailure, SwapSimulationError};
use crate::liquidity_base::{
    can_go_on, gained_on_the_way, gained_on_the_way_adds_up, point_after_step,
    step_gains_the_nets, step_outcomes, ticks_can_be_crossed, LiquidityAtPoint, LiquidityView,
};
use crate::pool_state::FeeConfiguration;
use crate::ray::{ray_scale, Ray};
use crate::sqrt_price::SqrtPriceX96;
use crate::tick_bitmap::{next_tick_lies_in_direction, next_tick_within_word};
use crate::words::{
    half_256, i256_view_bound, modulus_256, I256, U256,
};

verus! {

/// The step of swapping across a pool up to one tick.
#[derive(Clone, Copy, Debug, PartialEq, Eq, Structural)]
pub struct PoolSwapStep {
    pub end_tick: i32,
    pub init: bool,
    pub liquidity: u128,
    pub d_t0: u128,
    pub d_t1: u128,
}

impl PoolSwapStep {
    /// The price of token 0 in token 1 over the step, unless it moved
    /// nothing on one side.
    pub fn avg_price(&self) -> (r: Option<Ray>)
        ensures
            r is None <==> self.d_t0 == 0 || self.d_t1 == 0,
            r matches Some(price) ==> price@ == self.d_t1 as nat * ray_scale() / self.d_t0 as nat,
    {
        if self.empty() {
            None
        } else {
            Some(Ray::calc_price(U256::from_u128(self.d_t0), U256::from_u128(self.d_t1)))
        }
    }

    /// Whether the step moved nothing on one side.
    pub fn empty(&self) -> (r: bool)
        ensures
            r == (self.d_t0 == 0 || self.d_t1 == 0),
    {
        self.d_t0 == 0 || self.d_t1 == 0
    }
}

/// How much of token 0 the steps moved together.
pub open spec fn sum_t0(steps: Seq<PoolSwapStep>) -> nat
    decreases steps.len(),
{
    if steps.len() == 0 {
        0
    } else {
        sum_t0(steps.drop_last()) + steps.last().d_t0 as nat
    }
}

/// How much of token 1 the steps moved together.
pub open spec fn sum_t1(steps: Seq<PoolSwapStep>) -> nat
    decreases steps.len(),
{
    if steps.len() == 0 {
        0
    } else {
        sum_t1(steps.drop_last()) + steps.last().d_t1 as nat
    }
}

/// What does not change during a swap: the price that it stops at, whether it
/// sells token 0, whether the amount is what goes in, and the fee.
pub struct SwapTerms {
    pub limit: nat,
    pub direction: bool,
    pub exact_input: bool,
    pub fee: u32,
}

/// How far a swap has come.
#[verifier::ext_equal]
pub struct SwapProgress {
    pub point: LiquidityView,
    pub price: nat,
    pub remaining: int,
    pub steps: Seq<PoolSwapStep>,
}

/// What one step of a swap comes to. It is stopped where an amount does not
/// fit its type.
pub enum StepOutcome {
    Next(SwapProgress),
    Failed(SwapFailure),
    Stopped,
}

/// The number that the bits of a word spell out in two's complement.
pub open spec fn signed_word(n: nat) -> int {
    if n < half_256() {
        n as int
    } else {
        n - modulus_256()
    }
}

/// The price that a step aims at: that of the next tick, or the limit where
/// the limit comes first.
pub open spec fn step_target(terms: SwapTerms, price_next: nat) -> nat {
    if (terms.direction && price_next < terms.limit) || (!terms.direction && price_next
        > terms.limit) {
        terms.limit
    } else {
        price_next
    }
}

/// What a step does to the amount that remains, and how much of token 0 and of
/// token 1 it moves; nothing where an amount does not fit 128 bits. The fee is
/// always on the input side. An exact input shrinks by the input and the fee,
/// an exact output, which is negative, grows by the output.
pub open spec fn settled_step(
    direction: bool,
    exact_input: bool,
    remaining: int,
    step: SwapStepView,
) -> Option<(int, u128, u128)> {
    let paid = (step.amount_in + step.fee_amount) as int % modulus_256();
    let left = if exact_input {
        clamp_i256(
            clamp_i256(remaining - signed_word(step.amount_in)) - signed_word(step.fee_amount),
        )
    } else {
        clamp_i256(remaining + signed_word(step.amount_out))
    };
    if paid > u128::MAX || step.amount_out > u128::MAX {
        None
    } else if direction {
        Some((left, paid as u128, step.amount_out as u128))
    } else {
        Some((left, step.amount_out as u128, paid as u128))
    }
}

/// An exact input that a step does not exceed shrinks by what the step takes,
/// and an exact output that a step does not exceed by what it pays out.
proof fn settling_keeps_account(direction: bool, remaining: int, step: SwapStepView)
    requires
        -half_256() < remaining < half_256(),
        step.amount_in < modulus_256(),
        step.amount_out < modulus_256(),
        step.fee_amount < modulus_256(),
    ensures
        remaining >= 0 && step.amount_in + step.fee_amount <= remaining ==> (settled_step(
            direction,
            true,
            remaining,
            step,
        ) matches Some(settled) ==> settled.0 == remaining - (step.amount_in + step.fee_amount)
            && step.amount_in + step.fee_amount == if direction {
            settled.1
        } else {
            settled.2
        }),
        remaining < 0 && step.amount_out <= -remaining ==> (settled_step(
            direction,
            false,
            remaining,
            step,
        ) matches Some(settled) ==> settled.0 == remaining + step.amount_out && step.amount_out
            == if direction {
            settled.2
        } else {
            settled.1
        }),
{
    if remaining >= 0 && step.amount_in + step.fee_amount <= remaining {
        assert((step.amount_in + step.fee_amount) as int % modulus_256() == step.amount_in
            + step.fee_amount);
    }
}

/// Books one step of a swap: the amount that remains after it, and how much of
/// token 0 and of token 1 it moves, unless one of these does not fit 128 bits.
pub fn settle_step(direction: bool, exact_input: bool, remaining: I256, step: &SwapStep) -> (r:
    Option<(I256, u128, u128)>)
    ensures
        match settled_step(direction, exact_input, remaining@, step@) {
            Some(settled) => r matches Some(x) && (x.0@, x.1, x.2) == settled,
            None => r is None,
        },
{
    let left: I256 = if exact_input {
        // swap amount is positive so we sub
        let after_input: I256 = remaining.saturating_sub(&I256::from_raw(step.amount_in));
        after_input.saturating_sub(&I256::from_raw(step.fee_amount))
    } else {
        // we add as is neg
        remaining.saturating_add(&I256::from_raw(step.amount_out))
    };
    let paid: u128 = match step.amount_in.wrapping_add(&step.fee_amount).to_u128() {
        Some(paid) => paid,
        None => {
            return None;
        },
    };
    let received: u128 = match step.amount_out.to_u128() {
        Some(received) => received,
        None => {
            return None;
        },
    };
    if direction {
        Some((left, paid, received))
    } else {
        Some((left, received, paid))
    }
}

/// One step of a swap.
pub open spec fn swap_one_step(terms: SwapTerms, s: SwapProgress) -> StepOutcome {
    let next = next_tick_within_word(
        s.point.bitmap,
        s.point.tick as int,
        s.point.tick_spacing as int,
        terms.direction,
    );
    let price_next = sqrt_ratio_at_tick(next.0);
    let liquidity = s.point.liquidity;
    if s.point.tick_spacing <= 0 {
        StepOutcome::Failed(SwapFailure::InvalidTick)
    } else if s.remaining == -half_256() || terms.fee > 1_000_000 {
        StepOutcome::Stopped
    } else {
        match swap_step(s.price, step_target(terms, price_next), liquidity, s.remaining, terms.fee) {
            None => StepOutcome::Failed(SwapFailure::Math),
            Some(step) => match settled_step(
                terms.direction,
                terms.exact_input,
                s.remaining,
                step,
            ) {
                None => StepOutcome::Stopped,
                Some(settled) => match point_after_step(
                    s.point,
                    step.sqrt_price_next,
                    terms.direction,
                    step.sqrt_price_next == price_next,
                    step.sqrt_price_next != s.price,
                ) {
                    Err(failure) => StepOutcome::Failed(failure),
                    Ok(point) => StepOutcome::Next(
                        SwapProgress {
                            point,
                            price: step.sqrt_price_next,
                            remaining: settled.0,
                            steps: s.steps.push(
                                PoolSwapStep {
                                    end_tick: next.0,
                                    init: next.1,
                                    liquidity,
                                    d_t0: settled.1,
                                    d_t1: settled.2,
                                },
                            ),
                        },
                    ),
                },
            },
        }
    }
}

/// Whether a swap is over: nothing remains, or the price is at the limit.
pub open spec fn swap_over(terms: SwapTerms, s: SwapProgress) -> bool {
    s.remaining == 0 || s.price == terms.limit
}

/// What the steps of a swap come to.
pub enum WalkOutcome {
    Ended(SwapProgress),
    Failed(SwapFailure),
    Stopped,
    Unfinished,
}

/// What at most `n` steps of a swap come to.
pub open spec fn swap_walk(terms: SwapTerms, s: SwapProgress, n: nat) -> WalkOutcome
    decreases n,
{
    if swap_over(terms, s) {
        WalkOutcome::Ended(s)
    } else if n == 0 {
        WalkOutcome::Unfinished
    } else {
        match swap_one_step(terms, s) {
            StepOutcome::Next(after) => swap_walk(terms, after, (n - 1) as nat),
            StepOutcome::Failed(failure) => WalkOutcome::Failed(failure),
            StepOutcome::Stopped => WalkOutcome::Stopped,
        }
    }
}

/// More steps change nothing once a swap has come to something.
pub proof fn swap_walk_is_stable(terms: SwapTerms, s: SwapProgress, n: nat, m: nat)
    requires
        n <= m,
        !(swap_walk(terms, s, n) is Unfinished),
    ensures
        swap_walk(terms, s, m) == swap_walk(terms, s, n),
    decreases n,
{
    if !swap_over(terms, s) {
        match swap_one_step(terms, s) {
            StepOutcome::Next(after) => {
                swap_walk_is_stable(terms, after, (n - 1) as nat, (m - 1) as nat);
            },
            _ => {},
        }
    }
}

/// A swap to be simulated.
#[verifier::ext_equal]
pub struct PoolSwapView {
    pub liquidity: LiquidityView,
    pub target_price: Option<nat>,
    pub target_amount: int,
    pub direction: bool,
    pub fee_config: FeeConfiguration,
    pub is_bundle: bool,
}

/// What a simulated swap gives.
#[verifier::ext_equal]
pub struct PoolSwapResultView {
    pub fee_config: FeeConfiguration,
    pub start_price: nat,
    pub start_tick: i32,
    pub end_price: nat,
    pub end_tick: i32,
    pub total_d_t0: u128,
    pub total_d_t1: u128,
    pub steps: Seq<PoolSwapStep>,
    pub end_liquidity: LiquidityView,
    pub protocol_fee_amount: u128,
    pub protocol_fee_token: bool,
    pub is_bundle: bool,
}

/// What a swap comes to within a number of steps.
pub enum SwapOutcome {
    Finished(PoolSwapResultView),
    Failed(SwapFailure),
    Stopped,
    Unfinished,
}

/// The terms of a swap. Without a target price it stops one short of the end
/// of the price grid; bundles pay no swap fee.
pub open spec fn swap_terms(swap: PoolSwapView) -> SwapTerms {
    SwapTerms {
        limit: match swap.target_price {
            Some(price) => price,
            None => if swap.direction {
                min_sqrt_ratio() + 1
            } else {
                (max_sqrt_ratio() - 1) as nat
            },
        },
        direction: swap.direction,
        exact_input: swap.target_amount > 0,
        fee: if swap.is_bundle {
            0
        } else {
            swap.fee_config.swap_fee
        },
    }
}

/// Where a swap begins.
pub open spec fn swap_start(swap: PoolSwapView) -> SwapProgress {
    SwapProgress {
        point: swap.liquidity,
        price: swap.liquidity.sqrt_price,
        remaining: swap.target_amount,
        steps: Seq::empty(),
    }
}

/// The protocol fee on the total of the token that the amount was not given
/// in: a share of what comes out for an exact input, and what has to be added
/// on top of what goes in for an exact output. The rate is in millionths.
pub open spec fn protocol_fee_on(total: nat, rate: u32, exact_input: bool) -> int {
    if exact_input {
        (total * rate as nat) as int / 1_000_000
    } else {
        ((total * 1_000_000nat) as int / ((1_000_000 - rate) % modulus_256()) - total)
            % modulus_256()
    }
}

/// A number held at the largest 128-bit one.
pub open spec fn saturate_u128(n: int) -> u128 {
    if n > u128::MAX {
        u128::MAX
    } else {
        n as u128
    }
}

/// What a swap gives whose steps came to an end.
pub open spec fn swap_finish(swap: PoolSwapView, s: SwapProgress) -> SwapOutcome {
    let exact_input = swap.target_amount > 0;
    let total_t0 = sum_t0(s.steps);
    let total_t1 = sum_t1(s.steps);
    let total = if exact_input != swap.direction {
        total_t0
    } else {
        total_t1
    };
    if total_t0 > u128::MAX || total_t1 > u128::MAX {
        SwapOutcome::Stopped
    } else if !swap.is_bundle && !exact_input && swap.fee_config.protocol_fee == 1_000_000 {
        SwapOutcome::Stopped
    } else {
        SwapOutcome::Finished(
            PoolSwapResultView {
                fee_config: swap.fee_config,
                start_price: swap.liquidity.sqrt_price,
                start_tick: swap.liquidity.tick,
                end_price: s.price,
                end_tick: s.point.tick,
                total_d_t0: total_t0 as u128,
                total_d_t1: total_t1 as u128,
                steps: s.steps,
                end_liquidity: LiquidityView { sqrt_price: s.price, ..s.point },
                protocol_fee_amount: if swap.is_bundle {
                    0
                } else {
                    saturate_u128(
                        protocol_fee_on(total, swap.fee_config.protocol_fee, exact_input),
                    )
                },
                protocol_fee_token: !swap.is_bundle && swap.direction == exact_input,
                is_bundle: swap.is_bundle,
            },
        )
    }
}

/// Whether a swap is asked to end at a price on the wrong side.
pub open spec fn price_limit_diverges(swap: PoolSwapView) -> bool {
    swap.direction && swap.target_price is Some && swap.target_price->0 > swap.liquidity.sqrt_price
}

/// What a swap comes to within `n` steps.
pub open spec fn swap_outcome(swap: PoolSwapView, n: nat) -> SwapOutcome {
    if price_limit_diverges(swap) {
        SwapOutcome::Failed(SwapFailure::PriceLimit)
    } else {
        match swap_walk(swap_terms(swap), swap_start(swap), n) {
            WalkOutcome::Ended(s) => swap_finish(swap, s),
            WalkOutcome::Failed(failure) => SwapOutcome::Failed(failure),
            WalkOutcome::Stopped => SwapOutcome::Stopped,
            WalkOutcome::Unfinished => SwapOutcome::Unfinished,
        }
    }
}

/// Whether a swap came to a result or an error.
pub open spec fn is_settled(outcome: SwapOutcome) -> bool {
    outcome is Finished || outcome is Failed
}

/// Whether a swap comes to a result or an error after some number of steps,
/// with every amount on the way fitting its type.
pub open spec fn swap_settles(swap: PoolSwapView) -> bool {
    exists|n: nat| is_settled(#[trigger] swap_outcome(swap, n))
}

/// Whether an amount does not fit its type on the way of a swap.
pub open spec fn swap_stops(swap: PoolSwapView) -> bool {
    exists|n: nat| #[trigger] swap_outcome(swap, n) is Stopped
}

/// Whether a swap starts in order and its limit lies within the price grid.
pub open spec fn starts_in_grid(swap: PoolSwapView) -> bool {
    starts_in_order(swap) && min_sqrt_ratio() <= swap_terms(swap).limit <= max_sqrt_ratio()
}

/// Whether a swap can be simulated: every amount on the way fits its type, and
/// it starts in order within the price grid, or else comes to an end anyway.
pub open spec fn can_swap(swap: PoolSwapView) -> bool {
    swap_settles(swap) || (starts_in_grid(swap) && !swap_stops(swap))
}

/// Whether some number of steps leads from one point of a swap to another.
spec fn leads_to(terms: SwapTerms, from: SwapProgress, to: SwapProgress, n: nat) -> bool
    decreases n,
{
    if n == 0 {
        from == to
    } else {
        &&& !swap_over(terms, from)
        &&& swap_one_step(terms, from) matches StepOutcome::Next(after) && leads_to(
            terms,
            after,
            to,
            (n - 1) as nat,
        )
    }
}

/// One more step leads one step further.
proof fn leads_one_further(
    terms: SwapTerms,
    from: SwapProgress,
    to: SwapProgress,
    after: SwapProgress,
    n: nat,
)
    requires
        leads_to(terms, from, to, n),
        !swap_over(terms, to),
        swap_one_step(terms, to) == StepOutcome::Next(after),
    ensures
        leads_to(terms, from, after, n + 1),
    decreases n,
{
    if n == 0 {
        assert(leads_to(terms, after, after, 0));
    } else {
        let next = swap_one_step(terms, from)->Next_0;
        leads_one_further(terms, next, to, after, (n - 1) as nat);
    }
}

/// A swap comes to what it comes to from a point on its way.
proof fn walk_goes_on(terms: SwapTerms, from: SwapProgress, to: SwapProgress, n: nat, m: nat)
    requires
        leads_to(terms, from, to, n),
    ensures
        swap_walk(terms, from, n + m) == swap_walk(terms, to, m),
    decreases n,
{
    if n != 0 {
        let next = swap_one_step(terms, from)->Next_0;
        walk_goes_on(terms, next, to, (n - 1) as nat, m);
        assert((n + m - 1) as nat == (n - 1) as nat + m);
    }
}

/// How many ticks a swap can still cross.
spec fn ticks_ahead(tick: i32, direction: bool) -> nat {
    if direction {
        if tick < MIN_TICK {
            0
        } else {
            (tick - MIN_TICK + 1) as nat
        }
    } else {
        if tick >= MAX_TICK {
            0
        } else {
            (MAX_TICK - tick) as nat
        }
    }
}

/// A swap comes to one outcome, however many steps it is given.
pub proof fn swap_outcome_is_unique(swap: PoolSwapView, n: nat, m: nat)
    requires
        !(swap_outcome(swap, n) is Unfinished),
        !(swap_outcome(swap, m) is Unfinished),
    ensures
        swap_outcome(swap, n) == swap_outcome(swap, m),
{
    if !price_limit_diverges(swap) {
        if n <= m {
            swap_walk_is_stable(swap_terms(swap), swap_start(swap), n, m);
        } else {
            swap_walk_is_stable(swap_terms(swap), swap_start(swap), m, n);
        }
    }
}

/// Whatever number of steps a swap comes to something with, that is its outcome.
proof fn settled_outcome_is_the_only_one(swap: PoolSwapView, n: nat)
    requires
        is_settled(swap_outcome(swap, n)),
    ensures
        swap_settles(swap),
        forall|m: nat|
            #[trigger] swap_outcome(swap, m) is Unfinished || swap_outcome(swap, m)
                == swap_outcome(swap, n),
{
    assert forall|m: nat|
        #[trigger] swap_outcome(swap, m) is Unfinished || swap_outcome(swap, m) == swap_outcome(
            swap,
            n,
        ) by {
        if !(swap_outcome(swap, m) is Unfinished) {
            swap_outcome_is_unique(swap, m, n);
        }
    }
}

/// A swap of nothing, and one to the price that a pool is at, take no step:
/// whatever they come to leaves the pool as it is and moves nothing.
pub proof fn swap_of_nothing_is_empty(swap: PoolSwapView, n: nat)
    requires
        swap.target_amount == 0 || swap.target_price == Some(swap.liquidity.sqrt_price),
        swap_outcome(swap, n) is Finished,
    ensures
        ({
            let result = swap_outcome(swap, n)->Finished_0;
            &&& result.steps.len() == 0
            &&& result.total_d_t0 == 0
            &&& result.total_d_t1 == 0
            &&& result.protocol_fee_amount == 0
            &&& result.end_price == result.start_price
            &&& result.end_tick == result.start_tick
            &&& result.end_liquidity == swap.liquidity
        }),
{
    let rate = swap.fee_config.protocol_fee;
    let exact_input = swap.target_amount > 0;
    let divisor = (1_000_000 - rate) % modulus_256();
    assert(swap_over(swap_terms(swap), swap_start(swap)));
    assert(0 * rate as nat == 0) by (nonlinear_arith);
    if !swap.is_bundle && !exact_input {
        assert(divisor != 0) by {
            if rate < 1_000_000 {
                assert((1_000_000 - rate) % modulus_256() == 1_000_000 - rate);
            } else {
                assert(rate > 1_000_000);
                vstd::arithmetic::div_mod::lemma_mod_add_multiples_vanish(
                    1_000_000 - rate,
                    modulus_256(),
                );
                assert((1_000_000 - rate + modulus_256()) % modulus_256() == 1_000_000 - rate
                    + modulus_256());
            }
        }
        assert(0int / divisor == 0) by (nonlinear_arith)
            requires
                divisor != 0,
        ;
    }
}

/// Whether a swap goes from a price to a price.
pub open spec fn has_prices(swap: PoolSwapView) -> bool {
    is_price(swap.liquidity.sqrt_price) && is_price(swap_terms(swap).limit)
}

/// How much of the token that goes in the steps moved together.
pub open spec fn sum_in(direction: bool, steps: Seq<PoolSwapStep>) -> nat {
    if direction {
        sum_t0(steps)
    } else {
        sum_t1(steps)
    }
}

/// Whether a price lies on the right side of a tick, for a swap that goes on
/// from there: downwards not below the price of the tick, and upwards not above
/// that of the next.
pub open spec fn is_ahead_of_tick(tick: i32, price: nat, direction: bool) -> bool {
    if direction {
        tick <= MAX_TICK && sqrt_ratio_at_tick(
            if tick < MIN_TICK {
                MIN_TICK
            } else {
                tick
            },
        ) <= price
    } else {
        MIN_TICK - 1 <= tick && price <= sqrt_ratio_at_tick(
            if tick >= MAX_TICK {
                MAX_TICK
            } else {
                (tick + 1) as i32
            },
        )
    }
}

/// Whether a price comes after another, or is the same, in the direction of a
/// swap.
pub open spec fn comes_after(direction: bool, first: nat, second: nat) -> bool {
    if direction {
        second <= first
    } else {
        first <= second
    }
}

/// Whether a swap starts in order: from a price that lies in its tick to a limit
/// on the right side of it.
pub open spec fn starts_in_order(swap: PoolSwapView) -> bool {
    &&& has_prices(swap)
    &&& comes_after(swap.direction, swap.liquidity.sqrt_price, swap_terms(swap).limit)
    &&& is_ahead_of_tick(swap.liquidity.tick, swap.liquidity.sqrt_price, swap.direction)
}

/// Whether the result of a swap keeps to what was asked. An exact output is not
/// overpaid, and is met unless the price is at its limit. An exact input does not cost more than asked, and is used up unless
/// the price is at its limit. The price moved in the direction of the swap, if
/// at all.
pub open spec fn keeps_to_terms(swap: PoolSwapView, result: PoolSwapResultView) -> bool {
    let (paid, received) = if swap.direction {
        (result.total_d_t0, result.total_d_t1)
    } else {
        (result.total_d_t1, result.total_d_t0)
    };
    &&& swap.target_amount < 0 ==> received <= -swap.target_amount && (received
        == -swap.target_amount || result.end_price == swap_terms(swap).limit)
    &&& swap.target_amount > 0 && has_prices(swap) ==> paid <= swap.target_amount && (paid
        == swap.target_amount || result.end_price == swap_terms(swap).limit)
    &&& starts_in_order(swap) ==> comes_after(
        swap.direction,
        result.start_price,
        result.end_price,
    )
}

/// A swap that starts in order and moves the price sells token 0 if and only if
/// the price falls.
pub proof fn price_tells_direction(swap: PoolSwapView, result: PoolSwapResultView)
    requires
        starts_in_order(swap),
        keeps_to_terms(swap, result),
        result.start_price != result.end_price,
    ensures
        (result.start_price > result.end_price) == swap.direction,
{
}

/// A step that goes no further than its target goes in the direction of the
/// swap, and where the swap is not over with it, the price is at the next tick
/// and one tick less lies ahead.
proof fn step_goes_its_way(terms: SwapTerms, s: SwapProgress, after: SwapProgress)
    requires
        swap_one_step(terms, s) == StepOutcome::Next(after),
        comes_after(terms.direction, s.price, terms.limit),
        is_ahead_of_tick(s.point.tick, s.price, terms.direction),
        ({
            let next = next_tick_within_word(
                s.point.bitmap,
                s.point.tick as int,
                s.point.tick_spacing as int,
                terms.direction,
            );
            let target = step_target(terms, sqrt_ratio_at_tick(next.0));
            &&& has_rising_price(next.0)
            &&& next.0 == MIN_TICK ==> sqrt_ratio_at_tick(next.0) == min_sqrt_ratio()
            &&& next.0 == MAX_TICK ==> sqrt_ratio_at_tick(next.0) == max_sqrt_ratio()
            &&& lies_between(s.price, target, after.price)
            &&& after.price == target || after.remaining == 0
        }),
    ensures
        comes_after(terms.direction, s.price, after.price),
        comes_after(terms.direction, after.price, terms.limit),
        swap_over(terms, after) || is_ahead_of_tick(
            after.point.tick,
            after.price,
            terms.direction,
        ),
        min_sqrt_ratio() <= terms.limit <= max_sqrt_ratio() ==> swap_over(terms, after)
            || ticks_ahead(after.point.tick, terms.direction) < ticks_ahead(
            s.point.tick,
            terms.direction,
        ),
{
    let tick = s.point.tick;
    let next = next_tick_within_word(
        s.point.bitmap,
        tick as int,
        s.point.tick_spacing as int,
        terms.direction,
    ).0;
    next_tick_lies_in_direction(
        s.point.bitmap,
        tick as int,
        s.point.tick_spacing as int,
        terms.direction,
    );
    let price_next = sqrt_ratio_at_tick(next);
    if terms.direction {
        let at = if tick < MIN_TICK {
            MIN_TICK
        } else {
            tick
        };
        assert(next <= at);
        assert(next < at ==> price_next < sqrt_ratio_at_tick(at));
        assert(price_next <= s.price);
        if after.price == price_next && next > MIN_TICK {
            assert(sqrt_ratio_at_tick((next - 1) as i32) < price_next);
        }
    } else {
        let at = if tick >= MAX_TICK {
            MAX_TICK
        } else {
            (tick + 1) as i32
        };
        assert(at <= next);
        assert(at < next ==> sqrt_ratio_at_tick(at) < price_next);
        assert(s.price <= price_next);
        if after.price == price_next && next < MAX_TICK {
            assert(price_next < sqrt_ratio_at_tick((next + 1) as i32));
        }
    }
}

/// A swap in a bundle pays no fee: neither the swap fee of the pool nor the
/// protocol fee has any part in what it comes to, which is the same whatever the
/// fees of the pool are.
pub proof fn bundles_pay_no_fee(swap: PoolSwapView, fee_config: FeeConfiguration, n: nat)
    requires
        swap.is_bundle,
    ensures
        swap_terms(swap).fee == 0,
        swap_outcome(swap, n) matches SwapOutcome::Finished(result) ==> result.protocol_fee_amount
            == 0,
        swap_outcome(PoolSwapView { fee_config, ..swap }, n) == match swap_outcome(swap, n) {
            SwapOutcome::Finished(result) => SwapOutcome::Finished(
                PoolSwapResultView { fee_config, ..result },
            ),
            other => other,
        },
{
    let other = PoolSwapView { fee_config, ..swap };
    assert(swap_terms(other) == swap_terms(swap));
    assert(swap_start(other) == swap_start(swap));
}

/// The fee that a swap is computed with: outside bundles it is the swap fee of the
/// pool, whatever its rate, and in a bundle there is none. The limit is the price that
/// was asked for, or where none was one short of the end of the price grid in the
/// direction of the swap; and a positive amount is what goes in.
pub proof fn swaps_pay_the_swap_fee(swap: PoolSwapView)
    ensures
        !swap.is_bundle ==> swap_terms(swap).fee == swap.fee_config.swap_fee,
        swap.is_bundle ==> swap_terms(swap).fee == 0,
        swap.target_price matches Some(price) ==> swap_terms(swap).limit == price,
        swap.target_price is None && swap.direction ==> swap_terms(swap).limit == 4295128740,
        swap.target_price is None && !swap.direction ==> swap_terms(swap).limit
            == 1461446703485210103287273052203988822378723970341nat,
        swap_terms(swap).direction == swap.direction,
        swap_terms(swap).exact_input == (swap.target_amount > 0),
{
}

/// What is gained up to the stretch of one of the steps of a swap: the nets of the
/// ticks from the start of the swap to the end of the step before.
pub open spec fn gained_before(
    direction: bool,
    start: LiquidityView,
    steps: Seq<PoolSwapStep>,
    k: int,
) -> int {
    if k == 0 {
        0
    } else {
        gained_on_the_way(
            start.ticks,
            start.tick as int,
            if direction {
                steps[k - 1].end_tick - 1
            } else {
                steps[k - 1].end_tick as int
            },
        )
    }
}

/// Whether a swap follows the ticks: every step is taken with the liquidity at the
/// start and the nets of the ticks that were crossed up to it, and the liquidity at
/// the end is that of the last step, with the net of the tick that it ran to where the
/// price came to that tick. The ticks, the bitmap and the spacing stay.
pub open spec fn follows_the_ticks(
    direction: bool,
    start: LiquidityView,
    steps: Seq<PoolSwapStep>,
    end_price: nat,
    end: LiquidityView,
) -> bool {
    &&& end.ticks == start.ticks
    &&& end.bitmap == start.bitmap
    &&& end.tick_spacing == start.tick_spacing
    &&& forall|k: int|
        0 <= k < steps.len() ==> (#[trigger] steps[k]).liquidity == start.liquidity + gained_before(
            direction,
            start,
            steps,
            k,
        )
    &&& steps.len() == 0 ==> end.liquidity == start.liquidity
    &&& steps.len() > 0 ==> if end_price == sqrt_ratio_at_tick(steps.last().end_tick) {
        &&& end.liquidity == start.liquidity + gained_before(
            direction,
            start,
            steps,
            steps.len() as int,
        )
        &&& end.tick == if direction {
            steps.last().end_tick - 1
        } else {
            steps.last().end_tick as int
        }
    } else {
        end.liquidity == steps.last().liquidity
    }
}

/// Whether a swap starts at a tick that it can go on from, with ticks that can be
/// crossed, to a limit within the price grid.
pub open spec fn can_follow_ticks(swap: PoolSwapView) -> bool {
    &&& starts_in_grid(swap)
    &&& ticks_can_be_crossed(swap.liquidity)
    &&& can_go_on(swap.liquidity.tick, swap.direction)
}

/// Whether a swap on its way has followed the ticks so far, and can go on unless it is
/// over.
spec fn has_followed_ticks(terms: SwapTerms, start: LiquidityView, s: SwapProgress) -> bool {
    &&& follows_the_ticks(terms.direction, start, s.steps, s.price, s.point)
    &&& s.steps.len() == 0 ==> s.point.tick == start.tick
    &&& !swap_over(terms, s) ==> can_go_on(s.point.tick, terms.direction) && (s.steps.len() > 0
        ==> s.price == sqrt_ratio_at_tick(s.steps.last().end_tick))
}

/// A step goes on following the ticks.
proof fn step_follows_the_ticks(
    terms: SwapTerms,
    start: LiquidityView,
    s: SwapProgress,
    after: SwapProgress,
)
    requires
        ticks_can_be_crossed(start),
        has_followed_ticks(terms, start, s),
        !swap_over(terms, s),
        swap_one_step(terms, s) == StepOutcome::Next(after),
        min_sqrt_ratio() <= terms.limit <= max_sqrt_ratio(),
        comes_after(terms.direction, after.price, terms.limit),
        ({
            let next = next_tick_within_word(
                s.point.bitmap,
                s.point.tick as int,
                s.point.tick_spacing as int,
                terms.direction,
            );
            &&& next.0 == MIN_TICK ==> sqrt_ratio_at_tick(next.0) == min_sqrt_ratio()
            &&& next.0 == MAX_TICK ==> sqrt_ratio_at_tick(next.0) == max_sqrt_ratio()
            &&& after.price == step_target(terms, sqrt_ratio_at_tick(next.0)) || after.remaining
                == 0
        }),
    ensures
        has_followed_ticks(terms, start, after),
{
    let next = next_tick_within_word(
        s.point.bitmap,
        s.point.tick as int,
        s.point.tick_spacing as int,
        terms.direction,
    );
    let price_next = sqrt_ratio_at_tick(next.0);
    let n = s.steps.len() as int;
    let taken = after.steps.last();
    assert(after.steps == s.steps.push(taken));
    assert(taken.end_tick == next.0 && taken.liquidity == s.point.liquidity);
    let moved = after.price != s.price;
    assert(ticks_can_be_crossed(s.point));
    step_outcomes(s.point, after.price, terms.direction, moved);
    assert(s.point.liquidity == start.liquidity + gained_before(
        terms.direction,
        start,
        s.steps,
        n,
    ));
    assert(gained_before(terms.direction, start, after.steps, n) == gained_before(
        terms.direction,
        start,
        s.steps,
        n,
    ));
    assert forall|k: int| 0 <= k < after.steps.len() implies (#[trigger] after.steps[k]).liquidity
        == start.liquidity + gained_before(terms.direction, start, after.steps, k) by {
        if k < n {
            assert(after.steps[k] == s.steps[k]);
            assert(gained_before(terms.direction, start, after.steps, k) == gained_before(
                terms.direction,
                start,
                s.steps,
                k,
            ));
        }
    }
    if after.price == price_next {
        step_gains_the_nets(s.point, after.price, terms.direction, moved);
        gained_on_the_way_adds_up(
            start.ticks,
            start.tick as int,
            s.point.tick as int,
            after.point.tick as int,
        );
        assert(gained_on_the_way(start.ticks, start.tick as int, s.point.tick as int)
            == gained_before(terms.direction, start, s.steps, n)) by {
            gained_on_the_way_adds_up(
                start.ticks,
                start.tick as int,
                start.tick as int,
                start.tick as int,
            );
        }
    }
}

/// A swap across the liquidity of a pool.
#[derive(Clone, Copy, Debug)]
pub struct PoolSwap<'a> {
    pub liquidity: LiquidityAtPoint<'a>,
    /// swap to sqrt price limit
    pub target_price: Option<SqrtPriceX96>,
    /// if its negative, it is an exact out.
    pub target_amount: I256,
    /// zfo = true
    pub direction: bool,
    /// the fee configuration of the pool.
    pub fee_config: FeeConfiguration,
    pub is_bundle: bool,
}

impl<'a> View for PoolSwap<'a> {
    type V = PoolSwapView;

    open spec fn view(&self) -> PoolSwapView {
        PoolSwapView {
            liquidity: self.liquidity@,
            target_price: match self.target_price {
                Some(price) => Some(price@),
                None => None,
            },
            target_amount: self.target_amount@,
            direction: self.direction,
            fee_config: self.fee_config,
            is_bundle: self.is_bundle,
        }
    }
}

/// What a simulated swap gave.
#[derive(Debug)]
pub struct PoolSwapResult<'a> {
    pub fee_config: FeeConfiguration,
    pub start_price: SqrtPriceX96,
    pub start_tick: i32,
    pub end_price: SqrtPriceX96,
    pub end_tick: i32,
    pub total_d_t0: u128,
    pub total_d_t1: u128,
    pub steps: Vec<PoolSwapStep>,
    pub end_liquidity: LiquidityAtPoint<'a>,
    pub protocol_fee_amount: u128,
    /// false for token0, true for token1
    pub protocol_fee_token: bool,
    pub is_bundle: bool,
}

impl<'a> View for PoolSwapResult<'a> {
    type V = PoolSwapResultView;

    open spec fn view(&self) -> PoolSwapResultView {
        PoolSwapResultView {
            fee_config: self.fee_config,
            start_price: self.start_price@,
            start_tick: self.start_tick,
            end_price: self.end_price@,
            end_tick: self.end_tick,
            total_d_t0: self.total_d_t0,
            total_d_t1: self.total_d_t1,
            steps: self.steps@,
            end_liquidity: self.end_liquidity@,
            protocol_fee_amount: self.protocol_fee_amount,
            protocol_fee_token: self.protocol_fee_token,
            is_bundle: self.is_bundle,
        }
    }
}

impl<'a> Clone for PoolSwapResult<'a> {
    fn clone(&self) -> (r: PoolSwapResult<'a>)
        ensures
            r@ == self@,
    {
        PoolSwapResult {
            fee_config: self.fee_config,
            start_price: self.start_price,
            start_tick: self.start_tick,
            end_price: self.end_price,
            end_tick: self.end_tick,
            total_d_t0: self.total_d_t0,
            total_d_t1: self.total_d_t1,
            steps: self.steps.clone(),
            end_liquidity: self.end_liquidity,
            protocol_fee_amount: self.protocol_fee_amount,
            protocol_fee_token: self.protocol_fee_token,
            is_bundle: self.is_bundle,
        }
    }
}

/// Whether a swap comes to a result or an error, and `r` is what it comes to: its
/// result, which keeps to what was asked and follows the ticks, or an error of the
/// kind that it fails with.
pub open spec fn swap_gives<'a>(
    swap: PoolSwapView,
    r: Result<PoolSwapResult<'a>, SwapSimulationError>,
) -> bool {
    &&& forall|n: nat|
        match #[trigger] swap_outcome(swap, n) {
            SwapOutcome::Finished(result) => r matches Ok(x) && x@ == result,
            SwapOutcome::Failed(failure) => r matches Err(e) && swap_failure(e) == failure,
            SwapOutcome::Stopped => false,
            SwapOutcome::Unfinished => true,
        }
    &&& swap_settles(swap)
    &&& r matches Ok(x) ==> keeps_to_terms(swap, x@)
    &&& r matches Ok(x) ==> can_follow_ticks(swap) ==> follows_the_ticks(
        swap.direction,
        swap.liquidity,
        x@.steps,
        x@.end_price,
        x@.end_liquidity,
    )
}

/// The swap of an amount from a point on.
pub open spec fn amount_swap(
    liquidity: LiquidityView,
    amount: int,
    direction: bool,
    fee_config: FeeConfiguration,
    is_bundle: bool,
) -> PoolSwapView {
    PoolSwapView {
        liquidity,
        target_price: None,
        target_amount: amount,
        direction,
        fee_config,
        is_bundle,
    }
}

/// The swap of any amount from a point to a price.
pub open spec fn price_swap(
    liquidity: LiquidityView,
    price_limit: nat,
    direction: bool,
    fee_config: FeeConfiguration,
    is_bundle: bool,
) -> PoolSwapView {
    PoolSwapView {
        liquidity,
        target_price: Some(price_limit),
        target_amount: half_256() - 1,
        direction,
        fee_config,
        is_bundle,
    }
}

/// The swap from the same point of what went in over a swap to a price.
pub open spec fn amount_swap_of(swap: PoolSwapView, result: PoolSwapResultView) -> PoolSwapView {
    amount_swap(
        swap.liquidity,
        if swap.direction {
            result.total_d_t0 as int
        } else {
            result.total_d_t1 as int
        },
        swap.direction,
        swap.fee_config,
        swap.is_bundle,
    )
}

/// Whether a swap to a price can be simulated, and after it the swap of the
/// amount that went in.
pub open spec fn can_swap_to_price(swap: PoolSwapView) -> bool {
    &&& can_swap(swap)
    &&& forall|n: nat|
        #[trigger] swap_outcome(swap, n) is Finished ==> can_swap(
            amount_swap_of(swap, swap_outcome(swap, n)->Finished_0),
        )
}

/// Whether a swap to a price comes to a result or an error, and `r` is what it
/// comes to as a swap of the amount that goes in: the error of the first swap, or
/// whatever the second comes to.
pub open spec fn price_then_amount_gives<'a>(
    swap: PoolSwapView,
    r: Result<PoolSwapResult<'a>, SwapSimulationError>,
) -> bool {
    &&& swap_settles(swap)
    &&& forall|n: nat|
        match #[trigger] swap_outcome(swap, n) {
            SwapOutcome::Finished(result) => swap_gives(amount_swap_of(swap, result), r),
            SwapOutcome::Failed(failure) => r matches Err(e) && swap_failure(e) == failure,
            SwapOutcome::Stopped => false,
            SwapOutcome::Unfinished => true,
        }
}

/// A swap on its way.
struct SwapState<'a> {
    point: LiquidityAtPoint<'a>,
    price: U256,
    remaining: I256,
    steps: Vec<PoolSwapStep>,
}

impl<'a> View for SwapState<'a> {
    type V = SwapProgress;

    closed spec fn view(&self) -> SwapProgress {
        SwapProgress {
            point: self.point@,
            price: self.price@,
            remaining: self.remaining@,
            steps: self.steps@,
        }
    }
}

/// What one step came to.
enum Advance {
    Next,
    Failed(SwapSimulationError),
    Stopped,
}

impl<'a> PoolSwap<'a> {
    /// Takes one step of the swap. An exact output that is still owed shrinks
    /// by what the step paid out, and is never overpaid.
    #[verifier::rlimit(30)]
    fn advance(&self, limit: U256, state: &mut SwapState<'a>) -> (r: Advance)
        requires
            limit@ == swap_terms(self@).limit,
        ensures
            match swap_one_step(swap_terms(self@), old(state)@) {
                StepOutcome::Next(after) => r is Next && final(state)@ == after,
                StepOutcome::Failed(failure) => r matches Advance::Failed(e) && swap_failure(e)
                    == failure,
                StepOutcome::Stopped => r is Stopped,
            },
            r is Next && self@.target_amount < 0 && old(state)@.remaining < 0 ==> ({
                let paid_out = if self@.direction {
                    final(state)@.steps.last().d_t1
                } else {
                    final(state)@.steps.last().d_t0
                };
                &&& final(state)@.remaining == old(state)@.remaining + paid_out
                &&& final(state)@.remaining <= 0
            }),
            r is Next && is_price(limit@) && is_price(old(state)@.price) ==> ({
                let next = next_tick_within_word(
                    old(state)@.point.bitmap,
                    old(state)@.point.tick as int,
                    old(state)@.point.tick_spacing as int,
                    self@.direction,
                );
                let target = step_target(swap_terms(self@), sqrt_ratio_at_tick(next.0));
                &&& has_rising_price(next.0)
                &&& next.0 == MIN_TICK ==> sqrt_ratio_at_tick(next.0) == min_sqrt_ratio()
                &&& next.0 == MAX_TICK ==> sqrt_ratio_at_tick(next.0) == max_sqrt_ratio()
                &&& lies_between(old(state)@.price, target, final(state)@.price)
                &&& is_price(final(state)@.price)
                &&& (self@.target_amount > 0 && old(state)@.remaining > 0) || (
                self@.target_amount < 0 && old(state)@.remaining < 0) ==> final(state)@.price
                    == target || final(state)@.remaining == 0
                &&& self@.target_amount > 0 && old(state)@.remaining >= 0 ==> {
                    let paid = if self@.direction {
                        final(state)@.steps.last().d_t0
                    } else {
                        final(state)@.steps.last().d_t1
                    };
                    &&& final(state)@.remaining == old(state)@.remaining - paid
                    &&& final(state)@.remaining >= 0
                }
            }),
    {
        let next: (i32, u128, bool) =
            match state.point.get_to_next_initialized_tick_within_one_word(self.direction) {
            Ok(next) => next,
            Err(e) => {
                return Advance::Failed(e);
            },
        };
        let price_next: U256 = match get_sqrt_ratio_at_tick(next.0) {
            Ok(price) => price,
            Err(e) => {
                return Advance::Failed(SwapSimulationError::UniswapV3MathError(e));
            },
        };
        let target: U256 = if (self.direction && price_next.lt(&limit)) || (!self.direction
            && limit.lt(&price_next)) {
            limit
        } else {
            price_next
        };
        // Use 0 fee for bundle mode, swap_fee for unlocked mode
        let swap_fee: u32 = if self.is_bundle {
            0
        } else {
            self.fee_config.swap_fee
        };
        let lowest: I256 = I256 {
            raw: U256 { l0: 0, l1: 0, l2: 0, l3: 0x8000_0000_0000_0000 },
        };
        proof {
            i256_view_bound(state.remaining);
        }
        if !lowest.lt(&state.remaining) || swap_fee > 1_000_000 {
            return Advance::Stopped;
        }
        let step: SwapStep = match compute_swap_step(
            state.price,
            target,
            next.1,
            state.remaining,
            swap_fee,
        ) {
            Ok(step) => step,
            Err(e) => {
                return Advance::Failed(SwapSimulationError::UniswapV3MathError(e));
            },
        };
        proof {
            settling_keeps_account(self.direction, state.remaining@, step@);
        }
        let settled: (I256, u128, u128) = match settle_step(
            self.direction,
            self.target_amount.is_positive(),
            state.remaining,
            &step,
        ) {
            Some(settled) => settled,
            None => {
                return Advance::Stopped;
            },
        };
        let reached: bool = step.sqrt_price_next.same(&price_next);
        let moved: bool = !step.sqrt_price_next.same(&state.price);
        match state.point.move_to_next_tick(step.sqrt_price_next, self.direction, reached, moved) {
            Ok(()) => {},
            Err(e) => {
                return Advance::Failed(e);
            },
        }
        state.price = step.sqrt_price_next;
        state.remaining = settled.0;
        let taken: PoolSwapStep = PoolSwapStep {
            end_tick: next.0,
            init: next.2,
            liquidity: next.1,
            d_t0: settled.1,
            d_t1: settled.2,
        };
        state.steps.push(taken);
        Advance::Next
    }

    /// The price that the swap stops at.
    fn price_limit(&self) -> (r: U256)
        ensures
            r@ == swap_terms(self@).limit,
    {
        match self.target_price {
            Some(price) => price.to_u256(),
            None => if self.direction {
                // one above the lowest price of the grid
                U256 { l0: 4295128740, l1: 0, l2: 0, l3: 0 }
            } else {
                // one below the highest price of the grid
                U256 {
                    l0: 6743328256752651557,
                    l1: 17280870778742802505,
                    l2: 4294805859,
                    l3: 0,
                }
            },
        }
    }

    /// Whether the swap is asked to end at a price on the wrong side.
    fn diverges(&self) -> (r: bool)
        ensures
            r == price_limit_diverges(self@),
    {
        match self.target_price {
            Some(price) => self.direction && self.liquidity.current_sqrt_price.lt(&price),
            None => false,
        }
    }
}

/// Adding one more step adds its amounts to the totals.
proof fn sums_push(steps: Seq<PoolSwapStep>, step: PoolSwapStep)
    ensures
        sum_t0(steps.push(step)) == sum_t0(steps) + step.d_t0,
        sum_t1(steps.push(step)) == sum_t1(steps) + step.d_t1,
{
    assert(steps.push(step).drop_last() =~= steps);
}

/// The totals of both tokens over the steps, if they fit their type.
fn totals(steps: &Vec<PoolSwapStep>) -> (r: Option<(u128, u128)>)
    ensures
        r is Some <==> sum_t0(steps@) <= u128::MAX && sum_t1(steps@) <= u128::MAX,
        r matches Some(t) ==> t.0 == sum_t0(steps@) && t.1 == sum_t1(steps@),
{
    let mut t0: u128 = 0;
    let mut t1: u128 = 0;
    let mut i: usize = 0;
    while i < steps.len()
        invariant
            i <= steps.len(),
            t0 == sum_t0(steps@.take(i as int)),
            t1 == sum_t1(steps@.take(i as int)),
        decreases steps.len() - i,
    {
        proof {
            assert(steps@.take(i as int).push(steps@[i as int]) =~= steps@.take(i + 1));
            sums_push(steps@.take(i as int), steps@[i as int]);
            sums_grow(steps@, i + 1, steps@.len() as int);
            assert(steps@.take(steps@.len() as int) =~= steps@);
        }
        match (t0.checked_add(steps[i].d_t0), t1.checked_add(steps[i].d_t1)) {
            (Some(sum0), Some(sum1)) => {
                t0 = sum0;
                t1 = sum1;
            },
            _ => {
                return None;
            },
        }
        i = i + 1;
    }
    assert(steps@.take(i as int) =~= steps@);
    Some((t0, t1))
}

/// The totals of some first steps are at most those of more.
proof fn sums_grow(steps: Seq<PoolSwapStep>, i: int, j: int)
    requires
        0 <= i <= j <= steps.len(),
    ensures
        sum_t0(steps.take(i)) <= sum_t0(steps.take(j)),
        sum_t1(steps.take(i)) <= sum_t1(steps.take(j)),
    decreases j - i,
{
    if i < j {
        sums_grow(steps, i, j - 1);
        assert(steps.take(j).drop_last() =~= steps.take(j - 1));
    }
}

/// The protocol fee on a total, at most the largest 128-bit number.
pub fn protocol_fee(total: u128, rate: u32, exact_input: bool) -> (r: u128)
    requires
        exact_input || rate != 1_000_000,
    ensures
        r == saturate_u128(protocol_fee_on(total as nat, rate, exact_input)),
{
    let amount: U256 = U256::from_u128(total);
    let fee_rate: U256 = U256::from_u128(rate as u128);
    let one_e6: U256 = U256::from_u128(1_000_000);
    if exact_input {
        let scaled: U256 = amount.wrapping_mul(&fee_rate);
        proof {
            assert(total * rate <= u128::MAX * u32::MAX) by (nonlinear_arith)
                requires
                    total <= u128::MAX,
                    rate <= u32::MAX,
            ;
            vstd::arithmetic::div_mod::lemma_small_mod(
                (total as nat * rate as nat) as nat,
                modulus_256() as nat,
            );
        }
        scaled.wrapping_div(&one_e6).saturating_to_u128()
    } else {
        let scaled: U256 = amount.wrapping_mul(&one_e6);
        proof {
            vstd::arithmetic::div_mod::lemma_small_mod(
                (total as nat * 1_000_000nat) as nat,
                modulus_256() as nat,
            );
        }
        let kept: U256 = one_e6.wrapping_sub(&fee_rate);
        scaled.wrapping_div(&kept).wrapping_sub(&amount).saturating_to_u128()
    }
}

impl<'a> PoolSwap<'a> {
    /// Puts together what the swap gave, once its steps came to an end.
    fn finish(self, state: SwapState<'a>) -> (r: Option<PoolSwapResult<'a>>)
        ensures
            match swap_finish(self@, state@) {
                SwapOutcome::Finished(result) => r matches Some(x) && x@ == result,
                _ => r is None,
            },
    {
        let exact_input: bool = self.target_amount.is_positive();
        let (total_d_t0, total_d_t1): (u128, u128) = match totals(&state.steps) {
            Some(t) => t,
            None => {
                return None;
            },
        };
        // Calculate protocol fee for unlocked mode
        let (protocol_fee_amount, protocol_fee_token): (u128, bool) = if !self.is_bundle {
            let rate: u32 = self.fee_config.protocol_fee;
            if !exact_input && rate == 1_000_000 {
                return None;
            }
            let total: u128 = if exact_input != self.direction {
                total_d_t0
            } else {
                total_d_t1
            };
            (protocol_fee(total, rate, exact_input), self.direction == exact_input)
        } else {
            // In bundle mode, no protocol fee is applied during swap
            (0, false)
        };
        let mut end_liquidity: LiquidityAtPoint<'a> = state.point;
        end_liquidity.set_sqrt_price(state.price);
        Some(
            PoolSwapResult {
                fee_config: self.fee_config,
                start_price: self.liquidity.current_sqrt_price,
                start_tick: self.liquidity.current_tick,
                end_price: end_liquidity.current_sqrt_price,
                end_tick: end_liquidity.current_tick,
                total_d_t0,
                total_d_t1,
                steps: state.steps,
                end_liquidity,
                protocol_fee_amount,
                protocol_fee_token,
                is_bundle: self.is_bundle,
            },
        )
    }

    /// Simulates the swap: step by step from tick to tick until nothing
    /// remains of the amount or the price is at its limit. Every amount has to
    /// fit 128 bits. The steps come to an end, since one that is not the last
    /// leaves one tick less to cross. An exact output is never overpaid, and an
    /// exact input never costs more than asked; either is met unless the price
    /// comes to its limit. The price moves in the direction of the swap only, and
    /// the liquidity follows the ticks that are crossed.
    pub fn swap(self) -> (r: Result<PoolSwapResult<'a>, SwapSimulationError>)
        requires
            can_swap(self@),
        ensures
            swap_gives(self@, r),
    {
        let ghost terms = swap_terms(self@);
        let ghost start = swap_start(self@);
        if self.diverges() {
            assert(is_settled(swap_outcome(self@, 0)));
            return Err(SwapSimulationError::InvalidSqrtPriceLimit);
        }
        let limit: U256 = self.price_limit();
        let mut state: SwapState<'a> = SwapState {
            point: self.liquidity,
            price: self.liquidity.current_sqrt_price.to_u256(),
            remaining: self.target_amount,
            steps: Vec::new(),
        };
        // the steps that are left at most
        let ghost total: nat = choose|n: nat| is_settled(#[trigger] swap_outcome(self@, n));
        let ghost mut taken: nat = 0;
        let ghost mut left: nat = if swap_settles(self@) {
            total
        } else {
            ticks_ahead(start.point.tick, terms.direction) + 1
        };
        proof {
            assert(state@ =~= start);
        }
        while !state.remaining.is_zero() && !state.price.same(&limit)
            invariant
                limit@ == terms.limit,
                terms == swap_terms(self@),
                start == swap_start(self@),
                !price_limit_diverges(self@),
                leads_to(terms, start, state@, taken),
                swap_settles(self@) ==> is_settled(swap_outcome(self@, total)) && taken + left
                    == total,
                !swap_settles(self@) ==> starts_in_grid(self@) && !swap_stops(self@) && (swap_over(
                    terms,
                    state@,
                ) || ticks_ahead(state@.point.tick, terms.direction) < left),
                self@.target_amount < 0 ==> state@.remaining <= 0 && (if self@.direction {
                    sum_t1(state@.steps)
                } else {
                    sum_t0(state@.steps)
                }) == state@.remaining - self@.target_amount,
                self@.target_amount == 0 ==> state@.remaining == 0,
                has_prices(self@) ==> is_price(state@.price),
                self@.target_amount > 0 && has_prices(self@) ==> state@.remaining >= 0 && sum_in(
                    self@.direction,
                    state@.steps,
                ) == self@.target_amount - state@.remaining,
                starts_in_order(self@) ==> comes_after(terms.direction, start.price, state@.price)
                    && comes_after(terms.direction, state@.price, terms.limit) && (swap_over(
                    terms,
                    state@,
                ) || is_ahead_of_tick(state@.point.tick, state@.price, terms.direction)),
                can_follow_ticks(self@) ==> has_followed_ticks(terms, start.point, state@),
            decreases left,
        {
            let ghost before = state@;
            proof {
                walk_goes_on(terms, start, before, taken, 1);
                if swap_settles(self@) {
                    walk_goes_on(terms, start, before, taken, left);
                    assert(left > 0);
                }
            }
            match self.advance(limit, &mut state) {
                Advance::Next => {
                    proof {
                        leads_one_further(terms, start, before, state@, taken);
                        taken = taken + 1;
                        left = (left - 1) as nat;
                        assert(before.steps =~= state@.steps.drop_last());
                        if starts_in_order(self@) {
                            step_goes_its_way(terms, before, state@);
                        }
                        if can_follow_ticks(self@) {
                            step_follows_the_ticks(terms, start.point, before, state@);
                        }
                    }
                },
                Advance::Failed(e) => {
                    proof {
                        assert(swap_outcome(self@, taken + 1) is Failed);
                        settled_outcome_is_the_only_one(self@, taken + 1);
                    }
                    return Err(e);
                },
                Advance::Stopped => {
                    proof {
                        assert(swap_outcome(self@, taken + 1) is Stopped);
                        if swap_settles(self@) {
                            swap_outcome_is_unique(self@, taken + 1, total);
                        }
                        assert(false);
                    }
                    return Err(SwapSimulationError::LiquidityUnderflow);
                },
            }
        }
        proof {
            walk_goes_on(terms, start, state@, taken, 0);
            assert(swap_outcome(self@, taken) == swap_finish(self@, state@));
            if swap_settles(self@) {
                swap_outcome_is_unique(self@, taken, total);
            }
            assert(is_settled(swap_outcome(self@, taken)));
            settled_outcome_is_the_only_one(self@, taken);
            assert(can_follow_ticks(self@) ==> follows_the_ticks(
                terms.direction,
                start.point,
                state@.steps,
                state@.price,
                state@.point,
            ));
        }
        match self.finish(state) {
            Some(result) => Ok(result),
            None => {
                assert(false);
                Err(SwapSimulationError::LiquidityUnderflow)
            },
        }
    }

    /// Whether the swap comes to a result or an error within a number of
    /// steps, with every amount fitting its type.
    pub fn settles_within(&self, max_steps: u64) -> (r: bool)
        ensures
            r == is_settled(swap_outcome(self@, max_steps as nat)),
    {
        if self.diverges() {
            return true;
        }
        let ghost terms = swap_terms(self@);
        let ghost start = swap_start(self@);
        let limit: U256 = self.price_limit();
        let mut state: SwapState<'a> = SwapState {
            point: self.liquidity,
            price: self.liquidity.current_sqrt_price.to_u256(),
            remaining: self.target_amount,
            steps: Vec::new(),
        };
        proof {
            assert(state@ =~= start);
        }
        let mut left: u64 = max_steps;
        while !state.remaining.is_zero() && !state.price.same(&limit)
            invariant
                limit@ == terms.limit,
                terms == swap_terms(self@),
                start == swap_start(self@),
                !price_limit_diverges(self@),
                swap_walk(terms, start, max_steps as nat) == swap_walk(terms, state@, left as nat),
            decreases left,
        {
            if left == 0 {
                return false;
            }
            left = left - 1;
            match self.advance(limit, &mut state) {
                Advance::Next => {},
                Advance::Failed(_) => {
                    return true;
                },
                Advance::Stopped => {
                    return false;
                },
            }
        }
        self.finish(state).is_some()
    }

    /// Simulates the swap if it settles within a number of steps.
    pub fn swap_within(self, max_steps: u64) -> (r: Option<
        Result<PoolSwapResult<'a>, SwapSimulationError>,
    >)
        ensures
            match swap_outcome(self@, max_steps as nat) {
                SwapOutcome::Finished(result) => r matches Some(Ok(x)) && x@ == result,
                SwapOutcome::Failed(failure) => r matches Some(Err(e)) && swap_failure(e)
                    == failure,
                _ => r is None,
            },
            r matches Some(x) ==> swap_gives(self@, x),
            r matches Some(Ok(x)) ==> keeps_to_terms(self@, x@),
    {
        if self.settles_within(max_steps) {
            Some(self.swap())
        } else {
            None
        }
    }
}

/// Swaps to a price as a swap of the amount that goes in: once to the price,
/// and then once more from the start with the amount that it took.
pub fn swap_price_then_amount<'a>(
    liquidity: LiquidityAtPoint<'a>,
    price_limit: SqrtPriceX96,
    direction: bool,
    fee_config: FeeConfiguration,
    is_bundle: bool,
) -> (r: Result<PoolSwapResult<'a>, SwapSimulationError>)
    requires
        can_swap_to_price(price_swap(liquidity@, price_limit@, direction, fee_config, is_bundle)),
    ensures
        price_then_amount_gives(price_swap(liquidity@, price_limit@, direction, fee_config, is_bundle), r),
{
    let to_price: PoolSwap<'a> = PoolSwap {
        liquidity,
        target_price: Some(price_limit),
        target_amount: I256::max(),
        direction,
        fee_config,
        is_bundle,
    };
    let ghost swap = price_swap(liquidity@, price_limit@, direction, fee_config, is_bundle);
    assert(to_price@ =~= swap);
    let ghost total: nat = choose|n: nat| is_settled(#[trigger] swap_outcome(swap, n));
    proof {
        assert forall|n: nat| !(#[trigger] swap_outcome(swap, n) is Unfinished) implies
            swap_outcome(swap, n) == swap_outcome(swap, total) by {
            swap_outcome_is_unique(swap, n, total);
        }
    }
    match to_price.swap() {
        Ok(result) => {
            let amount_in: u128 = if direction {
                result.total_d_t0
            } else {
                result.total_d_t1
            };
            let amount: I256 = I256::from_raw(U256::from_u128(amount_in));
            let of_amount: PoolSwap<'a> = PoolSwap {
                liquidity,
                target_price: None,
                target_amount: amount,
                direction,
                fee_config,
                is_bundle,
            };
            assert(of_amount@ =~= amount_swap_of(swap, result@));
            of_amount.swap()
        },
        Err(e) => Err(e),
    }
}

/// Whether [`swap_price_then_amount`] settles with each of its swaps taking a
/// bounded number of steps.
pub fn price_then_amount_settles_within(
    liquidity: LiquidityAtPoint<'_>,
    price_limit: SqrtPriceX96,
    direction: bool,
    fee_config: FeeConfiguration,
    is_bundle: bool,
    max_steps: u64,
) -> (r: bool)
    ensures
        ({
            let swap = price_swap(liquidity@, price_limit@, direction, fee_config, is_bundle);
            let first = swap_outcome(swap, max_steps as nat);
            r == (is_settled(first) && (first is Finished ==> is_settled(
                swap_outcome(amount_swap_of(swap, first->Finished_0), max_steps as nat),
            )))
        }),
        r ==> can_swap_to_price(
            price_swap(liquidity@, price_limit@, direction, fee_config, is_bundle),
        ),
{
    let to_price: PoolSwap<'_> = PoolSwap {
        liquidity,
        target_price: Some(price_limit),
        target_amount: I256::max(),
        direction,
        fee_config,
        is_bundle,
    };
    let ghost swap = price_swap(liquidity@, price_limit@, direction, fee_config, is_bundle);
    assert(to_price@ =~= swap);
    proof {
        if is_settled(swap_outcome(swap, max_steps as nat)) {
            assert forall|n: nat| !(#[trigger] swap_outcome(swap, n) is Unfinished) implies
                swap_outcome(swap, n) == swap_outcome(swap, max_steps as nat) by {
                swap_outcome_is_unique(swap, n, max_steps as nat);
            }
        }
    }
    match to_price.swap_within(max_steps) {
        None => false,
        Some(Err(_)) => true,
        Some(Ok(result)) => {
            let amount_in: u128 = if direction {
                result.total_d_t0
            } else {
                result.total_d_t1
            };
            let amount: I256 = I256::from_raw(U256::from_u128(amount_in));
            let of_amount: PoolSwap<'_> = PoolSwap {
                liquidity,
                target_price: None,
                target_amount: amount,
                direction,
                fee_config,
                is_bundle,
            };
            assert(of_amount@ =~= amount_swap_of(swap, result@));
            of_amount.settles_within(max_steps)
        },
    }
}

impl<'a> PoolSwapResult<'a> {
    /// initialize a swap from the end of this swap into a new swap.
    pub fn swap_to_amount(&'a self, amount: I256, direction: bool) -> (r: Result<
        PoolSwapResult<'a>,
        SwapSimulationError,
    >)
        requires
            can_swap(
                amount_swap(
                    self@.end_liquidity,
                    amount@,
                    direction,
                    self@.fee_config,
                    self@.is_bundle,
                ),
            ),
        ensures
            swap_gives(
                amount_swap(
                    self@.end_liquidity,
                    amount@,
                    direction,
                    self@.fee_config,
                    self@.is_bundle,
                ),
                r,
            ),
    {
        let swap: PoolSwap<'a> = PoolSwap {
            liquidity: self.end_liquidity,
            target_price: None,
            target_amount: amount,
            direction,
            fee_config: self.fee_config,
            is_bundle: self.is_bundle,
        };
        swap.swap()
    }

    /// [`PoolSwapResult::swap_to_amount`], if it settles within a number of
    /// steps.
    pub fn swap_to_amount_within(&'a self, amount: I256, direction: bool, max_steps: u64) -> (r:
        Option<Result<PoolSwapResult<'a>, SwapSimulationError>>)
        ensures
            ({
                let swap = amount_swap(
                    self@.end_liquidity,
                    amount@,
                    direction,
                    self@.fee_config,
                    self@.is_bundle,
                );
                &&& r is Some <==> is_settled(swap_outcome(swap, max_steps as nat))
                &&& r matches Some(x) ==> swap_gives(swap, x)
            }),
    {
        let swap: PoolSwap<'a> = PoolSwap {
            liquidity: self.end_liquidity,
            target_price: None,
            target_amount: amount,
            direction,
            fee_config: self.fee_config,
            is_bundle: self.is_bundle,
        };
        if swap.settles_within(max_steps) {
            Some(self.swap_to_amount(amount, direction))
        } else {
            None
        }
    }

    /// Swaps from the end of this swap to a price, as a swap of the amount
    /// that goes in.
    pub fn swap_to_price(&'a self, price_limit: SqrtPriceX96) -> (r: Result<
        PoolSwapResult<'a>,
        SwapSimulationError,
    >)
        requires
            can_swap_to_price(
                price_swap(
                    self@.end_liquidity,
                    price_limit@,
                    self@.end_price >= price_limit@,
                    self@.fee_config,
                    self@.is_bundle,
                ),
            ),
        ensures
            price_then_amount_gives(
                price_swap(
                    self@.end_liquidity,
                    price_limit@,
                    self@.end_price >= price_limit@,
                    self@.fee_config,
                    self@.is_bundle,
                ),
                r,
            ),
    {
        let direction: bool = !self.end_price.lt(&price_limit);
        swap_price_then_amount(
            self.end_liquidity,
            price_limit,
            direction,
            self.fee_config,
            self.is_bundle,
        )
    }

    /// [`PoolSwapResult::swap_to_price`], if each of its swaps settles within a
    /// number of steps.
    pub fn swap_to_price_within(&'a self, price_limit: SqrtPriceX96, max_steps: u64) -> (r: Option<
        Result<PoolSwapResult<'a>, SwapSimulationError>,
    >)
        ensures
            ({
                let swap = price_swap(
                    self@.end_liquidity,
                    price_limit@,
                    self@.end_price >= price_limit@,
                    self@.fee_config,
                    self@.is_bundle,
                );
                let first = swap_outcome(swap, max_steps as nat);
                &&& r is Some <==> is_settled(first) && (first is Finished ==> is_settled(
                    swap_outcome(amount_swap_of(swap, first->Finished_0), max_steps as nat),
                ))
                &&& r matches Some(x) ==> price_then_amount_gives(swap, x)
            }),
    {
        let direction: bool = !self.end_price.lt(&price_limit);
        if price_then_amount_settles_within(
            self.end_liquidity,
            price_limit,
            direction,
            self.fee_config,
            self.is_bundle,
            max_steps,
        ) {
            Some(self.swap_to_price(price_limit))
        } else {
            None
        }
    }

    /// Whether the swap moved nothing on one side.
    pub fn was_empty_swap(&self) -> (r: bool)
        ensures
            r == (self.total_d_t0 == 0 || self.total_d_t1 == 0),
    {
        self.total_d_t0 == 0 || self.total_d_t1 == 0
    }

    /// Returns the amount of T0 exchanged over this swap with a sign attached,
    /// negative if performing this swap consumes T0 (T0 is the input quantity
    /// for the described swap) and positive if performing this swap provides T0
    /// (T0 is the output quantity for the described swap)
    pub fn t0_signed(&self) -> (r: I256)
        ensures
            r@ == if self@.start_price > self@.end_price {
                -(self.total_d_t0 as int)
            } else {
                self.total_d_t0 as int
            },
    {
        let val: I256 = I256::from_raw(U256::from_u128(self.total_d_t0));
        if self.zero_for_one() {
            val.neg()
        } else {
            val
        }
    }

    /// Returns the amount of T1 exchanged over this swap with a sign attached,
    /// negative if performing this swap consumes T1 (T1 is the input quantity
    /// for the described swap) and positive if performing this swap provides T1
    /// (T1 is the output quantity for the described swap)
    pub fn t1_signed(&self) -> (r: I256)
        ensures
            r@ == if self@.start_price > self@.end_price {
                self.total_d_t1 as int
            } else {
                -(self.total_d_t1 as int)
            },
    {
        let val: I256 = I256::from_raw(U256::from_u128(self.total_d_t1));
        if self.zero_for_one() {
            val
        } else {
            val.neg()
        }
    }

    /// Returns a boolean indicating whether this PoolPriceVec is
    /// `zero_for_one`.  This will be true if the AMM is buying T0 and the AMM
    /// price is decreasing, false if the AMM is selling T0 and the AMM price is
    /// increasing.
    pub fn zero_for_one(&self) -> (r: bool)
        ensures
            r == (self@.start_price > self@.end_price),
    {
        self.end_price.lt(&self.start_price)
    }

    /// What went in.
    pub fn input(&self) -> (r: u128)
        ensures
            r == if self@.start_price > self@.end_price {
                self.total_d_t0
            } else {
                self.total_d_t1
            },
    {
        if self.zero_for_one() {
            self.total_d_t0
        } else {
            self.total_d_t1
        }
    }

    /// What came out.
    pub fn output(&self) -> (r: u128)
        ensures
            r == if self@.start_price > self@.end_price {
                self.total_d_t1
            } else {
                self.total_d_t0
            },
    {
        if self.zero_for_one() {
            self.total_d_t1
        } else {
            self.total_d_t0
        }
    }
}

} // verus!
