//! What swaps charge, move and report, over their inputs and results.
use vstd::prelude::*;

use crate::arith::{
    max_sqrt_ratio, min_sqrt_ratio, sqrt_ratio_at_tick, swap_step, MAX_TICK, MIN_TICK,
};
use crate::errors::{swap_failure, SwapFailure, SwapSimulationError};
use crate::liquidity_base::point_after_step;
use crate::pool_state::{amount_swap_from, price_swap_from, PoolStateView};
use crate::pool_swap::{
    amount_swap_of, can_swap, is_settled, price_then_amount_gives, protocol_fee_on, step_target,
    sum_t0, sum_t1, swap_gives, swap_one_step, swap_outcome, swap_over, swap_settles, swap_start,
    swap_terms, swap_walk, PoolSwapResult, PoolSwapResultView, PoolSwapStep, PoolSwapView,
    StepOutcome, SwapOutcome, SwapProgress, SwapTerms, WalkOutcome,
};
use crate::tick_bitmap::next_tick_within_word;
use crate::words::{half_256, modulus_256};

verus! {

/// The totals of both tokens are additive over the steps, and of one step they are
/// what it moved.
pub proof fn totals_add_up(a: Seq<PoolSwapStep>, b: Seq<PoolSwapStep>, step: PoolSwapStep)
    ensures
        sum_t0(a + b) == sum_t0(a) + sum_t0(b),
        sum_t1(a + b) == sum_t1(a) + sum_t1(b),
        sum_t0(seq![step]) == step.d_t0,
        sum_t1(seq![step]) == step.d_t1,
    decreases b.len(),
{
    if b.len() == 0 {
        assert(a + b =~= a);
    } else {
        assert((a + b).drop_last() =~= a + b.drop_last());
        totals_add_up(a, b.drop_last(), step);
    }
    assert(seq![step].drop_last() =~= Seq::<PoolSwapStep>::empty());
    assert(sum_t0(Seq::<PoolSwapStep>::empty()) == 0);
    assert(sum_t1(Seq::<PoolSwapStep>::empty()) == 0);
}

/// The protocol fee on a total. Of an exact input it is the share of the total that
/// the rate gives in millionths, rounded down; for an exact output, where the rate is
/// below a whole, it is what has to be added for that share of the sum, rounded down,
/// to be the fee. It never falls with the total, and a rate of nothing charges nothing.
pub proof fn protocol_fee_is_the_share(total: u128, more: u128, rate: u32)
    requires
        total <= more,
    ensures
        ({
            let fee = protocol_fee_on(total as nat, rate, true);
            &&& fee * 1_000_000 <= total * rate < (fee + 1) * 1_000_000
            &&& fee <= protocol_fee_on(more as nat, rate, true)
            &&& rate == 0 ==> fee == 0
            &&& rate <= 1_000_000 ==> fee <= total
        }),
        rate < 1_000_000 ==> ({
            let fee = protocol_fee_on(total as nat, rate, false);
            let sum = total + fee;
            &&& sum * (1_000_000 - rate) <= total * 1_000_000 < (sum + 1) * (1_000_000 - rate)
            &&& 0 <= fee
            &&& fee <= protocol_fee_on(more as nat, rate, false)
            &&& rate == 0 ==> fee == 0
        }),
{
    let t = total as int;
    let m = more as int;
    let r = rate as int;
    assert(0 <= t * r <= m * r) by (nonlinear_arith)
        requires
            0 <= t <= m,
            0 <= r,
    ;
    vstd::arithmetic::div_mod::lemma_fundamental_div_mod(t * r, 1_000_000);
    vstd::arithmetic::div_mod::lemma_div_is_ordered(t * r, m * r, 1_000_000);
    if r == 0 {
        assert(t * r == 0) by (nonlinear_arith)
            requires
                r == 0,
        ;
    }
    if r <= 1_000_000 {
        assert(t * r <= t * 1_000_000) by (nonlinear_arith)
            requires
                0 <= t,
                0 <= r <= 1_000_000,
        ;
    }
    if r < 1_000_000 {
        exact_output_share(t, r);
        exact_output_share(m, r);
        let d = 1_000_000 - r;
        vstd::arithmetic::div_mod::lemma_div_is_ordered(t * 1_000_000, m * 1_000_000, d);
        let (x, y) = (t * 1_000_000 / d, m * 1_000_000 / d);
        // the fee grows with the total, since the sum grows by at least as much
        assert(y - x >= m - t) by (nonlinear_arith)
            requires
                x * d <= t * 1_000_000,
                m * 1_000_000 < (y + 1) * d,
                0 < d <= 1_000_000,
                t <= m,
        ;
    }
}

/// The sum of an exact output and of what is added to it.
proof fn exact_output_share(t: int, r: int)
    requires
        0 <= t <= u128::MAX,
        0 <= r < 1_000_000,
    ensures
        ({
            let d = 1_000_000 - r;
            let sum = t * 1_000_000 / d;
            &&& sum * d <= t * 1_000_000 < (sum + 1) * d
            &&& t <= sum
            &&& r == 0 ==> sum == t
            &&& protocol_fee_on(t as nat, r as u32, false) == sum - t
        }),
{
    let d = 1_000_000 - r;
    let sum = t * 1_000_000 / d;
    vstd::arithmetic::div_mod::lemma_fundamental_div_mod(t * 1_000_000, d);
    assert(sum * d <= t * 1_000_000 < (sum + 1) * d && t <= sum && sum <= t * 1_000_000 && (r == 0
        ==> sum == t)) by (nonlinear_arith)
        requires
            t * 1_000_000 == d * sum + (t * 1_000_000) % d,
            0 <= (t * 1_000_000) % d < d,
            d == 1_000_000 - r,
            0 < d <= 1_000_000,
            0 <= r,
            0 <= t,
    ;
    vstd::arithmetic::div_mod::lemma_small_mod(d as nat, modulus_256() as nat);
    vstd::arithmetic::div_mod::lemma_small_mod((sum - t) as nat, modulus_256() as nat);
}

/// A rate above a whole on an exact output leaves nothing to add the fee to: the fee is
/// more than fits 128 bits, unless the total is nothing.
pub proof fn rate_above_a_whole(total: u128, rate: u32)
    requires
        rate > 1_000_000,
    ensures
        total == 0 ==> protocol_fee_on(total as nat, rate, false) == 0,
        total > 0 ==> protocol_fee_on(total as nat, rate, false) > u128::MAX,
{
    let t = total as int;
    let d = 1_000_000 - rate + modulus_256();
    vstd::arithmetic::div_mod::lemma_mod_add_multiples_vanish(1_000_000 - rate, modulus_256());
    vstd::arithmetic::div_mod::lemma_small_mod(d as nat, modulus_256() as nat);
    assert((1_000_000 - rate) % modulus_256() == d);
    assert(t * 1_000_000 < d);
    vstd::arithmetic::div_mod::lemma_basic_div(t * 1_000_000, d);
    if t > 0 {
        vstd::arithmetic::div_mod::lemma_mod_add_multiples_vanish(0 - t, modulus_256());
        vstd::arithmetic::div_mod::lemma_small_mod(
            (modulus_256() - t) as nat,
            modulus_256() as nat,
        );
    }
}

/// What went in and what came out over a step or a swap: token 0 goes in where the
/// direction is down, and token 1 otherwise.
pub open spec fn in_and_out(direction: bool, d_t0: u128, d_t1: u128) -> (u128, u128) {
    if direction {
        (d_t0, d_t1)
    } else {
        (d_t1, d_t0)
    }
}

/// One step of a swap is the step that the price arithmetic gives from the price, the
/// liquidity and the amount that is left, with the fee of the swap, towards the price
/// of the next tick, or the limit where that comes first. What goes in is the input of
/// that step and its fee, and what comes out is its output. An exact input shrinks by
/// what goes in, and an exact output by what comes out. It reports the tick that it ran
/// to, whether that is initialized, and the liquidity that it was taken with.
pub proof fn step_is_the_priced_one(swap: PoolSwapView, s: SwapProgress, fee: u32)
    requires
        swap.is_bundle ==> fee == 0,
        !swap.is_bundle ==> fee == swap.fee_config.swap_fee,
        swap_one_step(swap_terms(swap), s) is Next,
    ensures
        ({
            let after = swap_one_step(swap_terms(swap), s)->Next_0;
            let limit = swap_terms(swap).limit;
            let next = next_tick_within_word(
                s.point.bitmap,
                s.point.tick as int,
                s.point.tick_spacing as int,
                swap.direction,
            );
            let tick_price = sqrt_ratio_at_tick(next.0);
            exists|target: nat|
                (#[trigger] swap_step(
                    s.price,
                    target,
                    s.point.liquidity,
                    s.remaining,
                    fee,
                )) matches Some(step) && {
                    let taken = after.steps.last();
                    let (paid, received) = in_and_out(swap.direction, taken.d_t0, taken.d_t1);
                    &&& target == limit || target == tick_price
                    &&& swap.direction ==> target >= limit && target >= tick_price
                    &&& !swap.direction ==> target <= limit && target <= tick_price
                    &&& after.price == step.sqrt_price_next
                    &&& paid == (step.amount_in + step.fee_amount) as int % modulus_256()
                    &&& received == step.amount_out
                    &&& after.steps == s.steps.push(taken)
                    &&& taken.end_tick == next.0
                    &&& taken.init == next.1
                    &&& taken.liquidity == s.point.liquidity
                    &&& swap.target_amount > 0 && 0 <= s.remaining < half_256() && step.amount_in
                        + step.fee_amount <= s.remaining ==> after.remaining == s.remaining - paid
                    &&& swap.target_amount <= 0 && -half_256() < s.remaining <= 0
                        && step.amount_out <= -s.remaining ==> after.remaining == s.remaining
                        + received
                }
        }),
{
    let terms = swap_terms(swap);
    let next = next_tick_within_word(
        s.point.bitmap,
        s.point.tick as int,
        s.point.tick_spacing as int,
        swap.direction,
    );
    let target = step_target(terms, sqrt_ratio_at_tick(next.0));
    let step = swap_step(s.price, target, s.point.liquidity, s.remaining, terms.fee)->0;
    assert(swap_step(s.price, target, s.point.liquidity, s.remaining, terms.fee) == Some(step));
    let after = swap_one_step(terms, s)->Next_0;
    let taken = after.steps.last();
    assert(after.steps == s.steps.push(taken));
    let (paid, received) = in_and_out(swap.direction, taken.d_t0, taken.d_t1);
    assert(paid == (step.amount_in + step.fee_amount) as int % modulus_256());
    assert(received == step.amount_out);
    if swap.target_amount > 0 && 0 <= s.remaining < half_256() && step.amount_in + step.fee_amount
        <= s.remaining {
        vstd::arithmetic::div_mod::lemma_small_mod(
            step.amount_in + step.fee_amount,
            modulus_256() as nat,
        );
        assert(after.remaining == s.remaining - paid);
    }
}

/// When a step fails or is stopped: it fails with an invalid tick where the pool has no
/// spacing, with the price arithmetic where that gives nothing, and otherwise as moving
/// on does; it is stopped where the amount is the smallest one, the fee above a whole,
/// or what it moves does not fit 128 bits.
pub proof fn step_fails_as_told(swap: PoolSwapView, s: SwapProgress)
    ensures
        s.point.tick_spacing <= 0 ==> swap_one_step(swap_terms(swap), s) == StepOutcome::Failed(
            SwapFailure::InvalidTick,
        ),
        s.point.tick_spacing > 0 && (s.remaining == -half_256() || (!swap.is_bundle
            && swap.fee_config.swap_fee > 1_000_000)) ==> swap_one_step(swap_terms(swap), s)
            is Stopped,
        swap_one_step(swap_terms(swap), s) is Stopped && s.point.tick_spacing > 0 && s.remaining
            != -half_256() && (swap.is_bundle || swap.fee_config.swap_fee <= 1_000_000)
            ==> exists|target: nat|
            (#[trigger] swap_step(
                s.price,
                target,
                s.point.liquidity,
                s.remaining,
                swap_terms(swap).fee,
            )) matches Some(step) && (step.amount_out > u128::MAX || (step.amount_in + step.fee_amount)
                as int % modulus_256() > u128::MAX),
{
    let terms = swap_terms(swap);
    let next = next_tick_within_word(
        s.point.bitmap,
        s.point.tick as int,
        s.point.tick_spacing as int,
        swap.direction,
    );
    let target = step_target(terms, sqrt_ratio_at_tick(next.0));
    if swap_one_step(terms, s) is Stopped && s.point.tick_spacing > 0 && s.remaining != -half_256()
        && (swap.is_bundle || swap.fee_config.swap_fee <= 1_000_000) {
        let step = swap_step(s.price, target, s.point.liquidity, s.remaining, terms.fee)->0;
        assert(swap_step(s.price, target, s.point.liquidity, s.remaining, terms.fee) == Some(step));
    }
}

/// Whether a step was charged a fee rate: its amounts are those of a step of the price
/// arithmetic with that rate and the liquidity of the step.
pub open spec fn is_charged(direction: bool, fee: u32, step: PoolSwapStep) -> bool {
    exists|price: nat, target: nat, remaining: int|
        (#[trigger] swap_step(price, target, step.liquidity, remaining, fee)) matches Some(priced)
            && in_and_out(
            direction,
            step.d_t0,
            step.d_t1,
        ).0 == (priced.amount_in + priced.fee_amount) as int % modulus_256() && in_and_out(
            direction,
            step.d_t0,
            step.d_t1,
        ).1 == priced.amount_out
}

/// A step on the way of a swap was charged the fee of the swap.
proof fn step_is_charged(swap: PoolSwapView, s: SwapProgress, fee: u32)
    requires
        swap.is_bundle ==> fee == 0,
        !swap.is_bundle ==> fee == swap.fee_config.swap_fee,
        swap_one_step(swap_terms(swap), s) is Next,
    ensures
        is_charged(
            swap.direction,
            fee,
            swap_one_step(swap_terms(swap), s)->Next_0.steps.last(),
        ),
{
    step_is_the_priced_one(swap, s, fee);
    let terms = swap_terms(swap);
    let next = next_tick_within_word(
        s.point.bitmap,
        s.point.tick as int,
        s.point.tick_spacing as int,
        swap.direction,
    );
    let target = step_target(terms, sqrt_ratio_at_tick(next.0));
    let priced = swap_step(s.price, target, s.point.liquidity, s.remaining, terms.fee)->0;
    assert(swap_step(s.price, target, s.point.liquidity, s.remaining, terms.fee) == Some(priced));
}

/// What every walk of a swap keeps, and what its steps were charged.
proof fn walk_is_charged(swap: PoolSwapView, s: SwapProgress, n: nat, fee: u32)
    requires
        swap.is_bundle ==> fee == 0,
        !swap.is_bundle ==> fee == swap.fee_config.swap_fee,
        swap_walk(swap_terms(swap), s, n) is Ended,
    ensures
        ({
            let end = swap_walk(swap_terms(swap), s, n)->Ended_0;
            &&& s.steps.len() <= end.steps.len()
            &&& forall|k: int| 0 <= k < s.steps.len() ==> #[trigger] end.steps[k] == s.steps[k]
            &&& forall|k: int|
                s.steps.len() <= k < end.steps.len() ==> is_charged(
                    swap.direction,
                    fee,
                    #[trigger] end.steps[k],
                )
            &&& end.point.ticks == s.point.ticks
            &&& end.point.bitmap == s.point.bitmap
            &&& end.point.tick_spacing == s.point.tick_spacing
            &&& end.remaining == 0 || end.price == swap_terms(swap).limit
            &&& end.steps.len() > s.steps.len() ==> s.remaining != 0 && s.price != swap_terms(
                swap,
            ).limit
        }),
    decreases n,
{
    let terms = swap_terms(swap);
    if !swap_over(terms, s) {
        let after = swap_one_step(terms, s)->Next_0;
        step_is_the_priced_one(swap, s, fee);
        step_is_charged(swap, s, fee);
        walk_is_charged(swap, after, (n - 1) as nat, fee);
        let end = swap_walk(terms, s, n)->Ended_0;
        let m = s.steps.len() as int;
        assert(after.steps[m] == after.steps.last());
        assert forall|k: int| 0 <= k < s.steps.len() implies #[trigger] end.steps[k]
            == s.steps[k] by {
            assert(end.steps[k] == after.steps[k]);
        }
        assert forall|k: int| m <= k < end.steps.len() implies is_charged(
            swap.direction,
            fee,
            #[trigger] end.steps[k],
        ) by {
            if k == m {
                assert(end.steps[m] == after.steps[m]);
            }
        }
    }
}

/// Outside bundles every step of a swap is computed with the swap fee of the pool, for
/// every rate, and in a bundle with none.
pub proof fn every_step_is_charged_the_swap_fee(swap: PoolSwapView, n: nat, fee: u32)
    requires
        swap.is_bundle ==> fee == 0,
        !swap.is_bundle ==> fee == swap.fee_config.swap_fee,
        swap_outcome(swap, n) is Finished,
    ensures
        forall|k: int|
            0 <= k < swap_outcome(swap, n)->Finished_0.steps.len() ==> is_charged(
                swap.direction,
                fee,
                #[trigger] swap_outcome(swap, n)->Finished_0.steps[k],
            ),
{
    walk_is_charged(swap, swap_start(swap), n, fee);
}

/// What the result of a swap reports: where it started and ended, what its steps moved
/// together, the fees of the pool and the mode of the swap. Its end is that of its end
/// liquidity, which has the ticks, the bitmap and the spacing of the start. It took no
/// step where nothing was to be swapped.
pub proof fn result_reports_the_swap(swap: PoolSwapView, n: nat)
    requires
        swap_outcome(swap, n) is Finished,
    ensures
        ({
            let result = swap_outcome(swap, n)->Finished_0;
            &&& result.start_price == swap.liquidity.sqrt_price
            &&& result.start_tick == swap.liquidity.tick
            &&& result.fee_config == swap.fee_config
            &&& result.is_bundle == swap.is_bundle
            &&& result.total_d_t0 == sum_t0(result.steps)
            &&& result.total_d_t1 == sum_t1(result.steps)
            &&& result.end_price == result.end_liquidity.sqrt_price
            &&& result.end_tick == result.end_liquidity.tick
            &&& result.end_liquidity.ticks == swap.liquidity.ticks
            &&& result.end_liquidity.bitmap == swap.liquidity.bitmap
            &&& result.end_liquidity.tick_spacing == swap.liquidity.tick_spacing
            &&& result.steps.len() == 0 ==> result.end_liquidity == swap.liquidity
            &&& result.steps.len() == 0 <==> swap.target_amount == 0 || swap.liquidity.sqrt_price
                == swap_terms(swap).limit
        }),
{
    let terms = swap_terms(swap);
    let start = swap_start(swap);
    let fee = terms.fee;
    walk_is_charged(swap, start, n, fee);
    if !swap_over(terms, start) {
        let after = swap_one_step(terms, start)->Next_0;
        step_is_the_priced_one(swap, start, fee);
        walk_is_charged(swap, after, (n - 1) as nat, fee);
    }
}

/// The protocol fee of a swap outside bundles is taken in the token that the amount was
/// not given in: of an exact input it is the share of what comes out, in the token that
/// comes out, and of an exact output what is added to what goes in, in the token that
/// goes in. In a bundle there is none.
pub proof fn protocol_fee_is_in_the_other_token(swap: PoolSwapView, n: nat)
    requires
        swap_outcome(swap, n) is Finished,
    ensures
        ({
            let result = swap_outcome(swap, n)->Finished_0;
            let fee = result.protocol_fee_amount;
            let rate = swap.fee_config.protocol_fee;
            let (paid, received) = in_and_out(
                swap.direction,
                result.total_d_t0,
                result.total_d_t1,
            );
            &&& swap.is_bundle ==> fee == 0 && !result.protocol_fee_token
            &&& !swap.is_bundle && swap.target_amount > 0 ==> {
                &&& fee * 1_000_000 <= received * rate
                &&& fee < u128::MAX || rate <= 1_000_000 ==> received * rate < (fee + 1) * 1_000_000
            }
            &&& !swap.is_bundle ==> result.protocol_fee_token == if swap.target_amount > 0 {
                swap.direction
            } else {
                !swap.direction
            }
            &&& !swap.is_bundle && swap.target_amount <= 0 && rate > 1_000_000 ==> fee == if paid
                == 0 {
                0
            } else {
                u128::MAX
            }
            &&& !swap.is_bundle && swap.target_amount <= 0 ==> rate != 1_000_000
            &&& !swap.is_bundle && swap.target_amount <= 0 && rate < 1_000_000 ==> {
                &&& fee < u128::MAX ==> (paid + fee) * (1_000_000 - rate) <= paid * 1_000_000 < (
                paid + fee + 1) * (1_000_000 - rate)
                &&& fee == u128::MAX ==> (paid + fee) * (1_000_000 - rate) <= paid * 1_000_000
            }
        }),
{
    let result = swap_outcome(swap, n)->Finished_0;
    let rate = swap.fee_config.protocol_fee;
    let (paid, received) = in_and_out(swap.direction, result.total_d_t0, result.total_d_t1);
    protocol_fee_is_the_share(received, received, rate);
    protocol_fee_is_the_share(paid, paid, rate);
    if rate > 1_000_000 {
        rate_above_a_whole(paid, rate);
    }
    if !swap.is_bundle && swap.target_amount <= 0 && rate < 1_000_000 {
        let whole = protocol_fee_on(paid as nat, rate, false);
        let fee = result.protocol_fee_amount as int;
        assert(fee <= whole);
        assert((paid + fee) * (1_000_000 - rate) <= (paid + whole) * (1_000_000 - rate))
            by (nonlinear_arith)
            requires
                fee <= whole,
                0 <= rate < 1_000_000,
        ;
    }
}

/// The steps of a swap fail for what they meet on the way, not for the limit.
proof fn walk_does_not_fail_for_the_limit(terms: SwapTerms, s: SwapProgress, n: nat)
    ensures
        swap_walk(terms, s, n) != WalkOutcome::Failed(SwapFailure::PriceLimit),
        swap_walk(terms, s, n) != WalkOutcome::Failed(SwapFailure::ZeroAmount),
    decreases n,
{
    if !swap_over(terms, s) && n > 0 {
        if let StepOutcome::Next(after) = swap_one_step(terms, s) {
            walk_does_not_fail_for_the_limit(terms, after, (n - 1) as nat);
        }
    }
}

/// A swap fails for its limit where it is asked to end above the price that it starts at
/// while selling token 0, whatever its amount and however many steps it is given, and in
/// no other case.
pub proof fn wrong_side_fails_at_once(swap: PoolSwapView, n: nat)
    ensures
        swap_outcome(swap, n) == SwapOutcome::Failed(SwapFailure::PriceLimit) <==> swap.direction
            && (swap.target_price matches Some(price) && price > swap.liquidity.sqrt_price),
{
    walk_does_not_fail_for_the_limit(swap_terms(swap), swap_start(swap), n);
}

/// A swap whose steps came to an end finishes with these steps at the price and the point
/// where they ended, wherever both totals fit 128 bits and the protocol fee of an exact
/// output leaves something; one that failed on the way fails the same.
pub proof fn ended_swap_finishes(swap: PoolSwapView, n: nat)
    requires
        !swap.direction || swap.target_price is None || swap.target_price->0
            <= swap.liquidity.sqrt_price,
    ensures
        swap_walk(swap_terms(swap), swap_start(swap), n) matches WalkOutcome::Ended(s) ==> sum_t0(
            s.steps,
        ) <= u128::MAX && sum_t1(s.steps) <= u128::MAX && (swap.is_bundle || swap.target_amount > 0
            || swap.fee_config.protocol_fee != 1_000_000) ==> (swap_outcome(
            swap,
            n,
        ) matches SwapOutcome::Finished(result) && result.steps == s.steps && result.end_price
            == s.price && result.end_tick == s.point.tick && result.end_liquidity.liquidity
            == s.point.liquidity),
        swap_walk(swap_terms(swap), swap_start(swap), n) matches WalkOutcome::Failed(failure)
            ==> swap_outcome(swap, n) == SwapOutcome::Failed(failure),
        swap_walk(swap_terms(swap), swap_start(swap), n) is Unfinished ==> swap_outcome(swap, n)
            is Unfinished,
        ({
            let start = swap_start(swap);
            &&& start.price == swap.liquidity.sqrt_price
            &&& start.remaining == swap.target_amount
            &&& start.point == swap.liquidity
            &&& start.steps.len() == 0
        }),
{
}

/// A step takes place wherever it can: where the pool has a spacing, the amount is not the
/// smallest one, the fee is no more than a whole, the price arithmetic gives a step and
/// its amounts fit 128 bits, the swap moves on to where that step leaves it. The tick is
/// reached exactly where the price comes to its price. Where the price arithmetic gives
/// nothing the step fails for that.
pub proof fn step_takes_place(swap: PoolSwapView, s: SwapProgress, target: nat, fee: u32)
    requires
        s.point.tick_spacing > 0,
        s.remaining != -half_256(),
        fee <= 1_000_000,
        swap.is_bundle ==> fee == 0,
        !swap.is_bundle ==> fee == swap.fee_config.swap_fee,
        ({
            let tick_price = sqrt_ratio_at_tick(
                next_tick_within_word(
                    s.point.bitmap,
                    s.point.tick as int,
                    s.point.tick_spacing as int,
                    swap.direction,
                ).0,
            );
            let limit = swap_terms(swap).limit;
            &&& target == limit || target == tick_price
            &&& swap.direction ==> target >= limit && target >= tick_price
            &&& !swap.direction ==> target <= limit && target <= tick_price
        }),
    ensures
        ({
            let tick_price = sqrt_ratio_at_tick(
                next_tick_within_word(
                    s.point.bitmap,
                    s.point.tick as int,
                    s.point.tick_spacing as int,
                    swap.direction,
                ).0,
            );
            let outcome = swap_one_step(swap_terms(swap), s);
            match swap_step(s.price, target, s.point.liquidity, s.remaining, fee) {
                None => outcome == StepOutcome::Failed(SwapFailure::Math),
                Some(step) => step.amount_out <= u128::MAX && (step.amount_in + step.fee_amount)
                    as int % modulus_256() <= u128::MAX ==> match point_after_step(
                    s.point,
                    step.sqrt_price_next,
                    swap.direction,
                    step.sqrt_price_next == tick_price,
                    step.sqrt_price_next != s.price,
                ) {
                    Ok(point) => outcome is Next && outcome->Next_0.point == point
                        && outcome->Next_0.price == step.sqrt_price_next,
                    Err(failure) => outcome == StepOutcome::Failed(failure),
                },
            }
        }),
{
}

/// A swap goes on from where its first step left it: it comes to what it comes to from
/// there with one step less.
pub proof fn swap_goes_step_by_step(terms: SwapTerms, s: SwapProgress, n: nat)
    ensures
        s.remaining == 0 || s.price == terms.limit ==> swap_walk(terms, s, n)
            == WalkOutcome::Ended(s),
        s.remaining != 0 && s.price != terms.limit ==> match swap_one_step(terms, s) {
            StepOutcome::Next(after) => swap_walk(terms, s, n + 1) == swap_walk(terms, after, n),
            StepOutcome::Failed(failure) => swap_walk(terms, s, n + 1) == WalkOutcome::Failed(
                failure,
            ),
            StepOutcome::Stopped => swap_walk(terms, s, n + 1) is Stopped,
        },
        s.remaining != 0 && s.price != terms.limit ==> swap_walk(terms, s, 0) is Unfinished,
{
}

/// The swaps of a pool. A swap of an amount starts at the price of the pool, with its
/// fees and in its mode, and stops at no price of its own; a swap to a price goes down
/// where the price is not above that of the pool, and up otherwise, with an amount that
/// it does not run out of. The swap of the amount that a swap to a price took is the one
/// of what went in, from the same start.
pub proof fn swaps_of_a_pool(
    state: PoolStateView,
    amount: int,
    direction: bool,
    price: nat,
    result: PoolSwapResultView,
)
    ensures
        ({
            let swap = amount_swap_from(state, amount, direction);
            &&& swap.liquidity == state.liquidity
            &&& swap.target_price is None
            &&& swap.target_amount == amount
            &&& swap.direction == direction
            &&& swap.fee_config == state.fee_config
            &&& swap.is_bundle == state.fee_config.is_bundle_mode
        }),
        ({
            let swap = price_swap_from(state, price);
            let again = amount_swap_of(swap, result);
            &&& swap.liquidity == state.liquidity
            &&& swap.target_price == Some(price)
            &&& swap.target_amount > u128::MAX
            &&& swap.target_amount == half_256() - 1
            &&& swap.direction <==> price <= state.liquidity.sqrt_price
            &&& swap.fee_config == state.fee_config
            &&& swap.is_bundle == state.fee_config.is_bundle_mode
            &&& again.target_amount == in_and_out(
                swap.direction,
                result.total_d_t0,
                result.total_d_t1,
            ).0
            &&& again.target_price is None
            &&& again.liquidity == state.liquidity
            &&& again.direction == swap.direction
            &&& again.fee_config == state.fee_config
            &&& again.is_bundle == swap.is_bundle
        }),
{
}

/// Every swap that finishes or fails after some number of steps can be simulated, and so
/// can one from a price in its tick to a limit on the right side of it within the price
/// grid, wherever no amount on the way is too large, whatever its amount and its fees.
pub proof fn swaps_can_be_simulated(swap: PoolSwapView, n: nat)
    ensures
        swap_outcome(swap, n) is Finished || swap_outcome(swap, n) is Failed ==> can_swap(swap),
        ({
            let limit = swap_terms(swap).limit;
            let price = swap.liquidity.sqrt_price;
            &&& min_sqrt_ratio() <= limit <= max_sqrt_ratio()
            &&& 0 < price < 0x1_0000_0000_0000_0000_0000_0000_0000_0000_0000_0000nat
            &&& swap.direction ==> limit <= price
            &&& !swap.direction ==> price <= limit
            &&& swap.direction ==> MIN_TICK <= swap.liquidity.tick <= MAX_TICK
                && sqrt_ratio_at_tick(swap.liquidity.tick) <= price
            &&& !swap.direction ==> MIN_TICK <= swap.liquidity.tick < MAX_TICK && price
                <= sqrt_ratio_at_tick((swap.liquidity.tick + 1) as i32)
            &&& forall|m: nat| !(#[trigger] swap_outcome(swap, m) is Stopped)
        }) ==> can_swap(swap),
{
    if is_settled(swap_outcome(swap, n)) {
        assert(swap_settles(swap));
    }
}

/// What simulating a swap gives is what the swap comes to: its result where it finishes,
/// and an error of its kind where it fails.
pub proof fn swap_gives_its_outcome<'a>(
    swap: PoolSwapView,
    r: Result<PoolSwapResult<'a>, SwapSimulationError>,
    n: nat,
)
    requires
        swap_gives(swap, r),
    ensures
        swap_outcome(swap, n) matches SwapOutcome::Finished(result) ==> r is Ok && r->Ok_0@ == result,
        swap_outcome(swap, n) matches SwapOutcome::Failed(failure) ==> r is Err && swap_failure(
            r->Err_0,
        ) == failure,
        exists|m: nat|
            #[trigger] swap_outcome(swap, m) is Finished || swap_outcome(swap, m) is Failed,
{
    let m = choose|m: nat| is_settled(#[trigger] swap_outcome(swap, m));
    assert(is_settled(swap_outcome(swap, m)));
}

/// A swap to a price that is given as a swap of an amount: where the swap to the price
/// finishes, what is given is what the swap of the amount that went in comes to, from the
/// same point, in the same direction and with the same fees; where it fails, an error of
/// its kind.
pub proof fn price_swap_is_given_as_amount_swap<'a>(
    swap: PoolSwapView,
    r: Result<PoolSwapResult<'a>, SwapSimulationError>,
    n: nat,
    m: nat,
)
    requires
        price_then_amount_gives(swap, r),
    ensures
        swap_outcome(swap, n) matches SwapOutcome::Failed(failure) ==> r is Err && swap_failure(
            r->Err_0,
        ) == failure,
        swap_outcome(swap, n) matches SwapOutcome::Finished(result) ==> {
            let again = PoolSwapView {
                liquidity: swap.liquidity,
                target_price: None,
                target_amount: in_and_out(
                    swap.direction,
                    result.total_d_t0,
                    result.total_d_t1,
                ).0 as int,
                direction: swap.direction,
                fee_config: swap.fee_config,
                is_bundle: swap.is_bundle,
            };
            &&& swap_outcome(again, m) matches SwapOutcome::Finished(second) ==> r is Ok
                && r->Ok_0@ == second
            &&& swap_outcome(again, m) matches SwapOutcome::Failed(failure) ==> r is Err
                && swap_failure(r->Err_0) == failure
        },
{
    if let SwapOutcome::Finished(result) = swap_outcome(swap, n) {
        let again = PoolSwapView {
            liquidity: swap.liquidity,
            target_price: None,
            target_amount: in_and_out(
                swap.direction,
                result.total_d_t0,
                result.total_d_t1,
            ).0 as int,
            direction: swap.direction,
            fee_config: swap.fee_config,
            is_bundle: swap.is_bundle,
        };
        assert(again =~= amount_swap_of(swap, result));
        assert(swap_gives(again, r));
        swap_gives_its_outcome(again, r, m);
    }
}

} // verus!
