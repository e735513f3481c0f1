//! The swap: the price moves from tick to tick, in the direction of the
//! swap, until the input is used up or the price limit is reached.

use crate::consistency::lemma_swap_keeps_consistent;
use crate::error::SwapV3Error;
use crate::market::{Market, MarketState};
use crate::state::{Pool, Tick};
use crate::tick_map::{
    greatest_in, index_of, least_in, lemma_greatest_in, lemma_index_of_from, lemma_least_in,
    with_crossing, TickMap,
};
use crate::utils::{
    get_tick_between, lemma_sqrt_ratio_in_range, lemma_sqrt_ratio_increases,
    lemma_sqrt_ratio_ordered, lemma_tick_between, mul_div, mul_div_spec, sqrt_ratio_at_tick,
    sqrt_ratio_in_bounds, tick_between, tick_in_bounds, Q64, TICK_LIMIT,
};
use vstd::prelude::*;

verus! {

/// The number of basis points in a whole.
pub const FEE_DENOMINATOR: u128 = 10_000;

/// How a swap ended.
#[derive(Debug, Clone, Copy, PartialEq, Eq, Structural)]
pub enum SwapStatus {
    /// The whole input was used.
    Done,
    /// The price reached the limit, or the end of the tick range, before
    /// the input was used up.
    LimitReached,
}

/// What a swap used and produced.
#[derive(Debug, Clone, Copy, PartialEq, Eq, Structural)]
pub struct SwapOutcome {
    /// The input that was used.
    pub amount_in: u128,
    /// The output that was produced.
    pub amount_out: u128,
    /// How the swap ended.
    pub status: SwapStatus,
}

/// A swap under way: the pool as the steps so far leave it, the input
/// still to use, and the output so far.
#[derive(Debug, Clone, Copy, PartialEq, Eq)]
pub struct SwapState {
    /// The pool as the steps so far leave it.
    pub pool: Pool,
    /// The input still to use.
    pub amount_remaining: u128,
    /// The output so far.
    pub amount_out: u128,
}

/// Whether the price has reached the limit: at or below it for a swap of
/// the first token for the second, which lowers the price, at or above it
/// for the other direction.
pub open spec fn limit_reached(sqrt_price: u128, limit: u128, zero_for_one: bool) -> bool {
    if zero_for_one {
        sqrt_price <= limit
    } else {
        sqrt_price >= limit
    }
}

/// The tick that bounds a step, and whether it has a record. On the way
/// down it is the greatest tick with a record that does not exceed the
/// current tick, on the way up the least one above it; where there is
/// none, the end of the tick range.
pub open spec fn step_target(ticks: Seq<Tick>, current_tick: int, zero_for_one: bool) -> (
    i32,
    bool,
) {
    if zero_for_one {
        match greatest_in(ticks, -TICK_LIMIT as int, current_tick, ticks.len() as int) {
            Some(tick) => (tick, true),
            None => ((-TICK_LIMIT) as i32, false),
        }
    } else {
        match least_in(ticks, current_tick, TICK_LIMIT as int, ticks.len() as int) {
            Some(tick) => (tick, true),
            None => (TICK_LIMIT, false),
        }
    }
}

/// The price at which a step ends at the latest: the price of the target
/// tick or the limit, whichever is closer, and never behind the current
/// price.
pub open spec fn step_boundary(
    sqrt_price: u128,
    target_price: u128,
    limit: u128,
    zero_for_one: bool,
) -> u128 {
    if zero_for_one {
        let closer = if target_price >= limit {
            target_price
        } else {
            limit
        };
        if closer <= sqrt_price {
            closer
        } else {
            sqrt_price
        }
    } else {
        let closer = if target_price <= limit {
            target_price
        } else {
            limit
        };
        if closer >= sqrt_price {
            closer
        } else {
            sqrt_price
        }
    }
}

/// The tick at which the price comes to rest within a step: what bisection
/// finds between the current tick and the target, the target itself left
/// out on the way up where it has a record.
pub open spec fn resting_tick(
    current_tick: int,
    target_tick: int,
    initialized: bool,
    sqrt_price: int,
    zero_for_one: bool,
) -> int {
    if zero_for_one {
        tick_between(target_tick, current_tick, sqrt_price)
    } else if initialized {
        tick_between(current_tick, target_tick - 1, sqrt_price)
    } else {
        tick_between(current_tick, target_tick, sqrt_price)
    }
}

/// The pool and the output after a step has taken `step_in` of the input
/// at the pool's price: the fee is the pool's fee share of the step's
/// input; the rest, valued at the price, is added to the output; the fee
/// is added to the fees collected in the input token and, divided by the
/// active liquidity, to its fee growth.
pub open spec fn settled(state: SwapState, step_in: u128, zero_for_one: bool) -> Result<
    (Pool, u128),
    SwapV3Error,
> {
    let pool = state.pool;
    let fee = mul_div_spec(step_in as nat, pool.fee as nat, FEE_DENOMINATOR as nat);
    if fee is None || fee->0 > step_in {
        Err(SwapV3Error::Overflow)
    } else {
        let paid = (step_in - fee->0) as nat;
        let produced = if zero_for_one {
            mul_div_spec(paid, pool.sqrt_price_x64 as nat, Q64 as nat)
        } else {
            mul_div_spec(paid, Q64 as nat, pool.sqrt_price_x64 as nat)
        };
        let growth = if pool.active_liquidity == 0 {
            Some(0u128)
        } else {
            mul_div_spec(fee->0 as nat, Q64 as nat, pool.active_liquidity as nat)
        };
        let growth_before = if zero_for_one {
            pool.fee_growth_global_0
        } else {
            pool.fee_growth_global_1
        };
        let fees_before = if zero_for_one {
            pool.total_fee0
        } else {
            pool.total_fee1
        };
        if produced is None || growth is None || state.amount_out + produced->0 > u128::MAX
            || growth_before + growth->0 > u128::MAX || fees_before + fee->0 > u128::MAX {
            Err(SwapV3Error::Overflow)
        } else if zero_for_one {
            Ok(
                (
                    Pool {
                        fee_growth_global_0: (growth_before + growth->0) as u128,
                        total_fee0: (fees_before + fee->0) as u128,
                        ..pool
                    },
                    (state.amount_out + produced->0) as u128,
                ),
            )
        } else {
            Ok(
                (
                    Pool {
                        fee_growth_global_1: (growth_before + growth->0) as u128,
                        total_fee1: (fees_before + fee->0) as u128,
                        ..pool
                    },
                    (state.amount_out + produced->0) as u128,
                ),
            )
        }
    }
}

/// One step of a swap: the state and the ticks after it, and whether it
/// crossed a tick.
///
/// The step is bounded by the target tick or the price limit. The most
/// that it can take is `liquidity * distance / 2^64`, for the active
/// liquidity and the distance of the price from that boundary. Where the
/// remaining input is within that (below it, on the way up), the step
/// takes all of it, the price moves by `input * 2^64 / liquidity`, and the
/// current tick becomes the tick of the new price. Otherwise the step
/// takes the most, the price moves to the boundary and, where the boundary
/// is a tick with a record, the tick is crossed: the active liquidity
/// changes by what the tick holds. On the way up the current tick becomes
/// the tick; on the way down it becomes the one below, and the price comes
/// to lie just below that of the tick. A tick whose price is the limit is
/// not crossed on the way down.
pub open spec fn swap_step(state: SwapState, ticks: Seq<Tick>, zero_for_one: bool, limit: u128)
    -> Result<(SwapState, Seq<Tick>, bool), SwapV3Error> {
    let pool = state.pool;
    let price = pool.sqrt_price_x64;
    let liquidity = pool.active_liquidity;
    let (target_tick, initialized) = step_target(ticks, pool.current_tick as int, zero_for_one);
    let target_price = sqrt_ratio_at_tick(target_tick as int) as u128;
    let boundary = step_boundary(price, target_price, limit, zero_for_one);
    let distance = if zero_for_one {
        price - boundary
    } else {
        boundary - price
    };
    let reaches_tick = initialized && if zero_for_one {
        limit < target_price
    } else {
        target_price <= limit
    };
    let most = mul_div_spec(liquidity as nat, distance as nat, Q64 as nat);
    if !tick_in_bounds(pool.current_tick as int) {
        Err(SwapV3Error::InvalidTick)
    } else if most is None {
        Err(SwapV3Error::Overflow)
    } else {
        let fits = if zero_for_one {
            state.amount_remaining <= most->0
        } else {
            state.amount_remaining < most->0
        };
        let step_in = if fits {
            state.amount_remaining
        } else {
            most->0
        };
        match settled(state, step_in, zero_for_one) {
            Err(e) => Err(e),
            Ok((paid_pool, amount_out)) => {
                if fits {
                    let moved = if liquidity == 0 {
                        0
                    } else {
                        (step_in * Q64) / (liquidity as int)
                    };
                    let new_price = if zero_for_one {
                        price - moved
                    } else {
                        price + moved
                    };
                    Ok(
                        (
                            SwapState {
                                pool: Pool {
                                    sqrt_price_x64: new_price as u128,
                                    current_tick: resting_tick(
                                        pool.current_tick as int,
                                        target_tick as int,
                                        initialized,
                                        new_price,
                                        zero_for_one,
                                    ) as i32,
                                    ..paid_pool
                                },
                                amount_remaining: 0,
                                amount_out,
                            },
                            ticks,
                            false,
                        ),
                    )
                } else if reaches_tick {
                    match with_crossing(
                        ticks,
                        target_tick as int,
                        paid_pool.fee_growth_global_0,
                        paid_pool.fee_growth_global_1,
                        !zero_for_one,
                    ) {
                        Err(e) => Err(e),
                        Ok((crossed, delta)) => if liquidity + delta < 0 || liquidity + delta
                            > u128::MAX {
                            Err(SwapV3Error::Overflow)
                        } else {
                            Ok(
                                (
                                    SwapState {
                                        pool: Pool {
                                            sqrt_price_x64: if zero_for_one {
                                                (target_price - 1) as u128
                                            } else {
                                                boundary
                                            },
                                            current_tick: if zero_for_one {
                                                (target_tick - 1) as i32
                                            } else {
                                                target_tick
                                            },
                                            active_liquidity: (liquidity + delta) as u128,
                                            ..paid_pool
                                        },
                                        amount_remaining: (state.amount_remaining
                                            - step_in) as u128,
                                        amount_out,
                                    },
                                    crossed,
                                    true,
                                ),
                            )
                        },
                    }
                } else {
                    Ok(
                        (
                            SwapState {
                                pool: Pool {
                                    sqrt_price_x64: boundary,
                                    current_tick: resting_tick(
                                        pool.current_tick as int,
                                        target_tick as int,
                                        initialized,
                                        boundary as int,
                                        zero_for_one,
                                    ) as i32,
                                    ..paid_pool
                                },
                                amount_remaining: (state.amount_remaining - step_in) as u128,
                                amount_out,
                            },
                            ticks,
                            false,
                        ),
                    )
                }
            },
        }
    }
}

/// The number of ticks between the current tick and the end of the tick
/// range in the direction of the swap.
pub open spec fn ticks_ahead(current_tick: int, zero_for_one: bool) -> nat {
    if zero_for_one {
        if current_tick + TICK_LIMIT >= 0 {
            (current_tick + TICK_LIMIT) as nat
        } else {
            0
        }
    } else {
        if TICK_LIMIT - current_tick >= 0 {
            (TICK_LIMIT - current_tick) as nat
        } else {
            0
        }
    }
}

/// What a step keeps and moves: it keeps the pool's tokens, fee and tick
/// spacing, never lowers a fee accumulator or the output, never adds to
/// the remaining input, and leaves the current tick within the bound; a
/// step that crosses a tick
/// brings the current tick closer to the end of the tick range, and one
/// that does not leaves it between where it was and the target.
pub proof fn lemma_swap_step(state: SwapState, ticks: Seq<Tick>, zero_for_one: bool, limit: u128)
    requires
        swap_step(state, ticks, zero_for_one, limit) is Ok,
    ensures
        ({
            let (next, _, crossed) = swap_step(state, ticks, zero_for_one, limit)->Ok_0;
            &&& next.amount_remaining <= state.amount_remaining
            &&& tick_in_bounds(state.pool.current_tick as int)
            &&& tick_in_bounds(next.pool.current_tick as int)
            &&& crossed ==> ticks_ahead(next.pool.current_tick as int, zero_for_one) < ticks_ahead(
                state.pool.current_tick as int,
                zero_for_one,
            )
            &&& next.pool.tick_spacing == state.pool.tick_spacing
            &&& next.pool.fee == state.pool.fee
            &&& next.pool.token_0_mint == state.pool.token_0_mint
            &&& next.pool.token_1_mint == state.pool.token_1_mint
            &&& next.pool.fee_growth_global_0 >= state.pool.fee_growth_global_0
            &&& next.pool.fee_growth_global_1 >= state.pool.fee_growth_global_1
            &&& next.pool.total_fee0 >= state.pool.total_fee0
            &&& next.pool.total_fee1 >= state.pool.total_fee1
            &&& next.amount_out >= state.amount_out
            &&& !crossed && zero_for_one ==> step_target(
                ticks,
                state.pool.current_tick as int,
                zero_for_one,
            ).0 <= next.pool.current_tick <= state.pool.current_tick
            &&& !crossed && !zero_for_one ==> state.pool.current_tick <= next.pool.current_tick
                <= step_target(ticks, state.pool.current_tick as int, zero_for_one).0
            &&& !crossed && !zero_for_one && step_target(
                ticks,
                state.pool.current_tick as int,
                zero_for_one,
            ).1 ==> next.pool.current_tick < step_target(
                ticks,
                state.pool.current_tick as int,
                zero_for_one,
            ).0
        }),
{
    let current = state.pool.current_tick as int;
    lemma_greatest_in(ticks, -TICK_LIMIT as int, current, ticks.len() as int);
    lemma_least_in(ticks, current, TICK_LIMIT as int, ticks.len() as int);
    let (target_tick, initialized) = step_target(ticks, current, zero_for_one);
    let price = state.pool.sqrt_price_x64;
    let target_price = sqrt_ratio_at_tick(target_tick as int) as u128;
    let boundary = step_boundary(price, target_price, limit, zero_for_one);
    let moved = if state.pool.active_liquidity == 0 {
        0
    } else {
        (state.amount_remaining * Q64) / (state.pool.active_liquidity as int)
    };
    let new_price = if zero_for_one {
        price - moved
    } else {
        price + moved
    };
    if zero_for_one {
        lemma_tick_between(target_tick as int, current, new_price);
        lemma_tick_between(target_tick as int, current, boundary as int);
    } else if initialized {
        lemma_tick_between(current, target_tick - 1, new_price);
        lemma_tick_between(current, target_tick - 1, boundary as int);
    } else {
        lemma_tick_between(current, target_tick as int, new_price);
        lemma_tick_between(current, target_tick as int, boundary as int);
    }
}

/// The state and the ticks at the end of a swap: steps are taken while
/// there is input left, the price has not reached the limit, and the last
/// step crossed a tick.
pub open spec fn swap_run(state: SwapState, ticks: Seq<Tick>, zero_for_one: bool, limit: u128)
    -> Result<(SwapState, Seq<Tick>), SwapV3Error>
    decreases ticks_ahead(state.pool.current_tick as int, zero_for_one),
    via swap_run_terminates
{
    if state.amount_remaining == 0 || limit_reached(
        state.pool.sqrt_price_x64,
        limit,
        zero_for_one,
    ) {
        Ok((state, ticks))
    } else {
        match swap_step(state, ticks, zero_for_one, limit) {
            Err(e) => Err(e),
            Ok((next, next_ticks, crossed)) => if crossed {
                swap_run(next, next_ticks, zero_for_one, limit)
            } else {
                Ok((next, next_ticks))
            },
        }
    }
}

/// A swap keeps the pool's tokens, fee and tick spacing, never lowers the
/// fee growth, the fees collected or the output, and never adds to the
/// input that remains.
pub proof fn lemma_swap_run_grows(
    state: SwapState,
    ticks: Seq<Tick>,
    zero_for_one: bool,
    limit: u128,
)
    requires
        swap_run(state, ticks, zero_for_one, limit) is Ok,
    ensures
        ({
            let end = swap_run(state, ticks, zero_for_one, limit)->Ok_0.0;
            &&& end.pool.tick_spacing == state.pool.tick_spacing
            &&& end.pool.fee == state.pool.fee
            &&& end.pool.token_0_mint == state.pool.token_0_mint
            &&& end.pool.token_1_mint == state.pool.token_1_mint
            &&& end.pool.fee_growth_global_0 >= state.pool.fee_growth_global_0
            &&& end.pool.fee_growth_global_1 >= state.pool.fee_growth_global_1
            &&& end.pool.total_fee0 >= state.pool.total_fee0
            &&& end.pool.total_fee1 >= state.pool.total_fee1
            &&& end.amount_out >= state.amount_out
            &&& end.amount_remaining <= state.amount_remaining
        }),
    decreases ticks_ahead(state.pool.current_tick as int, zero_for_one),
{
    if !(state.amount_remaining == 0 || limit_reached(
        state.pool.sqrt_price_x64,
        limit,
        zero_for_one,
    )) {
        lemma_swap_step(state, ticks, zero_for_one, limit);
        let (next, next_ticks, crossed) = swap_step(state, ticks, zero_for_one, limit)->Ok_0;
        if crossed {
            lemma_swap_run_grows(next, next_ticks, zero_for_one, limit);
        }
    }
}

#[via_fn]
proof fn swap_run_terminates(state: SwapState, ticks: Seq<Tick>, zero_for_one: bool, limit: u128) {
    if swap_step(state, ticks, zero_for_one, limit) is Ok {
        lemma_swap_step(state, ticks, zero_for_one, limit);
    }
}

impl MarketState {
    /// The market after a swap of `amount_in`, and what the swap used and
    /// produced. A swap that produces less than `min_amount_out` fails.
    pub open spec fn with_swap(
        self,
        amount_in: u64,
        min_amount_out: u64,
        zero_for_one: bool,
        sqrt_price_limit: u128,
    ) -> Result<(MarketState, SwapOutcome), SwapV3Error> {
        match swap_run(
            SwapState { pool: self.pool, amount_remaining: amount_in as u128, amount_out: 0 },
            self.ticks,
            zero_for_one,
            sqrt_price_limit,
        ) {
            Err(e) => Err(e),
            Ok((end, ticks)) => if end.amount_out < min_amount_out {
                Err(SwapV3Error::InvalidPriceLimit)
            } else {
                Ok(
                    (
                        MarketState { pool: end.pool, ticks, positions: self.positions },
                        SwapOutcome {
                            amount_in: (amount_in - end.amount_remaining) as u128,
                            amount_out: end.amount_out,
                            status: if end.amount_remaining == 0 {
                                SwapStatus::Done
                            } else {
                                SwapStatus::LimitReached
                            },
                        },
                    ),
                )
            },
        }
    }
}

/// A step's most and the input that fits within it move the price by no
/// more than the distance to the boundary.
proof fn lemma_move_within_distance(liquidity: int, distance: int, most: int, step_in: int)
    by (nonlinear_arith)
    requires
        0 < liquidity,
        0 <= distance,
        most * 0x1_0000_0000_0000_0000 <= liquidity * distance,
        0 <= step_in <= most,
    ensures
        0 <= (step_in * 0x1_0000_0000_0000_0000) / liquidity <= distance,
{
    let moved = (step_in * 0x1_0000_0000_0000_0000) / liquidity;
    assert(moved * liquidity <= step_in * 0x1_0000_0000_0000_0000);
    assert(step_in * 0x1_0000_0000_0000_0000 <= most * 0x1_0000_0000_0000_0000);
    if moved > distance {
        assert(moved * liquidity >= (distance + 1) * liquidity);
        assert((distance + 1) * liquidity == distance * liquidity + liquidity);
    }
}

/// An input below a step's most moves the price by less than the distance
/// to the boundary.
proof fn lemma_move_short_of_distance(liquidity: int, distance: int, most: int, step_in: int)
    by (nonlinear_arith)
    requires
        0 < liquidity,
        0 <= distance,
        most * 0x1_0000_0000_0000_0000 <= liquidity * distance,
        0 <= step_in < most,
    ensures
        0 <= (step_in * 0x1_0000_0000_0000_0000) / liquidity < distance,
{
    let moved = (step_in * 0x1_0000_0000_0000_0000) / liquidity;
    assert(moved * liquidity <= step_in * 0x1_0000_0000_0000_0000);
    assert((step_in + 1) * 0x1_0000_0000_0000_0000 <= most * 0x1_0000_0000_0000_0000);
    if moved >= distance {
        assert(moved * liquidity >= distance * liquidity);
    }
}

/// What a whole quotient times its divisor is at most.
proof fn lemma_most_within(liquidity: int, distance: int)
    by (nonlinear_arith)
    requires
        0 <= liquidity,
        0 <= distance,
    ensures
        (liquidity * distance / 0x1_0000_0000_0000_0000) * 0x1_0000_0000_0000_0000 <= liquidity
            * distance,
        liquidity == 0 ==> liquidity * distance / 0x1_0000_0000_0000_0000 == 0,
{
}

/// Whether a price lies on the way from another price in the direction of
/// a swap, and not beyond the limit where the other does not.
pub open spec fn price_follows(
    after: u128,
    before: u128,
    zero_for_one: bool,
    limit: u128,
) -> bool {
    if zero_for_one {
        after <= before && (limit <= before ==> limit <= after)
    } else {
        before <= after && (before <= limit ==> after <= limit)
    }
}

/// A step of a swap leaves the current tick the tick of the price, and
/// moves the price in the direction of the swap and not beyond the limit.
pub proof fn lemma_swap_step_holds_price(
    state: SwapState,
    ticks: Seq<Tick>,
    zero_for_one: bool,
    limit: u128,
)
    requires
        state.pool.holds_price(),
        swap_step(state, ticks, zero_for_one, limit) is Ok,
    ensures
        swap_step(state, ticks, zero_for_one, limit)->Ok_0.0.pool.holds_price(),
        price_follows(
            swap_step(state, ticks, zero_for_one, limit)->Ok_0.0.pool.sqrt_price_x64,
            state.pool.sqrt_price_x64,
            zero_for_one,
            limit,
        ),
{
    let pool = state.pool;
    let price = pool.sqrt_price_x64;
    let liquidity = pool.active_liquidity;
    let current = pool.current_tick as int;
    lemma_greatest_in(ticks, -TICK_LIMIT as int, current, ticks.len() as int);
    lemma_least_in(ticks, current, TICK_LIMIT as int, ticks.len() as int);
    let (target_tick, initialized) = step_target(ticks, current, zero_for_one);
    let target = target_tick as int;
    let target_price = sqrt_ratio_at_tick(target) as u128;
    let boundary = step_boundary(price, target_price, limit, zero_for_one);
    let distance = if zero_for_one {
        price - boundary
    } else {
        boundary - price
    };
    let most = mul_div_spec(liquidity as nat, distance as nat, Q64 as nat)->0;
    let (next, _, crossed) = swap_step(state, ticks, zero_for_one, limit)->Ok_0;
    let fits = if zero_for_one {
        state.amount_remaining <= most
    } else {
        state.amount_remaining < most
    };
    lemma_most_within(liquidity as int, distance as int);
    // the prices of the ticks around the step
    if zero_for_one {
        lemma_sqrt_ratio_ordered(target, current);
        if target > -TICK_LIMIT {
            lemma_sqrt_ratio_increases(target - 1, target);
        }
    } else {
        lemma_sqrt_ratio_ordered(target, target);
        if current < TICK_LIMIT {
            lemma_sqrt_ratio_ordered(current + 1, target);
        }
        if target < TICK_LIMIT {
            lemma_sqrt_ratio_increases(target, target + 1);
        }
    }
    assert(sqrt_ratio_at_tick(target) == target_price) by {
        lemma_sqrt_ratio_in_range(target);
    }
    let low = if zero_for_one {
        target
    } else {
        current
    };
    let high = if zero_for_one {
        current
    } else if initialized {
        target - 1
    } else {
        target
    };
    if fits {
        let moved = if liquidity == 0 {
            0
        } else {
            (state.amount_remaining * Q64) / (liquidity as int)
        };
        if liquidity > 0 {
            if zero_for_one {
                lemma_move_within_distance(
                    liquidity as int,
                    distance as int,
                    most as int,
                    state.amount_remaining as int,
                );
            } else {
                lemma_move_short_of_distance(
                    liquidity as int,
                    distance as int,
                    most as int,
                    state.amount_remaining as int,
                );
            }
        }
        let new_price = if zero_for_one {
            price - moved
        } else {
            price + moved
        };
        lemma_tick_between(low, high, new_price);
    } else if !crossed {
        lemma_tick_between(low, high, boundary as int);
    }
}

/// A swap leaves the current tick the tick of the price, and moves the
/// price in the direction of the swap and not beyond the limit.
pub proof fn lemma_swap_run_holds_price(
    state: SwapState,
    ticks: Seq<Tick>,
    zero_for_one: bool,
    limit: u128,
)
    requires
        state.pool.holds_price(),
        swap_run(state, ticks, zero_for_one, limit) is Ok,
    ensures
        swap_run(state, ticks, zero_for_one, limit)->Ok_0.0.pool.holds_price(),
        price_follows(
            swap_run(state, ticks, zero_for_one, limit)->Ok_0.0.pool.sqrt_price_x64,
            state.pool.sqrt_price_x64,
            zero_for_one,
            limit,
        ),
    decreases ticks_ahead(state.pool.current_tick as int, zero_for_one),
{
    if !(state.amount_remaining == 0 || limit_reached(
        state.pool.sqrt_price_x64,
        limit,
        zero_for_one,
    )) {
        lemma_swap_step(state, ticks, zero_for_one, limit);
        lemma_swap_step_holds_price(state, ticks, zero_for_one, limit);
        let (next, next_ticks, crossed) = swap_step(state, ticks, zero_for_one, limit)->Ok_0;
        if crossed {
            lemma_swap_run_holds_price(next, next_ticks, zero_for_one, limit);
        }
    }
}

/// Takes the fee from a step's input and adds what the rest is worth to
/// the output.
fn settle(state: &SwapState, step_in: u128, zero_for_one: bool) -> (r: Result<
    (Pool, u128),
    SwapV3Error,
>)
    ensures
        r == settled(*state, step_in, zero_for_one),
{
    let mut pool = state.pool;
    let fee = match mul_div(step_in, pool.fee as u128, FEE_DENOMINATOR) {
        Ok(fee) => fee,
        Err(_) => {
            return Err(SwapV3Error::Overflow);
        },
    };
    if fee > step_in {
        return Err(SwapV3Error::Overflow);
    }
    let produced = if zero_for_one {
        mul_div(step_in - fee, pool.sqrt_price_x64, Q64)
    } else {
        mul_div(step_in - fee, Q64, pool.sqrt_price_x64)
    };
    let growth = if pool.active_liquidity == 0 {
        Ok(0)
    } else {
        mul_div(fee, Q64, pool.active_liquidity)
    };
    let (produced, growth) = match (produced, growth) {
        (Ok(produced), Ok(growth)) => (produced, growth),
        _ => {
            return Err(SwapV3Error::Overflow);
        },
    };
    let amount_out = state.amount_out.checked_add(produced);
    let (growth, fees) = if zero_for_one {
        (pool.fee_growth_global_0.checked_add(growth), pool.total_fee0.checked_add(fee))
    } else {
        (pool.fee_growth_global_1.checked_add(growth), pool.total_fee1.checked_add(fee))
    };
    match (amount_out, growth, fees) {
        (Some(amount_out), Some(growth), Some(fees)) => {
            if zero_for_one {
                pool.fee_growth_global_0 = growth;
                pool.total_fee0 = fees;
            } else {
                pool.fee_growth_global_1 = growth;
                pool.total_fee1 = fees;
            }
            Ok((pool, amount_out))
        },
        _ => Err(SwapV3Error::Overflow),
    }
}

/// Takes one step of a swap. Returns the state after it and whether it
/// crossed a tick, and records the crossing in `ticks`. A failure leaves
/// the ticks as they were.
pub fn step(state: &SwapState, ticks: &mut TickMap, zero_for_one: bool, limit: u128) -> (r: Result<
    (SwapState, bool),
    SwapV3Error,
>)
    ensures
        match swap_step(*state, old(ticks)@, zero_for_one, limit) {
            Ok((next, next_ticks, crossed)) => r == Ok::<(SwapState, bool), SwapV3Error>(
                (next, crossed),
            ) && final(ticks)@ == next_ticks,
            Err(e) => r == Err::<(SwapState, bool), SwapV3Error>(e) && final(ticks)@ == old(
                ticks,
            )@,
        },
{
    let pool = state.pool;
    let price = pool.sqrt_price_x64;
    let liquidity = pool.active_liquidity;
    let current = pool.current_tick;
    if current < -TICK_LIMIT || current > TICK_LIMIT {
        return Err(SwapV3Error::InvalidTick);
    }
    proof {
        lemma_greatest_in(ticks@, -TICK_LIMIT as int, current as int, ticks@.len() as int);
        lemma_least_in(ticks@, current as int, TICK_LIMIT as int, ticks@.len() as int);
    }
    let (target_tick, initialized) = if zero_for_one {
        match ticks.greatest_between(-TICK_LIMIT, current) {
            Some(tick) => (tick, true),
            None => (-TICK_LIMIT, false),
        }
    } else {
        match ticks.least_between(current, TICK_LIMIT) {
            Some(tick) => (tick, true),
            None => (TICK_LIMIT, false),
        }
    };
    let target_price = sqrt_ratio_in_bounds(target_tick);
    let boundary = if zero_for_one {
        let closer = if target_price >= limit {
            target_price
        } else {
            limit
        };
        if closer <= price {
            closer
        } else {
            price
        }
    } else {
        let closer = if target_price <= limit {
            target_price
        } else {
            limit
        };
        if closer >= price {
            closer
        } else {
            price
        }
    };
    let distance = if zero_for_one {
        price - boundary
    } else {
        boundary - price
    };
    let reaches_tick = initialized && if zero_for_one {
        limit < target_price
    } else {
        target_price <= limit
    };
    let most = match mul_div(liquidity, distance, Q64) {
        Ok(most) => most,
        Err(_) => {
            return Err(SwapV3Error::Overflow);
        },
    };
    let fits = if zero_for_one {
        state.amount_remaining <= most
    } else {
        state.amount_remaining < most
    };
    let step_in = if fits {
        state.amount_remaining
    } else {
        most
    };
    let (mut next_pool, amount_out) = match settle(state, step_in, zero_for_one) {
        Ok(paid) => paid,
        Err(e) => {
            return Err(e);
        },
    };
    let low = if zero_for_one {
        target_tick
    } else {
        current
    };
    let high = if zero_for_one {
        current
    } else if initialized {
        target_tick - 1
    } else {
        target_tick
    };
    if fits {
        let moved = if liquidity == 0 {
            0
        } else {
            proof {
                lemma_move_within_distance(
                    liquidity as int,
                    distance as int,
                    most as int,
                    step_in as int,
                );
            }
            match mul_div(step_in, Q64, liquidity) {
                Ok(moved) => moved,
                Err(e) => {
                    return Err(e);
                },
            }
        };
        let new_price = if zero_for_one {
            price - moved
        } else {
            price + moved
        };
        proof {
            lemma_tick_between(low as int, high as int, new_price as int);
        }
        next_pool.sqrt_price_x64 = new_price;
        next_pool.current_tick = get_tick_between(low, high, new_price);
        Ok((SwapState { pool: next_pool, amount_remaining: 0, amount_out }, false))
    } else if reaches_tick {
        let delta = match ticks.cross_tick(
            target_tick,
            next_pool.fee_growth_global_0,
            next_pool.fee_growth_global_1,
            !zero_for_one,
        ) {
            Ok(delta) => delta,
            Err(e) => {
                return Err(e);
            },
        };
        match liquidity.checked_add_signed(delta) {
            Some(active) => {
                next_pool.sqrt_price_x64 = if zero_for_one {
                    target_price - 1
                } else {
                    boundary
                };
                next_pool.current_tick = if zero_for_one {
                    target_tick - 1
                } else {
                    target_tick
                };
                next_pool.active_liquidity = active;
                Ok(
                    (
                        SwapState {
                            pool: next_pool,
                            amount_remaining: state.amount_remaining - step_in,
                            amount_out,
                        },
                        true,
                    ),
                )
            },
            None => {
                // the crossing is taken back: a second one restores the snapshots
                let ghost crossed = ticks@;
                let _ = ticks.cross_tick(
                    target_tick,
                    next_pool.fee_growth_global_0,
                    next_pool.fee_growth_global_1,
                    !zero_for_one,
                );
                proof {
                    let before = old(ticks)@;
                    lemma_index_of_from(before, target_tick as int, 0);
                    lemma_index_of_from(crossed, target_tick as int, 0);
                    match index_of(before, target_tick as int) {
                        Some(i) => {
                            assert(crossed[i].tick == target_tick);
                            match index_of(crossed, target_tick as int) {
                                Some(j) => {
                                    assert(before[j].tick == crossed[j].tick);
                                    assert(i == j);
                                },
                                None => {},
                            }
                        },
                        None => {},
                    }
                    assert(ticks@ =~= before);
                }
                Err(SwapV3Error::Overflow)
            },
        }
    } else {
        proof {
            lemma_tick_between(low as int, high as int, boundary as int);
        }
        next_pool.sqrt_price_x64 = boundary;
        next_pool.current_tick = get_tick_between(low, high, boundary);
        Ok(
            (
                SwapState {
                    pool: next_pool,
                    amount_remaining: state.amount_remaining - step_in,
                    amount_out,
                },
                false,
            ),
        )
    }
}

impl Market {
    /// Swaps `amount_in` of one token for the other: of the first for the
    /// second where `zero_for_one`, which lowers the price, else of the
    /// second for the first, which raises it. The price moves no further
    /// than `sqrt_price_limit`. Fails with `InvalidPriceLimit` where the
    /// output is below `min_amount_out`, with `Overflow` where an amount
    /// does not fit, and with `InvalidTick` where the pool's current tick
    /// is out of bounds. A failure changes nothing. A consistent market
    /// stays consistent.
    pub fn swap(
        &mut self,
        amount_in: u64,
        min_amount_out: u64,
        zero_for_one: bool,
        sqrt_price_limit: u128,
    ) -> (r: Result<SwapOutcome, SwapV3Error>)
        ensures
            match old(self)@.with_swap(amount_in, min_amount_out, zero_for_one, sqrt_price_limit) {
                Ok((market, outcome)) => r == Ok::<SwapOutcome, SwapV3Error>(outcome)
                    && final(self)@ == market,
                Err(e) => r == Err::<SwapOutcome, SwapV3Error>(e) && final(self)@ == old(self)@,
            },
            old(self)@.consistent() ==> final(self)@.consistent(),
    {
        proof {
            if old(self)@.consistent() && old(self)@.with_swap(
                amount_in,
                min_amount_out,
                zero_for_one,
                sqrt_price_limit,
            ) is Ok {
                lemma_swap_keeps_consistent(
                    old(self)@,
                    amount_in,
                    min_amount_out,
                    zero_for_one,
                    sqrt_price_limit,
                );
            }
        }
        let ghost first = SwapState {
            pool: self.pool,
            amount_remaining: amount_in as u128,
            amount_out: 0,
        };
        let mut state = SwapState {
            pool: self.pool,
            amount_remaining: amount_in as u128,
            amount_out: 0,
        };
        let mut ticks = self.ticks.duplicate();
        let mut stepping = true;
        while stepping
            invariant
                first == (SwapState {
                    pool: old(self).pool,
                    amount_remaining: amount_in as u128,
                    amount_out: 0,
                }),
                state.amount_remaining <= amount_in,
                stepping ==> swap_run(first, self.ticks@, zero_for_one, sqrt_price_limit)
                    == swap_run(state, ticks@, zero_for_one, sqrt_price_limit),
                !stepping ==> swap_run(first, self.ticks@, zero_for_one, sqrt_price_limit) == Ok::<
                    (SwapState, Seq<Tick>),
                    SwapV3Error,
                >((state, ticks@)),
                *self == *old(self),
            decreases
                    (if stepping {
                        ticks_ahead(state.pool.current_tick as int, zero_for_one) + 1
                    } else {
                        0
                    }),
        {
            let at_limit = if zero_for_one {
                state.pool.sqrt_price_x64 <= sqrt_price_limit
            } else {
                state.pool.sqrt_price_x64 >= sqrt_price_limit
            };
            if state.amount_remaining == 0 || at_limit {
                stepping = false;
            } else {
                let ghost before = ticks@;
                proof {
                    if swap_step(state, before, zero_for_one, sqrt_price_limit) is Ok {
                        lemma_swap_step(state, before, zero_for_one, sqrt_price_limit);
                    }
                }
                match step(&state, &mut ticks, zero_for_one, sqrt_price_limit) {
                    Ok((next, crossed)) => {
                        state = next;
                        stepping = crossed;
                    },
                    Err(e) => {
                        return Err(e);
                    },
                }
            }
        }
        if state.amount_out < min_amount_out as u128 {
            return Err(SwapV3Error::InvalidPriceLimit);
        }
        self.pool = state.pool;
        self.ticks = ticks;
        Ok(
            SwapOutcome {
                amount_in: amount_in as u128 - state.amount_remaining,
                amount_out: state.amount_out,
                status: if state.amount_remaining == 0 {
                    SwapStatus::Done
                } else {
                    SwapStatus::LimitReached
                },
            },
        )
    }
}

} // verus!
