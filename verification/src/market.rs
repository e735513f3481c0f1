//! A pool together with its ticks and positions, and the operations that
//! change the liquidity of a range.

use crate::consistency::lemma_position_update_keeps_consistent;
use crate::error::SwapV3Error;
use crate::state::{
    check_range, compute_fee_growth_inside, fee_growth_inside, is_valid_range, range_holds,
    same_address, Address, Pool, Position, Tick,
};
use crate::tick_map::{record_of, with_liquidity, TickMap};
use crate::utils::{
    get_tick_at_sqrt_ratio, lemma_tick_at_sqrt_ratio_holds, tick_at_sqrt_ratio, tick_holds_price,
};
use vstd::prelude::*;

verus! {

impl Pool {
    /// Whether the current tick is the tick of the price.
    pub open spec fn holds_price(self) -> bool {
        tick_holds_price(self.current_tick as int, self.sqrt_price_x64 as int)
    }

    /// The pool that `initialize` sets up.
    pub open spec fn initialized(
        token_0_mint: Address,
        token_1_mint: Address,
        fee: u32,
        tick_spacing: u16,
        initial_sqrt_price: u128,
    ) -> Result<Pool, SwapV3Error> {
        if initial_sqrt_price == 0 {
            Err(SwapV3Error::InvalidPriceLimit)
        } else {
            Ok(
                Pool {
                    token_0_mint,
                    token_1_mint,
                    fee,
                    tick_spacing,
                    total_fee0: 0,
                    total_fee1: 0,
                    active_liquidity: 0,
                    sqrt_price_x64: initial_sqrt_price,
                    current_tick: tick_at_sqrt_ratio(initial_sqrt_price as int) as i32,
                    fee_growth_global_0: 0,
                    fee_growth_global_1: 0,
                },
            )
        }
    }

    /// Sets up a pool at a price. The current tick is the tick of the
    /// price: the one tick whose price does not exceed it while the price
    /// of the next tick does. The active liquidity and the fee accumulators
    /// are zero. Fails with `InvalidPriceLimit` where the price is zero.
    pub fn initialize(
        token_0_mint: Address,
        token_1_mint: Address,
        fee: u32,
        tick_spacing: u16,
        initial_sqrt_price: u128,
    ) -> (r: Result<Pool, SwapV3Error>)
        ensures
            r == Pool::initialized(
                token_0_mint,
                token_1_mint,
                fee,
                tick_spacing,
                initial_sqrt_price,
            ),
            r matches Ok(pool) ==> pool.holds_price(),
    {
        if initial_sqrt_price == 0 {
            return Err(SwapV3Error::InvalidPriceLimit);
        }
        Ok(
            Pool {
                token_0_mint,
                token_1_mint,
                fee,
                tick_spacing,
                total_fee0: 0,
                total_fee1: 0,
                active_liquidity: 0,
                sqrt_price_x64: initial_sqrt_price,
                current_tick: get_tick_at_sqrt_ratio(initial_sqrt_price),
                fee_growth_global_0: 0,
                fee_growth_global_1: 0,
            },
        )
    }
}

/// The current tick of a pool that is set up is the tick of its price.
pub proof fn lemma_initialized_pool_holds_price(
    token_0_mint: Address,
    token_1_mint: Address,
    fee: u32,
    tick_spacing: u16,
    initial_sqrt_price: u128,
)
    requires
        initial_sqrt_price != 0,
    ensures
        Pool::initialized(
            token_0_mint,
            token_1_mint,
            fee,
            tick_spacing,
            initial_sqrt_price,
        )->Ok_0.holds_price(),
{
    lemma_tick_at_sqrt_ratio_holds(initial_sqrt_price as int);
}

/// A pool with its ticks and positions, as values.
pub struct MarketState {
    /// The pool.
    pub pool: Pool,
    /// The records of the ticks that the positions reference.
    pub ticks: Seq<Tick>,
    /// The positions.
    pub positions: Seq<Position>,
}

/// A pool with its ticks and positions.
#[derive(Debug)]
pub struct Market {
    /// The pool.
    pub pool: Pool,
    /// The ticks that the positions reference.
    pub ticks: TickMap,
    /// The positions, in the order in which they were opened.
    pub positions: Vec<Position>,
}

impl View for Market {
    type V = MarketState;

    open spec fn view(&self) -> MarketState {
        MarketState { pool: self.pool, ticks: self.ticks@, positions: self.positions@ }
    }
}

/// The index of the first position of `owner` over the given range at or
/// behind `start`.
pub open spec fn position_index_from(
    positions: Seq<Position>,
    owner: Address,
    tick_lower: int,
    tick_upper: int,
    start: int,
) -> Option<int>
    decreases positions.len() - start,
{
    if start < 0 || start >= positions.len() {
        None
    } else if positions[start].has_key(owner, tick_lower, tick_upper) {
        Some(start)
    } else {
        position_index_from(positions, owner, tick_lower, tick_upper, start + 1)
    }
}

/// The index of the first position of `owner` over the given range.
pub open spec fn position_index(
    positions: Seq<Position>,
    owner: Address,
    tick_lower: int,
    tick_upper: int,
) -> Option<int> {
    position_index_from(positions, owner, tick_lower, tick_upper, 0)
}

/// What `position_index_from` finds: the first index at or behind `start`
/// whose position has the key, or nothing where there is none.
pub proof fn lemma_position_index_from(
    positions: Seq<Position>,
    owner: Address,
    tick_lower: int,
    tick_upper: int,
    start: int,
)
    requires
        0 <= start,
    ensures
        match position_index_from(positions, owner, tick_lower, tick_upper, start) {
            Some(i) => start <= i < positions.len() && positions[i].has_key(
                owner,
                tick_lower,
                tick_upper,
            ) && forall|k: int|
                start <= k < i ==> !(#[trigger] positions[k]).has_key(
                    owner,
                    tick_lower,
                    tick_upper,
                ),
            None => forall|k: int|
                start <= k < positions.len() ==> !(#[trigger] positions[k]).has_key(
                    owner,
                    tick_lower,
                    tick_upper,
                ),
        },
    decreases positions.len() - start,
{
    if start < positions.len() && !positions[start].has_key(owner, tick_lower, tick_upper) {
        lemma_position_index_from(positions, owner, tick_lower, tick_upper, start + 1);
    }
}

/// The pool and the ticks after liquidity `delta` is added to a range:
/// both boundary ticks are updated, and the active liquidity changes by
/// `delta` where the range holds the current tick.
pub open spec fn with_liquidity_delta(
    pool: Pool,
    ticks: Seq<Tick>,
    tick_lower: i32,
    tick_upper: i32,
    delta: int,
) -> Result<(Pool, Seq<Tick>), SwapV3Error> {
    if !is_valid_range(tick_lower as int, tick_upper as int, pool.tick_spacing as int) {
        Err(SwapV3Error::InvalidTick)
    } else {
        match with_liquidity(ticks, pool, tick_lower, delta, true) {
            Err(e) => Err(e),
            Ok(with_lower) => match with_liquidity(with_lower, pool, tick_upper, delta, false) {
                Err(e) => Err(e),
                Ok(with_both) => {
                    let active = if range_holds(
                        tick_lower as int,
                        tick_upper as int,
                        pool.current_tick as int,
                    ) {
                        pool.active_liquidity + delta
                    } else {
                        pool.active_liquidity as int
                    };
                    if active < 0 || active > u128::MAX {
                        Err(SwapV3Error::Overflow)
                    } else {
                        Ok((Pool { active_liquidity: active as u128, ..pool }, with_both))
                    }
                },
            },
        }
    }
}

/// The fee growth inside a range in both tokens, from the records of its
/// two ticks.
pub open spec fn fee_growth_inside_range(
    pool: Pool,
    ticks: Seq<Tick>,
    tick_lower: i32,
    tick_upper: i32,
) -> (Option<u128>, Option<u128>) {
    let lower = record_of(ticks, pool, tick_lower);
    let upper = record_of(ticks, pool, tick_upper);
    (
        fee_growth_inside(
            pool.fee_growth_global_0,
            lower.fee_growth_outside_0,
            upper.fee_growth_outside_0,
            pool.current_tick as int,
            tick_lower as int,
            tick_upper as int,
        ),
        fee_growth_inside(
            pool.fee_growth_global_1,
            lower.fee_growth_outside_1,
            upper.fee_growth_outside_1,
            pool.current_tick as int,
            tick_lower as int,
            tick_upper as int,
        ),
    )
}

/// The position of `owner` over a range, or the empty position where
/// there is none.
pub open spec fn position_of(
    positions: Seq<Position>,
    owner: Address,
    tick_lower: i32,
    tick_upper: i32,
) -> Position {
    match position_index(positions, owner, tick_lower as int, tick_upper as int) {
        Some(i) => positions[i],
        None => Position::spec_empty(owner, tick_lower, tick_upper),
    }
}

/// The positions after one is stored: in place of the position with its
/// key, or behind the others.
pub open spec fn with_position(positions: Seq<Position>, position: Position) -> Seq<Position> {
    match position_index(
        positions,
        position.owner,
        position.tick_lower as int,
        position.tick_upper as int,
    ) {
        Some(i) => positions.update(i, position),
        None => positions.push(position),
    }
}

impl MarketState {
    /// The market after `owner` changes the liquidity of a range by
    /// `delta`: the fees that the position earned are settled, its
    /// liquidity changes, and the ticks and the pool follow.
    pub open spec fn with_position_update(
        self,
        owner: Address,
        tick_lower: i32,
        tick_upper: i32,
        delta: int,
    ) -> Result<MarketState, SwapV3Error> {
        let inside = fee_growth_inside_range(self.pool, self.ticks, tick_lower, tick_upper);
        if !is_valid_range(tick_lower as int, tick_upper as int, self.pool.tick_spacing as int) {
            Err(SwapV3Error::InvalidTick)
        } else if inside.0 is None || inside.1 is None {
            Err(SwapV3Error::Overflow)
        } else {
            match position_of(self.positions, owner, tick_lower, tick_upper).updated(
                inside.0->0,
                inside.1->0,
                delta,
            ) {
                Err(e) => Err(e),
                Ok(position) => match with_liquidity_delta(
                    self.pool,
                    self.ticks,
                    tick_lower,
                    tick_upper,
                    delta,
                ) {
                    Err(e) => Err(e),
                    Ok((pool, ticks)) => Ok(
                        MarketState {
                            pool,
                            ticks,
                            positions: with_position(self.positions, position),
                        },
                    ),
                },
            }
        }
    }
}

impl Market {
    /// A market around a pool, without ticks or positions.
    pub fn new(pool: Pool) -> (r: Market)
        ensures
            r@ == (MarketState {
                pool,
                ticks: Seq::<Tick>::empty(),
                positions: Seq::<Position>::empty(),
            }),
    {
        Market { pool, ticks: TickMap::new(), positions: Vec::new() }
    }

    /// The index of the position of `owner` over a range.
    pub fn find_position(&self, owner: &Address, tick_lower: i32, tick_upper: i32) -> (r: Option<
        usize,
    >)
        ensures
            match r {
                Some(i) => position_index(
                    self.positions@,
                    *owner,
                    tick_lower as int,
                    tick_upper as int,
                ) == Some(i as int) && i < self.positions@.len()
                    && self.positions@[i as int].has_key(
                    *owner,
                    tick_lower as int,
                    tick_upper as int,
                ),
                None => position_index(
                    self.positions@,
                    *owner,
                    tick_lower as int,
                    tick_upper as int,
                ) is None,
            },
    {
        let mut i: usize = 0;
        while i < self.positions.len()
            invariant
                i <= self.positions.len(),
                position_index(self.positions@, *owner, tick_lower as int, tick_upper as int)
                    == position_index_from(
                    self.positions@,
                    *owner,
                    tick_lower as int,
                    tick_upper as int,
                    i as int,
                ),
            decreases self.positions.len() - i,
        {
            let position = &self.positions[i];
            if position.tick_lower == tick_lower && position.tick_upper == tick_upper
                && same_address(&position.owner, owner) {
                return Some(i);
            }
            i += 1;
        }
        None
    }

    /// Adds liquidity `delta` (negative to remove) to a range of the pool:
    /// updates both boundary ticks and, where the range holds the current
    /// tick, the active liquidity. Fails with `InvalidTick` where the range
    /// is empty, out of bounds or off the tick spacing, or where more
    /// would be removed from a tick than references it, and with
    /// `Overflow` where a sum does not fit. A failure changes nothing.
    ///
    /// This is the half of `update_position` that concerns the pool and
    /// the ticks: alone it leaves the positions behind.
    pub fn apply_liquidity_delta(&mut self, tick_lower: i32, tick_upper: i32, delta: i128) -> (r:
        Result<(), SwapV3Error>)
        ensures
            match with_liquidity_delta(
                old(self).pool,
                old(self).ticks@,
                tick_lower,
                tick_upper,
                delta as int,
            ) {
                Ok((pool, ticks)) => r is Ok && final(self)@ == (MarketState {
                    pool,
                    ticks,
                    positions: old(self).positions@,
                }),
                Err(e) => r == Err::<(), SwapV3Error>(e) && final(self)@ == old(self)@,
            },
    {
        if !check_range(tick_lower, tick_upper, self.pool.tick_spacing) {
            return Err(SwapV3Error::InvalidTick);
        }
        let mut ticks = self.ticks.duplicate();
        match ticks.update_liquidity(&self.pool, tick_lower, delta, true) {
            Ok(()) => {},
            Err(e) => {
                return Err(e);
            },
        }
        match ticks.update_liquidity(&self.pool, tick_upper, delta, false) {
            Ok(()) => {},
            Err(e) => {
                return Err(e);
            },
        }
        let active = if tick_lower <= self.pool.current_tick && self.pool.current_tick
            < tick_upper {
            self.pool.active_liquidity.checked_add_signed(delta)
        } else {
            Some(self.pool.active_liquidity)
        };
        match active {
            Some(active) => {
                self.pool.active_liquidity = active;
                self.ticks = ticks;
                Ok(())
            },
            None => Err(SwapV3Error::Overflow),
        }
    }

    /// Changes the liquidity that `owner` has over a range by `delta`
    /// (negative to remove), opening the position where there is none.
    /// The fees earned since the position's last update are added to its
    /// collected fees first, for the liquidity it had. Fails with
    /// `InvalidTick` where the range is empty, out of bounds or off the
    /// tick spacing, and with `Overflow` where the liquidity would become
    /// negative or a sum does not fit. A failure changes nothing. A
    /// consistent market stays consistent.
    pub fn update_position(
        &mut self,
        owner: Address,
        tick_lower: i32,
        tick_upper: i32,
        delta: i128,
    ) -> (r: Result<(), SwapV3Error>)
        ensures
            match old(self)@.with_position_update(owner, tick_lower, tick_upper, delta as int) {
                Ok(market) => r is Ok && final(self)@ == market,
                Err(e) => r == Err::<(), SwapV3Error>(e) && final(self)@ == old(self)@,
            },
            old(self)@.consistent() ==> final(self)@.consistent(),
    {
        proof {
            if old(self)@.consistent() && old(self)@.with_position_update(
                owner,
                tick_lower,
                tick_upper,
                delta as int,
            ) is Ok {
                lemma_position_update_keeps_consistent(
                    old(self)@,
                    owner,
                    tick_lower,
                    tick_upper,
                    delta as int,
                );
            }
        }
        if !check_range(tick_lower, tick_upper, self.pool.tick_spacing) {
            return Err(SwapV3Error::InvalidTick);
        }
        let lower = self.ticks.record(&self.pool, tick_lower);
        let upper = self.ticks.record(&self.pool, tick_upper);
        let inside_0 = compute_fee_growth_inside(
            self.pool.fee_growth_global_0,
            lower.fee_growth_outside_0,
            upper.fee_growth_outside_0,
            self.pool.current_tick,
            tick_lower,
            tick_upper,
        );
        let inside_1 = compute_fee_growth_inside(
            self.pool.fee_growth_global_1,
            lower.fee_growth_outside_1,
            upper.fee_growth_outside_1,
            self.pool.current_tick,
            tick_lower,
            tick_upper,
        );
        let (inside_0, inside_1) = match (inside_0, inside_1) {
            (Some(inside_0), Some(inside_1)) => (inside_0, inside_1),
            _ => {
                return Err(SwapV3Error::Overflow);
            },
        };
        let found = self.find_position(&owner, tick_lower, tick_upper);
        let mut position = match found {
            Some(i) => self.positions[i],
            None => Position::empty(owner, tick_lower, tick_upper),
        };
        match position.update(inside_0, inside_1, delta) {
            Ok(()) => {},
            Err(e) => {
                return Err(e);
            },
        }
        match self.apply_liquidity_delta(tick_lower, tick_upper, delta) {
            Ok(()) => {},
            Err(e) => {
                return Err(e);
            },
        }
        match found {
            Some(i) => {
                self.positions[i] = position;
            },
            None => {
                self.positions.push(position);
            },
        }
        Ok(())
    }
}

} // verus!
