//! The entry to the engine: an encoded operation is decoded and carried
//! out on a market, all of it or nothing.

use crate::consistency::lemma_empty_market_is_consistent;
use crate::error::SwapV3Error;
use crate::instruction::SwapV3Instruction;
use crate::market::{lemma_initialized_pool_holds_price, Market, MarketState};
use crate::state::{check_range, is_valid_range, Address, Pool, Position, Tick};
use crate::swap::SwapOutcome;
use vstd::prelude::*;

verus! {

/// The fee of a pool that an operation sets up, in basis points.
pub const DEFAULT_FEE: u32 = 500;

/// The tick spacing of a pool that an operation sets up.
pub const DEFAULT_TICK_SPACING: u16 = 10;

/// The identifiers that an operation takes from its caller.
#[derive(Debug, Clone, Copy)]
pub struct Accounts {
    /// The mint of the first token, for setting up a pool.
    pub token_0_mint: Address,
    /// The mint of the second token, for setting up a pool.
    pub token_1_mint: Address,
    /// Who asks for the operation, and owns the position that it changes.
    pub owner: Address,
}

impl MarketState {
    /// The market that setting up a pool leaves: the pool at the price,
    /// with the default fee and tick spacing, and no ticks or positions.
    pub open spec fn with_new_pool(
        token_0_mint: Address,
        token_1_mint: Address,
        initial_price: u128,
    ) -> Result<MarketState, SwapV3Error> {
        match Pool::initialized(
            token_0_mint,
            token_1_mint,
            DEFAULT_FEE,
            DEFAULT_TICK_SPACING,
            initial_price,
        ) {
            Ok(pool) => Ok(
                MarketState {
                    pool,
                    ticks: Seq::<Tick>::empty(),
                    positions: Seq::<Position>::empty(),
                },
            ),
            Err(e) => Err(e),
        }
    }

    /// The market after `owner` adds liquidity to a range. A range that
    /// the pool does not admit is rejected whatever the amount; an amount
    /// beyond the signed range is rejected next.
    pub open spec fn with_added_liquidity(
        self,
        owner: Address,
        liquidity_amount: u128,
        tick_lower: i32,
        tick_upper: i32,
    ) -> Result<MarketState, SwapV3Error> {
        if !is_valid_range(tick_lower as int, tick_upper as int, self.pool.tick_spacing as int) {
            Err(SwapV3Error::InvalidTick)
        } else if liquidity_amount > i128::MAX {
            Err(SwapV3Error::Overflow)
        } else {
            self.with_position_update(owner, tick_lower, tick_upper, liquidity_amount as int)
        }
    }

    /// The market after a swap of the first token for the second, without
    /// a price limit.
    pub open spec fn with_plain_swap(self, amount_in: u64, min_amount_out: u64) -> Result<
        (MarketState, SwapOutcome),
        SwapV3Error,
    > {
        self.with_swap(amount_in, min_amount_out, true, 0)
    }

    /// The market after an operation.
    pub open spec fn with_instruction(self, accounts: Accounts, instruction: SwapV3Instruction)
        -> Result<MarketState, SwapV3Error> {
        match instruction {
            SwapV3Instruction::InitializePool { initial_price } => MarketState::with_new_pool(
                accounts.token_0_mint,
                accounts.token_1_mint,
                initial_price,
            ),
            SwapV3Instruction::AddLiquidity {
                liquidity_amount,
                tick_lower,
                tick_upper,
            } => self.with_added_liquidity(
                accounts.owner,
                liquidity_amount,
                tick_lower,
                tick_upper,
            ),
            SwapV3Instruction::Swap { amount_in, min_amount_out } => match self.with_plain_swap(
                amount_in,
                min_amount_out,
            ) {
                Ok((market, _)) => Ok(market),
                Err(e) => Err(e),
            },
        }
    }

    /// The market after an encoded operation.
    pub open spec fn with_encoded(self, accounts: Accounts, data: Seq<u8>) -> Result<
        MarketState,
        SwapV3Error,
    > {
        match SwapV3Instruction::decoded(data) {
            Ok(instruction) => self.with_instruction(accounts, instruction),
            Err(e) => Err(e),
        }
    }
}

/// Carries out operations on a market.
#[derive(Debug, Clone, Copy)]
pub struct Processor;

impl Processor {
    /// Decodes an operation and carries it out. Fails with
    /// `InvalidInstruction` where the bytes encode no operation, and as the
    /// operation fails. A failure changes nothing.
    pub fn process(market: &mut Market, accounts: &Accounts, instruction_data: &[u8]) -> (r: Result<
        (),
        SwapV3Error,
    >)
        ensures
            match old(market)@.with_encoded(*accounts, instruction_data@) {
                Ok(after) => r is Ok && final(market)@ == after,
                Err(e) => r == Err::<(), SwapV3Error>(e) && final(market)@ == old(market)@,
            },
            old(market)@.consistent() ==> final(market)@.consistent(),
    {
        let instruction = match SwapV3Instruction::unpack(instruction_data) {
            Ok(instruction) => instruction,
            Err(e) => {
                return Err(e);
            },
        };
        match instruction {
            SwapV3Instruction::InitializePool { initial_price } => {
                Self::process_initialize_pool(
                    market,
                    accounts.token_0_mint,
                    accounts.token_1_mint,
                    initial_price,
                )
            },
            SwapV3Instruction::AddLiquidity { liquidity_amount, tick_lower, tick_upper } => {
                Self::process_add_liquidity(
                    market,
                    accounts.owner,
                    liquidity_amount,
                    tick_lower,
                    tick_upper,
                )
            },
            SwapV3Instruction::Swap { amount_in, min_amount_out } => {
                match Self::process_swap(market, amount_in, min_amount_out) {
                    Ok(_) => Ok(()),
                    Err(e) => Err(e),
                }
            },
        }
    }

    /// Sets up the pool of a market at a price, with the default fee and
    /// tick spacing; the market then has no ticks or positions, and is
    /// consistent. Fails with `InvalidPriceLimit` where the price is zero,
    /// and changes nothing then.
    pub fn process_initialize_pool(
        market: &mut Market,
        token_0_mint: Address,
        token_1_mint: Address,
        initial_price: u128,
    ) -> (r: Result<(), SwapV3Error>)
        ensures
            match MarketState::with_new_pool(token_0_mint, token_1_mint, initial_price) {
                Ok(after) => r is Ok && final(market)@ == after,
                Err(e) => r == Err::<(), SwapV3Error>(e) && final(market)@ == old(market)@,
            },
            r is Ok ==> final(market)@.consistent(),
    {
        proof {
            if initial_price != 0 {
                lemma_initialized_pool_holds_price(
                    token_0_mint,
                    token_1_mint,
                    DEFAULT_FEE,
                    DEFAULT_TICK_SPACING,
                    initial_price,
                );
                let after = MarketState::with_new_pool(token_0_mint, token_1_mint, initial_price);
                lemma_empty_market_is_consistent(after->Ok_0.pool);
            }
        }
        match Pool::initialize(
            token_0_mint,
            token_1_mint,
            DEFAULT_FEE,
            DEFAULT_TICK_SPACING,
            initial_price,
        ) {
            Ok(pool) => {
                *market = Market::new(pool);
                Ok(())
            },
            Err(e) => Err(e),
        }
    }

    /// Adds liquidity for `owner` to a range. Fails with `InvalidTick`
    /// where the range is empty, out of bounds or off the tick spacing,
    /// whatever the amount, and else with `Overflow` where an amount does
    /// not fit. A failure changes nothing.
    pub fn process_add_liquidity(
        market: &mut Market,
        owner: Address,
        liquidity_amount: u128,
        tick_lower: i32,
        tick_upper: i32,
    ) -> (r: Result<(), SwapV3Error>)
        ensures
            match old(market)@.with_added_liquidity(
                owner,
                liquidity_amount,
                tick_lower,
                tick_upper,
            ) {
                Ok(after) => r is Ok && final(market)@ == after,
                Err(e) => r == Err::<(), SwapV3Error>(e) && final(market)@ == old(market)@,
            },
            !is_valid_range(
                tick_lower as int,
                tick_upper as int,
                old(market).pool.tick_spacing as int,
            ) ==> r == Err::<(), SwapV3Error>(SwapV3Error::InvalidTick),
            old(market)@.consistent() ==> final(market)@.consistent(),
    {
        if !check_range(tick_lower, tick_upper, market.pool.tick_spacing) {
            return Err(SwapV3Error::InvalidTick);
        }
        if liquidity_amount > i128::MAX as u128 {
            return Err(SwapV3Error::Overflow);
        }
        market.update_position(owner, tick_lower, tick_upper, liquidity_amount as i128)
    }

    /// Swaps the first token for the second, without a price limit.
    /// Fails with `InvalidPriceLimit` where the output is below
    /// `min_amount_out`. A failure changes nothing.
    pub fn process_swap(market: &mut Market, amount_in: u64, min_amount_out: u64) -> (r: Result<
        SwapOutcome,
        SwapV3Error,
    >)
        ensures
            match old(market)@.with_plain_swap(amount_in, min_amount_out) {
                Ok((after, outcome)) => r == Ok::<SwapOutcome, SwapV3Error>(outcome)
                    && final(market)@ == after,
                Err(e) => r == Err::<SwapOutcome, SwapV3Error>(e)
                    && final(market)@ == old(market)@,
            },
            old(market)@.consistent() ==> final(market)@.consistent(),
    {
        market.swap(amount_in, min_amount_out, true, 0)
    }
}

} // verus!
