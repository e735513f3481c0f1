use swapv3::error::SwapV3Error;
use swapv3::market::Market;
use swapv3::processor::{Accounts, Processor, DEFAULT_FEE, DEFAULT_TICK_SPACING};
use swapv3::state::{Pool, Position, Tick};
use swapv3::tick_map::TickMap;
use swapv3::swap::{step, SwapOutcome, SwapState, SwapStatus};
use swapv3::utils::{get_sqrt_ratio_at_tick, mul_div, Q64, TICK_LIMIT};

const MINT_0: [u8; 32] = [1; 32];
const MINT_1: [u8; 32] = [2; 32];
const ALICE: [u8; 32] = [7; 32];
const BOB: [u8; 32] = [8; 32];

fn fresh_market() -> Market {
    Market::new(Pool::initialize(MINT_0, MINT_1, 500, 10, Q64).unwrap())
}

fn funded_market() -> Market {
    let mut market = fresh_market();
    market.update_position(ALICE, -100, 100, 1_000_000).unwrap();
    market
}

fn net_sum(market: &Market) -> i128 {
    market.ticks.ticks.iter().map(|tick| tick.liquidity_net).sum()
}

fn active_sum(market: &Market) -> u128 {
    market
        .positions
        .iter()
        .filter(|p| {
            p.tick_lower <= market.pool.current_tick && market.pool.current_tick < p.tick_upper
        })
        .map(|p| p.liquidity)
        .sum()
}

fn holds_price(pool: &Pool) -> bool {
    let tick = pool.current_tick;
    (-TICK_LIMIT..=TICK_LIMIT).contains(&tick)
        && (tick == -TICK_LIMIT || get_sqrt_ratio_at_tick(tick).unwrap() <= pool.sqrt_price_x64)
        && (tick == TICK_LIMIT || pool.sqrt_price_x64 < get_sqrt_ratio_at_tick(tick + 1).unwrap())
}

#[test]
fn current_tick_holds_the_price_after_every_operation() {
    let mut market = fresh_market();
    assert!(holds_price(&market.pool));
    market.update_position(ALICE, -100, 100, 1_000_000).unwrap();
    market.update_position(BOB, -200, -50, 2_000_000).unwrap();
    market.update_position(BOB, 50, 300, 3_000_000).unwrap();
    assert!(holds_price(&market.pool));
    let swaps: [(u64, bool, u128); 8] = [
        (1000, true, 0),
        (4000, true, 0),
        (3, false, u128::MAX),
        (20000, false, u128::MAX),
        (9000, true, Q64),
        (50000, true, 0),
        (1, false, u128::MAX),
        (100000, false, 18630000000000000000),
    ];
    for (amount_in, zero_for_one, limit) in swaps {
        let before = market.pool;
        market.swap(amount_in, 0, zero_for_one, limit).unwrap();
        assert!(holds_price(&market.pool));
        assert_eq!(active_sum(&market), market.pool.active_liquidity);
        assert_eq!(net_sum(&market), 0);
        if zero_for_one {
            assert!(market.pool.sqrt_price_x64 <= before.sqrt_price_x64);
            assert!(before.sqrt_price_x64 < limit || market.pool.sqrt_price_x64 >= limit);
        } else {
            assert!(market.pool.sqrt_price_x64 >= before.sqrt_price_x64);
            assert!(before.sqrt_price_x64 > limit || market.pool.sqrt_price_x64 <= limit);
        }
        assert!(market.pool.fee_growth_global_0 >= before.fee_growth_global_0);
        assert!(market.pool.fee_growth_global_1 >= before.fee_growth_global_1);
        assert!(market.pool.total_fee0 >= before.total_fee0);
        assert!(market.pool.total_fee1 >= before.total_fee1);
        assert_eq!(market.pool.tick_spacing, before.tick_spacing);
        assert_eq!(market.pool.fee, before.fee);
    }
}

#[test]
fn initialize_sets_the_pool_up() {
    let pool = Pool::initialize(MINT_0, MINT_1, 30, 60, Q64).unwrap();
    assert_eq!(
        pool,
        Pool {
            token_0_mint: MINT_0,
            token_1_mint: MINT_1,
            fee: 30,
            tick_spacing: 60,
            total_fee0: 0,
            total_fee1: 0,
            active_liquidity: 0,
            sqrt_price_x64: Q64,
            current_tick: 0,
            fee_growth_global_0: 0,
            fee_growth_global_1: 0,
        }
    );
    let tick_at =
        |price: u128| Pool::initialize(MINT_0, MINT_1, 30, 60, price).unwrap().current_tick;
    assert_eq!(tick_at(18539204128674405809), 99);
    assert_eq!(tick_at(1), -TICK_LIMIT);
    assert_eq!(tick_at(u128::MAX), TICK_LIMIT);
}

#[test]
fn initialize_rejects_price_zero() {
    assert_eq!(Pool::initialize(MINT_0, MINT_1, 500, 10, 0), Err(SwapV3Error::InvalidPriceLimit));
}

#[test]
fn record_sizes() {
    assert_eq!(Pool::LEN, 266);
    assert_eq!(Tick::LEN, 68);
    assert_eq!(Position::LEN, 120);
}

#[test]
fn add_liquidity_creates_ticks_and_position() {
    let market = funded_market();
    assert_eq!(market.pool.active_liquidity, 1_000_000);
    assert_eq!(
        market.ticks.ticks,
        vec![
            Tick {
                tick: -100,
                liquidity_net: 1_000_000,
                liquidity_gross: 1_000_000,
                fee_growth_outside_0: 0,
                fee_growth_outside_1: 0,
            },
            Tick {
                tick: 100,
                liquidity_net: -1_000_000,
                liquidity_gross: 1_000_000,
                fee_growth_outside_0: 0,
                fee_growth_outside_1: 0,
            },
        ]
    );
    assert_eq!(
        market.positions,
        vec![Position {
            owner: ALICE,
            tick_lower: -100,
            tick_upper: 100,
            liquidity: 1_000_000,
            fee_growth_inside_0_last: 0,
            fee_growth_inside_1_last: 0,
            collected_fee0: 0,
            collected_fee1: 0,
        }]
    );
}

#[test]
fn add_liquidity_out_of_range_leaves_active_liquidity() {
    let mut market = funded_market();
    market.update_position(BOB, 10, 200, 500).unwrap();
    market.update_position(BOB, -200, 0, 700).unwrap();
    assert_eq!(market.pool.active_liquidity, 1_000_000);
    market.update_position(BOB, 0, 10, 9).unwrap();
    assert_eq!(market.pool.active_liquidity, 1_000_009);
    assert_eq!(net_sum(&market), 0);
    assert_eq!(active_sum(&market), market.pool.active_liquidity);
}

#[test]
fn swap_within_one_range() {
    let mut market = funded_market();
    let outcome = market.swap(1000, 0, true, 0).unwrap();
    assert_eq!(outcome, SwapOutcome { amount_in: 1000, amount_out: 950, status: SwapStatus::Done });
    // one step: the input less the fee, valued at the price before the swap
    let fee = mul_div(1000, 500, 10_000).unwrap();
    assert_eq!(fee, 50);
    assert_eq!(Ok(outcome.amount_out), mul_div(1000 - fee, Q64, Q64));
    // no tick was crossed
    assert_eq!(market.pool.active_liquidity, 1_000_000);
    assert_eq!(market.ticks.ticks[0].fee_growth_outside_0, 0);
    assert_eq!(market.pool.sqrt_price_x64, 18428297329635842065);
    assert_eq!(market.pool.current_tick, -21);
    assert_eq!(market.pool.total_fee0, 50);
    assert_eq!(market.pool.total_fee1, 0);
    assert_eq!(market.pool.fee_growth_global_0, 922337203685477);
    assert_eq!(market.pool.fee_growth_global_1, 0);
    assert_eq!(active_sum(&market), market.pool.active_liquidity);
}

#[test]
fn swap_below_minimum_changes_nothing() {
    let mut market = funded_market();
    let pool = market.pool;
    let ticks = market.ticks.ticks.clone();
    let positions = market.positions.clone();
    assert_eq!(market.swap(1000, 951, true, 0), Err(SwapV3Error::InvalidPriceLimit));
    assert_eq!(market.pool, pool);
    assert_eq!(market.ticks.ticks, ticks);
    assert_eq!(market.positions, positions);
    assert_eq!(market.swap(1000, 950, true, 0).map(|o| o.amount_out), Ok(950));
}

#[test]
fn add_liquidity_over_an_empty_range_is_rejected() {
    let mut market = fresh_market();
    assert_eq!(market.update_position(ALICE, 100, 100, 5), Err(SwapV3Error::InvalidTick));
    assert_eq!(market.update_position(ALICE, 100, -100, 5), Err(SwapV3Error::InvalidTick));
    assert!(market.ticks.ticks.is_empty());
    assert!(market.positions.is_empty());
    assert_eq!(market.pool.active_liquidity, 0);
    assert_eq!(
        Processor::process_add_liquidity(&mut market, ALICE, 5, 20, 10),
        Err(SwapV3Error::InvalidTick)
    );
    assert!(market.ticks.ticks.is_empty());
    assert!(market.positions.is_empty());
}

#[test]
fn add_liquidity_rejects_misaligned_and_distant_ticks() {
    let mut market = fresh_market();
    assert_eq!(market.update_position(ALICE, -105, 100, 5), Err(SwapV3Error::InvalidTick));
    assert_eq!(market.update_position(ALICE, -100, 101, 5), Err(SwapV3Error::InvalidTick));
    assert_eq!(market.update_position(ALICE, -443640, 100, 5), Err(SwapV3Error::InvalidTick));
    assert_eq!(market.update_position(ALICE, 0, 443640, 5), Err(SwapV3Error::InvalidTick));
    assert_eq!(market.update_position(ALICE, -443630, 443630, 5), Ok(()));
    assert!(TICK_LIMIT == 443636);
}

#[test]
fn removing_liquidity_drops_ticks() {
    let mut market = funded_market();
    market.update_position(BOB, -100, 50, 10).unwrap();
    assert_eq!(market.ticks.ticks.len(), 3);
    market.update_position(ALICE, -100, 100, -1_000_000).unwrap();
    assert_eq!(
        market.ticks.ticks,
        vec![
            Tick {
                tick: -100,
                liquidity_net: 10,
                liquidity_gross: 10,
                fee_growth_outside_0: 0,
                fee_growth_outside_1: 0,
            },
            Tick {
                tick: 50,
                liquidity_net: -10,
                liquidity_gross: 10,
                fee_growth_outside_0: 0,
                fee_growth_outside_1: 0,
            },
        ]
    );
    assert_eq!(market.pool.active_liquidity, 10);
    assert_eq!(market.positions[0].liquidity, 0);
    assert_eq!(net_sum(&market), 0);
    assert_eq!(active_sum(&market), 10);
}

#[test]
fn removing_more_than_owned_overflows() {
    let mut market = funded_market();
    let ticks = market.ticks.ticks.clone();
    assert_eq!(market.update_position(ALICE, -100, 100, -1_000_001), Err(SwapV3Error::Overflow));
    assert_eq!(market.update_position(BOB, -100, 100, -1), Err(SwapV3Error::Overflow));
    assert_eq!(market.ticks.ticks, ticks);
    assert_eq!(market.positions.len(), 1);
    assert_eq!(market.pool.active_liquidity, 1_000_000);
}

#[test]
fn removing_more_than_a_tick_holds_is_invalid() {
    let mut market = funded_market();
    assert_eq!(market.apply_liquidity_delta(-100, 100, -1_000_001), Err(SwapV3Error::InvalidTick));
    assert_eq!(market.apply_liquidity_delta(-200, 100, -1), Err(SwapV3Error::InvalidTick));
    assert_eq!(market.pool.active_liquidity, 1_000_000);
    assert_eq!(market.ticks.ticks.len(), 2);
}

#[test]
fn swap_across_a_tick() {
    let mut market = funded_market();
    let outcome = market.swap(10000, 0, true, 0).unwrap();
    assert_eq!(
        outcome,
        SwapOutcome { amount_in: 4987, amount_out: 4738, status: SwapStatus::LimitReached }
    );
    assert_eq!(market.pool.active_liquidity, 0);
    assert_eq!(market.pool.current_tick, -TICK_LIMIT);
    assert_eq!(market.pool.sqrt_price_x64, 4295048016);
    assert_eq!(market.pool.total_fee0, 249);
    assert_eq!(market.pool.fee_growth_global_0, 4593239274353678);
    // the crossed tick took the fee growth over
    assert_eq!(market.ticks.ticks[0].fee_growth_outside_0, 4593239274353678);
    assert_eq!(market.ticks.ticks[0].liquidity_net, 1_000_000);
    assert_eq!(net_sum(&market), 0);
    assert_eq!(active_sum(&market), 0);
}

#[test]
fn swap_upward_across_a_tick() {
    let mut market = funded_market();
    let outcome = market.swap(10000, 0, false, u128::MAX).unwrap();
    assert_eq!(
        outcome,
        SwapOutcome { amount_in: 5012, amount_out: 4762, status: SwapStatus::LimitReached }
    );
    assert_eq!(market.pool.active_liquidity, 0);
    assert_eq!(market.pool.current_tick, TICK_LIMIT);
    assert_eq!(market.pool.sqrt_price_x64, 79226673515401279963822778343);
    assert_eq!(market.pool.total_fee1, 250);
    assert_eq!(market.pool.total_fee0, 0);
    assert_eq!(market.pool.fee_growth_global_1, 4611686018427387);
    assert_eq!(market.ticks.ticks[1].fee_growth_outside_1, 4611686018427387);
    assert_eq!(active_sum(&market), 0);
}

#[test]
fn swap_stops_at_the_price_limit() {
    let mut market = funded_market();
    let limit = Q64 - 10_000_000_000_000_000;
    let outcome = market.swap(10000, 0, true, limit).unwrap();
    assert_eq!(
        outcome,
        SwapOutcome { amount_in: 542, amount_out: 515, status: SwapStatus::LimitReached }
    );
    assert_eq!(market.pool.sqrt_price_x64, limit);
    assert_eq!(market.pool.current_tick, -11);
    assert_eq!(market.pool.active_liquidity, 1_000_000);
    assert_eq!(market.pool.total_fee0, 27);
}

#[test]
fn swap_across_two_ticks() {
    let mut market = funded_market();
    market.update_position(BOB, -200, -50, 2_000_000).unwrap();
    assert_eq!(market.pool.active_liquidity, 1_000_000);
    let outcome = market.swap(20000, 0, true, 0).unwrap();
    assert_eq!(
        outcome,
        SwapOutcome { amount_in: 19891, amount_out: 18832, status: SwapStatus::LimitReached }
    );
    assert_eq!(market.pool.active_liquidity, 0);
    assert_eq!(market.pool.current_tick, -TICK_LIMIT);
    assert_eq!(market.pool.total_fee0, 993);
    assert_eq!(market.pool.fee_growth_global_0, 9155733975251172);
    let outside = |tick: i32| {
        market.ticks.ticks.iter().find(|t| t.tick == tick).unwrap().fee_growth_outside_0
    };
    assert_eq!(outside(-50), 2287396265139984);
    assert_eq!(outside(-100), 4580941444971204);
    assert_eq!(outside(-200), 9155733975251172);
    assert_eq!(outside(100), 0);
    assert_eq!(net_sum(&market), 0);
    assert_eq!(active_sum(&market), 0);
}

#[test]
fn swap_does_not_cross_a_tick_at_the_limit() {
    let mut market = funded_market();
    market.update_position(BOB, -200, -50, 2_000_000).unwrap();
    let limit = 18354745142194483565;
    let outcome = market.swap(20000, 0, true, limit).unwrap();
    assert_eq!(
        outcome,
        SwapOutcome { amount_in: 9967, amount_out: 9452, status: SwapStatus::LimitReached }
    );
    assert_eq!(market.pool.sqrt_price_x64, limit);
    assert_eq!(market.pool.current_tick, -100);
    assert_eq!(market.pool.active_liquidity, 3_000_000);
    assert_eq!(market.pool.total_fee0, 497);
    assert_eq!(active_sum(&market), 3_000_000);
}

#[test]
fn swap_leaves_the_price_below_a_tick_crossed_downward() {
    let mut market = funded_market();
    market.update_position(BOB, -200, -100, 1_000_000).unwrap();
    // 4987 reach the tick at -100; one more crosses it
    let outcome = market.swap(4988, 0, true, 0).unwrap();
    assert_eq!(
        outcome,
        SwapOutcome { amount_in: 4988, amount_out: 4738, status: SwapStatus::Done }
    );
    assert_eq!(market.pool.current_tick, -101);
    assert_eq!(market.pool.active_liquidity, 1_000_000);
    // one below the price of the tick, less 2^64 / 1_000_000 for the last unit
    assert_eq!(market.pool.sqrt_price_x64, 18354745142194483565 - 1 - 18446744073709);
    assert_eq!(active_sum(&market), 1_000_000);
}

#[test]
fn swap_rests_on_a_tick_reached_downward() {
    let mut market = funded_market();
    let outcome = market.swap(4987, 0, true, 0).unwrap();
    assert_eq!(outcome.status, SwapStatus::Done);
    assert_eq!(market.pool.active_liquidity, 1_000_000);
    assert!(market.pool.sqrt_price_x64 >= 18354745142194483565);
    assert!(market.pool.current_tick >= -100);
    assert_eq!(active_sum(&market), 1_000_000);
}

#[test]
fn swap_of_nothing_is_done() {
    let mut market = funded_market();
    let pool = market.pool;
    assert_eq!(
        market.swap(0, 0, true, 0),
        Ok(SwapOutcome { amount_in: 0, amount_out: 0, status: SwapStatus::Done })
    );
    assert_eq!(market.pool, pool);
    assert_eq!(market.swap(0, 1, true, 0), Err(SwapV3Error::InvalidPriceLimit));
}

#[test]
fn swap_at_the_limit_uses_nothing() {
    let mut market = funded_market();
    assert_eq!(
        market.swap(1000, 0, true, Q64),
        Ok(SwapOutcome { amount_in: 0, amount_out: 0, status: SwapStatus::LimitReached })
    );
    assert_eq!(
        market.swap(1000, 0, false, Q64),
        Ok(SwapOutcome { amount_in: 0, amount_out: 0, status: SwapStatus::LimitReached })
    );
}

#[test]
fn fees_reach_the_position() {
    let mut market = funded_market();
    market.swap(1000, 0, true, 0).unwrap();
    market.update_position(ALICE, -100, 100, 0).unwrap();
    let position = market.positions[0];
    // 922337203685477 * 1_000_000 / 2^64
    assert_eq!(position.collected_fee0, 49);
    assert_eq!(position.collected_fee1, 0);
    assert_eq!(position.fee_growth_inside_0_last, 922337203685477);
    assert_eq!(position.liquidity, 1_000_000);
    // a second settlement finds nothing new
    market.update_position(ALICE, -100, 100, 0).unwrap();
    assert_eq!(market.positions[0].collected_fee0, 49);
}

#[test]
fn net_liquidity_sums_to_zero_after_updates() {
    let mut market = fresh_market();
    let steps: [([u8; 32], i32, i32, i128); 7] = [
        (ALICE, -100, 100, 1000),
        (BOB, -50, 100, 300),
        (ALICE, -100, 0, 40),
        (BOB, -50, 100, -300),
        (ALICE, -100, 100, -500),
        (BOB, 0, 10, 77),
        (ALICE, -100, 0, -40),
    ];
    for (owner, lower, upper, delta) in steps {
        market.update_position(owner, lower, upper, delta).unwrap();
        assert_eq!(net_sum(&market), 0);
        assert_eq!(active_sum(&market), market.pool.active_liquidity);
    }
    market.swap(3, 0, true, 0).unwrap();
    assert_eq!(net_sum(&market), 0);
    assert_eq!(active_sum(&market), market.pool.active_liquidity);
    market.swap(5000, 0, false, u128::MAX).unwrap();
    assert_eq!(net_sum(&market), 0);
    assert_eq!(active_sum(&market), market.pool.active_liquidity);
    market.swap(5000, 0, true, 0).unwrap();
    assert_eq!(net_sum(&market), 0);
    assert_eq!(active_sum(&market), market.pool.active_liquidity);
}

#[test]
fn process_runs_encoded_operations() {
    let accounts = Accounts { token_0_mint: MINT_0, token_1_mint: MINT_1, owner: ALICE };
    let mut market = Market::new(Pool::initialize([0; 32], [0; 32], 1, 1, 5).unwrap());

    let mut init = vec![0u8];
    init.extend_from_slice(&Q64.to_le_bytes());
    assert_eq!(Processor::process(&mut market, &accounts, &init), Ok(()));
    assert_eq!(market.pool.fee, DEFAULT_FEE);
    assert_eq!(market.pool.tick_spacing, DEFAULT_TICK_SPACING);
    assert_eq!(market.pool.token_0_mint, MINT_0);
    assert_eq!(market.pool.token_1_mint, MINT_1);
    assert_eq!(market.pool.sqrt_price_x64, Q64);
    assert_eq!(market.pool.current_tick, 0);

    let mut add = vec![1u8];
    add.extend_from_slice(&1_000_000u128.to_le_bytes());
    add.extend_from_slice(&(-100i32).to_le_bytes());
    add.extend_from_slice(&100i32.to_le_bytes());
    assert_eq!(Processor::process(&mut market, &accounts, &add), Ok(()));
    assert_eq!(market.positions[0].owner, ALICE);
    assert_eq!(market.pool.active_liquidity, 1_000_000);

    let mut swap = vec![2u8];
    swap.extend_from_slice(&1000u64.to_le_bytes());
    swap.extend_from_slice(&0u64.to_le_bytes());
    assert_eq!(Processor::process(&mut market, &accounts, &swap), Ok(()));
    assert_eq!(market.pool.total_fee0, 50);

    let pool = market.pool;
    assert_eq!(
        Processor::process(&mut market, &accounts, &[9, 9]),
        Err(SwapV3Error::InvalidInstruction)
    );
    let mut greedy = vec![2u8];
    greedy.extend_from_slice(&1000u64.to_le_bytes());
    greedy.extend_from_slice(&5000u64.to_le_bytes());
    assert_eq!(
        Processor::process(&mut market, &accounts, &greedy),
        Err(SwapV3Error::InvalidPriceLimit)
    );
    let mut zero = vec![0u8];
    zero.extend_from_slice(&0u128.to_le_bytes());
    assert_eq!(
        Processor::process(&mut market, &accounts, &zero),
        Err(SwapV3Error::InvalidPriceLimit)
    );
    assert_eq!(market.pool, pool);
    assert_eq!(market.positions.len(), 1);
}

#[test]
fn process_add_liquidity_rejects_amounts_beyond_the_signed_range() {
    let mut market = fresh_market();
    assert_eq!(
        Processor::process_add_liquidity(&mut market, ALICE, 1u128 << 127, -100, 100),
        Err(SwapV3Error::Overflow)
    );
    assert!(market.positions.is_empty());
}

#[test]
fn process_add_liquidity_rejects_a_bad_range_whatever_the_amount() {
    let mut market = fresh_market();
    let pool = market.pool;
    let ranges = [(100, 100), (100, -100), (-105, 100), (-100, 101), (-443640, 0), (0, 443640)];
    for amount in [0, 5, 1u128 << 127, u128::MAX] {
        for (tick_lower, tick_upper) in ranges {
            let (lower, upper) = (tick_lower, tick_upper);
            let added = Processor::process_add_liquidity(&mut market, ALICE, amount, lower, upper);
            assert_eq!(added, Err(SwapV3Error::InvalidTick));
            let mut data = vec![1u8];
            data.extend_from_slice(&amount.to_le_bytes());
            data.extend_from_slice(&tick_lower.to_le_bytes());
            data.extend_from_slice(&tick_upper.to_le_bytes());
            let accounts = Accounts { token_0_mint: MINT_0, token_1_mint: MINT_1, owner: ALICE };
            assert_eq!(
                Processor::process(&mut market, &accounts, &data),
                Err(SwapV3Error::InvalidTick)
            );
        }
    }
    assert_eq!(market.pool, pool);
    assert!(market.ticks.ticks.is_empty());
    assert!(market.positions.is_empty());
}

#[test]
fn fees_follow_the_liquidity_in_range() {
    let mut market = funded_market();
    market.update_position(BOB, -200, -50, 2_000_000).unwrap();

    // down across the tick at -50: from there on both positions earn
    let outcome = market.swap(9000, 0, true, 0).unwrap();
    assert_eq!(
        outcome,
        SwapOutcome { amount_in: 9000, amount_out: 8535, status: SwapStatus::Done }
    );
    assert_eq!(market.pool.sqrt_price_x64, 18360694570372736384);
    assert_eq!(market.pool.current_tick, -94);
    assert_eq!(market.pool.active_liquidity, 3_000_000);
    assert_eq!(market.pool.total_fee0, 449);
    assert_eq!(market.pool.fee_growth_global_0, 4285793539791852);

    // and up again, within the ticks at -100 and -50
    let outcome = market.swap(3000, 0, false, u128::MAX).unwrap();
    assert_eq!(
        outcome,
        SwapOutcome { amount_in: 3000, amount_out: 2863, status: SwapStatus::Done }
    );
    assert_eq!(market.pool.sqrt_price_x64, 18379141314446445935);
    assert_eq!(market.pool.current_tick, -74);
    assert_eq!(market.pool.total_fee1, 150);
    assert_eq!(market.pool.fee_growth_global_1, 922337203685477);

    market.update_position(ALICE, -100, 100, 0).unwrap();
    market.update_position(BOB, -200, -50, 0).unwrap();
    let alice = market.positions[0];
    let bob = market.positions[1];
    assert_eq!((alice.collected_fee0, alice.collected_fee1), (232, 49));
    assert_eq!((bob.collected_fee0, bob.collected_fee1), (216, 99));
    assert_eq!(alice.fee_growth_inside_0_last, 4285793539791852);
    assert_eq!(bob.fee_growth_inside_0_last, 1998397274651868);
    assert!(alice.collected_fee0 + bob.collected_fee0 <= market.pool.total_fee0);
    assert!(alice.collected_fee1 + bob.collected_fee1 <= market.pool.total_fee1);

    // without Bob's liquidity his ticks leave, and his fees stay his
    market.update_position(BOB, -200, -50, -2_000_000).unwrap();
    assert_eq!(market.ticks.ticks.len(), 2);
    assert_eq!(market.pool.active_liquidity, 1_000_000);
    let outcome = market.swap(30000, 0, false, u128::MAX).unwrap();
    assert_eq!(
        outcome,
        SwapOutcome { amount_in: 8677, amount_out: 8274, status: SwapStatus::LimitReached }
    );
    assert_eq!(market.pool.current_tick, TICK_LIMIT);
    assert_eq!(market.pool.fee_growth_global_1, 8909777387601712);
    market.update_position(ALICE, -100, 100, -1_000_000).unwrap();
    assert!(market.ticks.ticks.is_empty());
    assert_eq!(market.pool.active_liquidity, 0);
    let alice = market.positions[0];
    let bob = market.positions[1];
    assert_eq!((alice.liquidity, alice.collected_fee0, alice.collected_fee1), (0, 232, 481));
    assert_eq!((bob.liquidity, bob.collected_fee0, bob.collected_fee1), (0, 216, 99));
    assert!(holds_price(&market.pool));
}

#[test]
fn steps_of_a_swap() {
    let market = funded_market();
    let mut ticks = market.ticks.duplicate();
    let start = SwapState { pool: market.pool, amount_remaining: 6000, amount_out: 0 };

    // 4987 bring the price to the tick at -100, which the step crosses
    let (after, crossed) = step(&start, &mut ticks, true, 0).unwrap();
    assert!(crossed);
    assert_eq!(after.amount_remaining, 6000 - 4987);
    assert_eq!(after.amount_out, 4738);
    assert_eq!(after.pool.current_tick, -101);
    assert_eq!(after.pool.sqrt_price_x64, 18354745142194483565 - 1);
    assert_eq!(after.pool.active_liquidity, 0);
    assert_eq!(ticks.ticks[0].fee_growth_outside_0, after.pool.fee_growth_global_0);

    // without liquidity the next step takes nothing and ends at the lowest tick
    let (end, crossed) = step(&after, &mut ticks, true, 0).unwrap();
    assert!(!crossed);
    assert_eq!(end.amount_remaining, 6000 - 4987);
    assert_eq!(end.amount_out, 4738);
    assert_eq!(end.pool.current_tick, -TICK_LIMIT);
    assert_eq!(end.pool.sqrt_price_x64, 4295048016);

    // a small input fits a step
    let mut ticks = market.ticks.duplicate();
    let small = SwapState { pool: market.pool, amount_remaining: 10, amount_out: 7 };
    let (after, crossed) = step(&small, &mut ticks, false, u128::MAX).unwrap();
    assert!(!crossed);
    assert_eq!(after.amount_remaining, 0);
    assert_eq!(after.amount_out, 7 + 10);
    assert_eq!(after.pool.sqrt_price_x64, Q64 + 10 * Q64 / 1_000_000);
    assert_eq!(after.pool.current_tick, 0);
    assert_eq!(after.pool.total_fee1, 0);
    assert_eq!(ticks.ticks, market.ticks.ticks);
}

#[test]
fn a_step_that_fails_after_a_crossing_leaves_the_ticks() {
    let mut pool = Pool::initialize(MINT_0, MINT_1, 500, 10, Q64).unwrap();
    pool.active_liquidity = u128::MAX;
    pool.fee_growth_global_1 = 77;
    let mut ticks = TickMap::new();
    ticks.update_liquidity(&pool, 10, 1, true).unwrap();
    let before = ticks.ticks.clone();
    assert_eq!(before[0].fee_growth_outside_1, 0);
    let state = SwapState { pool, amount_remaining: u128::MAX, amount_out: 0 };
    // crossing the tick at 10 would bring the active liquidity above what fits
    assert_eq!(step(&state, &mut ticks, false, u128::MAX), Err(SwapV3Error::Overflow));
    assert_eq!(ticks.ticks, before);
}
