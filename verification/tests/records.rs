use swapv3::error::SwapV3Error;
use swapv3::market::Market;
use swapv3::state::{check_range, compute_fee_growth_inside, same_address, Pool, Position, Tick};
use swapv3::tick_map::TickMap;
use swapv3::utils::Q64;

fn pool_at_one() -> Pool {
    Pool::initialize([1; 32], [2; 32], 500, 10, Q64).unwrap()
}

#[test]
fn addresses_compare_byte_by_byte() {
    let mut other = [5u8; 32];
    assert!(same_address(&[5; 32], &other));
    other[31] = 6;
    assert!(!same_address(&[5; 32], &other));
    other[31] = 5;
    other[0] = 4;
    assert!(!same_address(&[5; 32], &other));
}

#[test]
fn ranges_are_checked() {
    assert!(check_range(-100, 100, 10));
    assert!(check_range(-443630, 443630, 10));
    assert!(check_range(-443636, 443636, 1));
    assert!(check_range(-443636, 443636, 4));
    assert!(!check_range(100, 100, 10));
    assert!(!check_range(110, 100, 10));
    assert!(!check_range(-95, 100, 10));
    assert!(!check_range(-100, 95, 10));
    assert!(!check_range(-443637, 0, 1));
    assert!(!check_range(0, 443637, 1));
    assert!(!check_range(i32::MIN, i32::MAX, 1));
    // with a spacing of zero only tick zero is aligned, and no range has two ends
    assert!(!check_range(0, 10, 0));
    assert!(!check_range(-10, 0, 0));
}

#[test]
fn tick_counts_liquidity_at_either_end() {
    let mut tick = Tick::blank(50);
    assert_eq!(tick.update_liquidity(700, true), Ok(()));
    assert_eq!((tick.liquidity_net, tick.liquidity_gross), (700, 700));
    assert_eq!(tick.update_liquidity(300, false), Ok(()));
    assert_eq!((tick.liquidity_net, tick.liquidity_gross), (400, 1000));
    assert_eq!(tick.update_liquidity(-700, true), Ok(()));
    assert_eq!((tick.liquidity_net, tick.liquidity_gross), (-300, 300));
    assert_eq!(tick.update_liquidity(-300, false), Ok(()));
    assert_eq!((tick.liquidity_net, tick.liquidity_gross), (0, 0));
    assert_eq!(tick, Tick::blank(50));
    assert_eq!(Tick::default(), Tick::blank(0));
}

#[test]
fn tick_rejects_what_it_cannot_hold() {
    let mut tick = Tick::blank(50);
    tick.update_liquidity(10, true).unwrap();
    let before = tick;
    assert_eq!(tick.update_liquidity(-11, true), Err(SwapV3Error::InvalidTick));
    assert_eq!(tick.update_liquidity(i128::MIN, true), Err(SwapV3Error::InvalidTick));
    assert_eq!(tick.update_liquidity(i128::MAX, true), Err(SwapV3Error::Overflow));
    assert_eq!(tick, before);
    let mut full = Tick { liquidity_gross: u128::MAX, ..Tick::blank(0) };
    assert_eq!(full.update_liquidity(1, true), Err(SwapV3Error::Overflow));
    let mut far = Tick::blank(443637);
    assert_eq!(far.update_liquidity(1, true), Err(SwapV3Error::InvalidTick));
    let mut far = Tick::blank(-443637);
    assert_eq!(far.update_liquidity(1, false), Err(SwapV3Error::InvalidTick));
}

#[test]
fn crossing_flips_the_snapshots() {
    let mut tick = Tick {
        tick: 20,
        liquidity_net: -5,
        liquidity_gross: 9,
        fee_growth_outside_0: 30,
        fee_growth_outside_1: 0,
    };
    assert_eq!(tick.cross(100, 7, true), Ok(-5));
    assert_eq!((tick.fee_growth_outside_0, tick.fee_growth_outside_1), (70, 7));
    assert_eq!(tick.cross(100, 7, false), Ok(5));
    assert_eq!((tick.fee_growth_outside_0, tick.fee_growth_outside_1), (30, 0));
    assert_eq!((tick.liquidity_net, tick.liquidity_gross), (-5, 9));
    let before = tick;
    assert_eq!(tick.cross(29, 7, true), Err(SwapV3Error::Overflow));
    assert_eq!(tick, before);
    let mut lowest = Tick { liquidity_net: i128::MIN, ..Tick::blank(0) };
    assert_eq!(lowest.cross(0, 0, false), Err(SwapV3Error::Overflow));
    assert_eq!(lowest.cross(0, 0, true), Ok(i128::MIN));
}

#[test]
fn fee_growth_inside_a_range() {
    // the current tick inside the range
    assert_eq!(compute_fee_growth_inside(100, 30, 20, 0, -10, 10), Some(50));
    // below the range: the lower tick's snapshot counts what lies above it
    assert_eq!(compute_fee_growth_inside(100, 30, 20, -11, -10, 10), Some(10));
    // above the range, the upper tick included
    assert_eq!(compute_fee_growth_inside(100, 30, 20, 10, -10, 10), None);
    assert_eq!(compute_fee_growth_inside(100, 30, 50, 10, -10, 10), Some(20));
    assert_eq!(compute_fee_growth_inside(100, 101, 0, -11, -10, 10), None);
    assert_eq!(compute_fee_growth_inside(100, 60, 50, 0, -10, 10), None);
}

#[test]
fn position_settles_fees_before_its_liquidity_changes() {
    let mut position = Position::empty([9; 32], -10, 10);
    assert_eq!(position.update(5 * Q64, 0, 100), Ok(()));
    assert_eq!(position.liquidity, 100);
    assert_eq!(position.collected_fee0, 0);
    assert_eq!(position.fee_growth_inside_0_last, 5 * Q64);
    assert_eq!(position.update(7 * Q64, Q64 / 2, -40), Ok(()));
    assert_eq!(position.liquidity, 60);
    assert_eq!(position.collected_fee0, 200);
    assert_eq!(position.collected_fee1, 50);
    let before = position;
    assert_eq!(position.update(7 * Q64, Q64 / 2, -61), Err(SwapV3Error::Overflow));
    assert_eq!(position.update(6 * Q64, Q64 / 2, 0), Err(SwapV3Error::Overflow));
    assert_eq!(position.update(7 * Q64, Q64 / 2, i128::MIN), Err(SwapV3Error::Overflow));
    assert_eq!(position, before);
}

#[test]
fn tick_map_keeps_one_record_for_each_tick() {
    let pool = pool_at_one();
    let mut ticks = TickMap::new();
    assert_eq!(ticks.find(5), None);
    assert_eq!(ticks.record(&pool, 5), Tick::blank(5));
    assert_eq!(ticks.update_liquidity(&pool, 10, 4, true), Ok(()));
    assert_eq!(ticks.update_liquidity(&pool, -10, 6, true), Ok(()));
    assert_eq!(ticks.update_liquidity(&pool, 10, 6, false), Ok(()));
    assert_eq!(ticks.find(10), Some(0));
    assert_eq!(ticks.find(-10), Some(1));
    assert_eq!(ticks.ticks[0].liquidity_net, -2);
    assert_eq!(ticks.ticks[0].liquidity_gross, 10);
    assert_eq!(ticks.update_liquidity(&pool, 10, -11, true), Err(SwapV3Error::InvalidTick));
    assert_eq!(ticks.update_liquidity(&pool, 443640, 1, true), Err(SwapV3Error::InvalidTick));
    assert_eq!(ticks.ticks.len(), 2);
    assert_eq!(ticks.update_liquidity(&pool, 10, -4, true), Ok(()));
    assert_eq!(ticks.update_liquidity(&pool, 10, -6, false), Ok(()));
    assert_eq!(ticks.find(10), None);
    assert_eq!(ticks.find(-10), Some(0));
    let copy = ticks.duplicate();
    assert_eq!(copy.ticks, ticks.ticks);
}

#[test]
fn a_new_tick_takes_the_fee_growth_below_it() {
    let mut pool = pool_at_one();
    pool.fee_growth_global_0 = 11;
    pool.fee_growth_global_1 = 13;
    let ticks = TickMap::new();
    let at = ticks.record(&pool, 0);
    assert_eq!((at.fee_growth_outside_0, at.fee_growth_outside_1), (11, 13));
    let below = ticks.record(&pool, -10);
    assert_eq!((below.fee_growth_outside_0, below.fee_growth_outside_1), (11, 13));
    let above = ticks.record(&pool, 10);
    assert_eq!((above.fee_growth_outside_0, above.fee_growth_outside_1), (0, 0));
}

#[test]
fn tick_map_finds_the_next_tick() {
    let pool = pool_at_one();
    let mut ticks = TickMap::new();
    for tick in [30, -20, 10, -40] {
        ticks.update_liquidity(&pool, tick, 1, true).unwrap();
    }
    assert_eq!(ticks.greatest_between(-100, 0), Some(-20));
    assert_eq!(ticks.greatest_between(-100, -20), Some(-20));
    assert_eq!(ticks.greatest_between(-100, -21), Some(-40));
    assert_eq!(ticks.greatest_between(-40, -21), None);
    assert_eq!(ticks.greatest_between(-100, 100), Some(30));
    assert_eq!(ticks.least_between(0, 100), Some(10));
    assert_eq!(ticks.least_between(10, 100), Some(30));
    assert_eq!(ticks.least_between(30, 100), None);
    assert_eq!(ticks.least_between(-100, 100), Some(-40));
    assert_eq!(ticks.least_between(5, 9), None);
}

#[test]
fn crossing_a_tick_without_a_record_changes_nothing() {
    let pool = pool_at_one();
    let mut ticks = TickMap::new();
    ticks.update_liquidity(&pool, 10, 4, true).unwrap();
    let before = ticks.ticks.clone();
    assert_eq!(ticks.cross_tick(20, 5, 5, true), Ok(0));
    assert_eq!(ticks.ticks, before);
    assert_eq!(ticks.cross_tick(10, 5, 6, true), Ok(4));
    assert_eq!(ticks.ticks[0].fee_growth_outside_0, 5);
    assert_eq!(ticks.ticks[0].fee_growth_outside_1, 6);
    assert_eq!(ticks.cross_tick(10, 5, 6, false), Ok(-4));
    assert_eq!(ticks.cross_tick(10, 0, 0, false), Ok(-4));
    assert_eq!(ticks.cross_tick(10, 0, 0, false), Ok(-4));
    assert_eq!(ticks.ticks, before);
}

#[test]
fn a_fee_above_the_whole_fails_the_swap() {
    let mut market = Market::new(Pool::initialize([1; 32], [2; 32], 10_001, 10, Q64).unwrap());
    market.update_position([7; 32], -100, 100, 1_000_000_000).unwrap();
    let pool = market.pool;
    assert_eq!(market.swap(20_000, 0, true, 0), Err(SwapV3Error::Overflow));
    assert_eq!(market.pool, pool);
    let mut market = Market::new(Pool::initialize([1; 32], [2; 32], 10_000, 10, Q64).unwrap());
    market.update_position([7; 32], -100, 100, 1_000_000_000).unwrap();
    assert_eq!(market.swap(20_000, 0, true, 0).map(|outcome| outcome.amount_out), Ok(0));
    assert_eq!(market.pool.total_fee0, 20_000);
}

#[test]
fn a_swap_without_liquidity_runs_to_the_end_of_the_ticks() {
    let mut market = Market::new(pool_at_one());
    let outcome = market.swap(1000, 0, false, u128::MAX).unwrap();
    assert_eq!(outcome.amount_in, 0);
    assert_eq!(outcome.amount_out, 0);
    assert_eq!(market.pool.current_tick, 443636);
    assert_eq!(market.pool.sqrt_price_x64, 79226673515401279963822778343);
    let outcome = market.swap(1000, 0, true, Q64).unwrap();
    assert_eq!(outcome.amount_in, 0);
    assert_eq!(market.pool.current_tick, 0);
    assert_eq!(market.pool.sqrt_price_x64, Q64);
}

#[test]
fn a_swap_fails_where_the_current_tick_is_out_of_bounds() {
    let mut pool = pool_at_one();
    pool.current_tick = 443637;
    let mut market = Market::new(pool);
    assert_eq!(market.swap(1, 0, true, 0), Err(SwapV3Error::InvalidTick));
    assert_eq!(market.swap(0, 0, true, 0).map(|outcome| outcome.amount_in), Ok(0));
}
