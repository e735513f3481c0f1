use swapv3::error::SwapV3Error;
use swapv3::utils::{get_sqrt_ratio_at_tick, get_tick_at_sqrt_ratio, mul_div, Q64, TICK_LIMIT};

#[test]
fn mul_div_rounds_down() {
    assert_eq!(mul_div(7, 3, 2), Ok(10));
    assert_eq!(mul_div(0, 5, 9), Ok(0));
    assert_eq!(mul_div(1, 1, 2), Ok(0));
    assert_eq!(mul_div(10, 10, 3), Ok(33));
}

#[test]
fn mul_div_keeps_the_wide_product() {
    assert_eq!(mul_div(u128::MAX, u128::MAX, u128::MAX), Ok(u128::MAX));
    assert_eq!(mul_div(u128::MAX, 2, 4), Ok(u128::MAX / 2));
    assert_eq!(mul_div(1u128 << 127, 1u128 << 127, 1u128 << 127), Ok(1u128 << 127));
    assert_eq!(mul_div(950, Q64, Q64), Ok(950));
}

#[test]
fn mul_div_by_zero_overflows() {
    assert_eq!(mul_div(1, 1, 0), Err(SwapV3Error::Overflow));
    assert_eq!(mul_div(0, 0, 0), Err(SwapV3Error::Overflow));
}

#[test]
fn mul_div_overflows_where_the_quotient_is_too_wide() {
    assert_eq!(mul_div(u128::MAX, 2, 1), Err(SwapV3Error::Overflow));
    assert_eq!(mul_div(1u128 << 100, 1u128 << 100, 1u128 << 71), Err(SwapV3Error::Overflow));
    assert_eq!(mul_div(1u128 << 100, 1u128 << 100, 1u128 << 73), Ok(1u128 << 127));
}

#[test]
fn mul_div_brackets_the_product() {
    let cases: [(u128, u128, u128); 4] =
        [(7, 3, 2), (12345678901234567, 98765432109876543, 1000000007), (5, 0, 3), (1, 1, 1)];
    for (a, b, c) in cases {
        let q = mul_div(a, b, c).unwrap();
        assert!(q.checked_mul(c).map_or(false, |floor| floor <= a * b));
        assert!(a * b < (q + 1) * c);
    }
}

#[test]
fn sqrt_ratio_of_tick_zero_is_one() {
    assert_eq!(get_sqrt_ratio_at_tick(0), Ok(Q64));
    assert_eq!(Q64, 1u128 << 64);
}

#[test]
fn sqrt_ratio_exact_values() {
    assert_eq!(get_sqrt_ratio_at_tick(-1), Ok(0xfffcb933bd6fad38));
    assert_eq!(get_sqrt_ratio_at_tick(1), Ok(18447666387855959850));
    assert_eq!(get_sqrt_ratio_at_tick(-100), Ok(18354745142194483565));
    assert_eq!(get_sqrt_ratio_at_tick(100), Ok(18539204128674405810));
    assert_eq!(get_sqrt_ratio_at_tick(-2), Ok(0xfff97272373d4132));
    assert_eq!(get_sqrt_ratio_at_tick(-TICK_LIMIT), Ok(4295048016));
    assert_eq!(get_sqrt_ratio_at_tick(TICK_LIMIT), Ok(79226673515401279963822778343));
}

#[test]
fn sqrt_ratio_rejects_ticks_out_of_bounds() {
    assert_eq!(get_sqrt_ratio_at_tick(TICK_LIMIT + 1), Err(SwapV3Error::InvalidTick));
    assert_eq!(get_sqrt_ratio_at_tick(-TICK_LIMIT - 1), Err(SwapV3Error::InvalidTick));
    assert_eq!(get_sqrt_ratio_at_tick(i32::MIN), Err(SwapV3Error::InvalidTick));
    assert_eq!(get_sqrt_ratio_at_tick(i32::MAX), Err(SwapV3Error::InvalidTick));
}

// 2^128 / x, computed without leaving 128 bits
fn reciprocal(x: u128) -> u128 {
    let q = u128::MAX / x;
    if u128::MAX - q * x == x - 1 {
        q + 1
    } else {
        q
    }
}

#[test]
fn sqrt_ratio_of_a_negative_tick_is_the_reciprocal() {
    for tick in [1, 2, 3, 10, 100, 4095, 65536, 100000, 262143, 262144, 443636] {
        let up = get_sqrt_ratio_at_tick(tick).unwrap();
        let down = get_sqrt_ratio_at_tick(-tick).unwrap();
        assert!(down < Q64 && Q64 < up);
        assert_eq!(down, reciprocal(up));
        // the other way round the rounding of the lower price shows
        assert!(up <= reciprocal(down));
    }
    assert_eq!(reciprocal(Q64), Q64);
    let up = get_sqrt_ratio_at_tick(443636).unwrap();
    let down = get_sqrt_ratio_at_tick(-443636).unwrap();
    assert_eq!(reciprocal(down) - up, 5665699293755469748);
}

#[test]
fn tick_of_a_price() {
    assert_eq!(get_tick_at_sqrt_ratio(Q64), 0);
    assert_eq!(get_tick_at_sqrt_ratio(Q64 - 1), -1);
    assert_eq!(get_tick_at_sqrt_ratio(18539204128674405810), 100);
    assert_eq!(get_tick_at_sqrt_ratio(18539204128674405809), 99);
    assert_eq!(get_tick_at_sqrt_ratio(18354745142194483565), -100);
    assert_eq!(get_tick_at_sqrt_ratio(18354745142194483564), -101);
    assert_eq!(get_tick_at_sqrt_ratio(1), -TICK_LIMIT);
    assert_eq!(get_tick_at_sqrt_ratio(u128::MAX), TICK_LIMIT);
}

#[test]
fn sqrt_ratio_rises_with_the_tick() {
    let ticks = [
        -TICK_LIMIT, -262144, -262143, -65536, -65535, -32768, -32767, -1024, -3, -2, -1, 0, 1, 2,
        3, 1023, 1024, 32767, 32768, 65535, 65536, 262143, 262144, TICK_LIMIT,
    ];
    for pair in ticks.windows(2) {
        let lower = get_sqrt_ratio_at_tick(pair[0]).unwrap();
        let higher = get_sqrt_ratio_at_tick(pair[1]).unwrap();
        assert!(lower < higher);
    }
    for tick in -2000..2000 {
        assert!(get_sqrt_ratio_at_tick(tick).unwrap() < get_sqrt_ratio_at_tick(tick + 1).unwrap());
    }
}

#[test]
fn tick_of_a_tick_price_is_the_tick() {
    for tick in [-TICK_LIMIT, -300000, -65536, -777, -1, 0, 1, 500, 65535, 400000, TICK_LIMIT] {
        let price = get_sqrt_ratio_at_tick(tick).unwrap();
        assert_eq!(get_tick_at_sqrt_ratio(price), tick);
        if tick > -TICK_LIMIT {
            assert_eq!(get_tick_at_sqrt_ratio(price - 1), tick - 1);
        }
    }
}

#[test]
fn sqrt_ratio_follows_the_powers_of_the_tick_base() {
    // tick 2 is one whole step of 1.0001
    assert_eq!(get_sqrt_ratio_at_tick(2), Ok(Q64 * 10001 / 10000));
    assert_eq!(get_sqrt_ratio_at_tick(2), Ok(18448588748116922571));
    // a power of two ticks is the square of the power below, to a few units
    let mut tick = 1;
    while tick * 2 <= TICK_LIMIT {
        let below = get_sqrt_ratio_at_tick(tick).unwrap();
        let above = get_sqrt_ratio_at_tick(tick * 2).unwrap();
        let square = mul_div(below, below, Q64).unwrap();
        assert!(square <= above && above - square <= 488);
        tick *= 2;
    }
}

#[test]
fn sqrt_ratio_of_opposite_ticks_are_reciprocal_within_one_near_zero() {
    for tick in -6931..=6931 {
        let here = get_sqrt_ratio_at_tick(tick).unwrap();
        let there = get_sqrt_ratio_at_tick(-tick).unwrap();
        let back = reciprocal(here);
        assert!(there <= back && back - there <= 1);
        if tick >= 0 {
            assert_eq!(there, back);
        }
    }
    // further down the rounding of the lower price shows
    let here = get_sqrt_ratio_at_tick(-7028).unwrap();
    let there = get_sqrt_ratio_at_tick(7028).unwrap();
    assert_eq!(reciprocal(here) - there, 2);
}

#[test]
fn sqrt_ratio_of_opposite_ticks_differ_by_the_remainder_over_the_quotient() {
    let one_less = u128::MAX; // 2^128 - 1
    for tick in [-1, -7, -6931, -6932, -7027, -7028, -10000, -100000, -300000, -443636] {
        let here = get_sqrt_ratio_at_tick(tick).unwrap();
        let there = get_sqrt_ratio_at_tick(-tick).unwrap();
        // quotient and remainder of 2^128 by the ratio of the magnitude
        let mut quotient = one_less / there;
        let mut rest = one_less % there + 1;
        if rest == there {
            quotient += 1;
            rest = 0;
        }
        assert_eq!(here, quotient);
        let excess = reciprocal(here) - there;
        assert_eq!(excess, rest / quotient);
        assert_eq!(excess <= 1, rest < 2 * quotient);
    }
    for tick in -7027..0 {
        let here = get_sqrt_ratio_at_tick(tick).unwrap();
        let there = get_sqrt_ratio_at_tick(-tick).unwrap();
        assert!(reciprocal(here) - there <= 1);
    }
}
