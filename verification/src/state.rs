//! The three kinds of record that the engine keeps: the pool, the ticks
//! that positions reference, and the positions themselves.

use crate::error::SwapV3Error;
use crate::utils::{mul_div, mul_div_spec, tick_in_bounds, Q64, TICK_LIMIT};
use vstd::prelude::*;

verus! {

/// The identifier of an owner or of a token mint.
pub type Address = [u8; 32];

/// Whether two identifiers are the same.
pub fn same_address(a: &Address, b: &Address) -> (r: bool)
    ensures
        r == (*a == *b),
{
    let mut i: usize = 0;
    while i < 32
        invariant
            i <= 32,
            forall|k: int| 0 <= k < i ==> a[k] == b[k],
        decreases 32 - i,
    {
        if a[i] != b[i] {
            return false;
        }
        i += 1;
    }
    assert(*a =~= *b);
    true
}

/// The global state of one pool.
#[derive(Debug, Clone, Copy, PartialEq, Eq)]
pub struct Pool {
    /// The mint of the first token.
    pub token_0_mint: Address,
    /// The mint of the second token.
    pub token_1_mint: Address,
    /// The fee taken from a swap's input, in basis points.
    pub fee: u32,
    /// The spacing between the ticks that a range may end on.
    pub tick_spacing: u16,
    /// The fees collected so far in the first token.
    pub total_fee0: u128,
    /// The fees collected so far in the second token.
    pub total_fee1: u128,
    /// The liquidity of the positions whose range holds the current tick.
    pub active_liquidity: u128,
    /// The current square-root price, a Q64.64 number.
    pub sqrt_price_x64: u128,
    /// The current tick.
    pub current_tick: i32,
    /// The fees in the first token ever earned by one unit of liquidity,
    /// a Q64.64 number.
    pub fee_growth_global_0: u128,
    /// The fees in the second token ever earned by one unit of liquidity,
    /// a Q64.64 number.
    pub fee_growth_global_1: u128,
}

impl Pool {
    /// The size of the stored record: the widths of its fields, and 96
    /// bytes kept for later fields.
    pub const LEN: usize = 32 + 32 + 4 + 2 + 16 + 16 + 16 + 16 + 4 + 16 + 16 + 96;
}

/// The state of one tick that at least one position starts or ends on.
#[derive(Debug, Clone, Copy, PartialEq, Eq)]
pub struct Tick {
    /// The tick index.
    pub tick: i32,
    /// The liquidity that becomes active when the price rises across this
    /// tick, and inactive when it falls across it.
    pub liquidity_net: i128,
    /// The liquidity of the positions that start or end on this tick.
    pub liquidity_gross: u128,
    /// The fee growth in the first token on the far side of this tick.
    pub fee_growth_outside_0: u128,
    /// The fee growth in the second token on the far side of this tick.
    pub fee_growth_outside_1: u128,
}

/// One owner's liquidity over the ticks from `tick_lower` up to, but not
/// including, `tick_upper`.
#[derive(Debug, Clone, Copy, PartialEq, Eq)]
pub struct Position {
    /// The owner.
    pub owner: Address,
    /// The first tick of the range.
    pub tick_lower: i32,
    /// The tick behind the last of the range.
    pub tick_upper: i32,
    /// The liquidity provided.
    pub liquidity: u128,
    /// The fee growth inside the range, in the first token, when the
    /// position was last updated.
    pub fee_growth_inside_0_last: u128,
    /// The fee growth inside the range, in the second token, when the
    /// position was last updated.
    pub fee_growth_inside_1_last: u128,
    /// The fees earned in the first token.
    pub collected_fee0: u128,
    /// The fees earned in the second token.
    pub collected_fee1: u128,
}

/// Whether a tick is a multiple of the spacing. With a spacing of zero only
/// tick zero is.
pub open spec fn is_aligned(tick: int, spacing: int) -> bool {
    if spacing == 0 {
        tick == 0
    } else {
        tick % spacing == 0
    }
}

/// Whether two ticks bound a range that a position can have: both within
/// the bound, both multiples of the spacing, the lower below the upper.
pub open spec fn is_valid_range(tick_lower: int, tick_upper: int, spacing: int) -> bool {
    &&& tick_lower < tick_upper
    &&& tick_in_bounds(tick_lower)
    &&& tick_in_bounds(tick_upper)
    &&& is_aligned(tick_lower, spacing)
    &&& is_aligned(tick_upper, spacing)
}

/// Whether a tick lies in a range.
pub open spec fn range_holds(tick_lower: int, tick_upper: int, tick: int) -> bool {
    tick_lower <= tick < tick_upper
}

/// A number is a multiple of another where its negation is.
proof fn lemma_multiple_of_negation(magnitude: int, spacing: int)
    by (nonlinear_arith)
    requires
        spacing > 0,
    ensures
        (magnitude % spacing == 0) == ((-magnitude) % spacing == 0),
{
    if magnitude % spacing == 0 {
        assert(magnitude == spacing * (magnitude / spacing));
        assert(-magnitude == spacing * (-(magnitude / spacing)));
    }
    if (-magnitude) % spacing == 0 {
        assert(-magnitude == spacing * ((-magnitude) / spacing));
        assert(magnitude == spacing * (-((-magnitude) / spacing)));
    }
}

/// Whether a tick is a multiple of the spacing.
fn check_aligned(tick: i32, spacing: u16) -> (r: bool)
    requires
        tick_in_bounds(tick as int),
    ensures
        r == is_aligned(tick as int, spacing as int),
{
    if spacing == 0 {
        tick == 0
    } else {
        let magnitude: u32 = if tick < 0 {
            (-tick) as u32
        } else {
            tick as u32
        };
        proof {
            lemma_multiple_of_negation(magnitude as int, spacing as int);
        }
        magnitude % (spacing as u32) == 0
    }
}

/// Whether two ticks bound a range that a position can have.
pub fn check_range(tick_lower: i32, tick_upper: i32, spacing: u16) -> (r: bool)
    ensures
        r == is_valid_range(tick_lower as int, tick_upper as int, spacing as int),
{
    if tick_lower >= tick_upper {
        return false;
    }
    if tick_lower < -TICK_LIMIT || tick_lower > TICK_LIMIT {
        return false;
    }
    if tick_upper < -TICK_LIMIT || tick_upper > TICK_LIMIT {
        return false;
    }
    check_aligned(tick_lower, spacing) && check_aligned(tick_upper, spacing)
}

impl Tick {
    /// The size of the stored record: the widths of its fields.
    pub const LEN: usize = 4 + 16 + 16 + 16 + 16;

    /// The record of a tick that no position references.
    pub open spec fn spec_blank(tick: i32) -> Tick {
        Tick {
            tick,
            liquidity_net: 0,
            liquidity_gross: 0,
            fee_growth_outside_0: 0,
            fee_growth_outside_1: 0,
        }
    }

    /// The record of a tick that no position references.
    #[verifier::when_used_as_spec(spec_blank)]
    pub fn blank(tick: i32) -> (r: Tick)
        ensures
            r == Tick::spec_blank(tick),
    {
        Tick {
            tick,
            liquidity_net: 0,
            liquidity_gross: 0,
            fee_growth_outside_0: 0,
            fee_growth_outside_1: 0,
        }
    }

    /// The record after liquidity `delta` is added to a range that starts
    /// on this tick (`is_lower`) or ends on it: the gross liquidity grows by
    /// `delta`, the net liquidity by `delta` at the start of a range and by
    /// `-delta` at its end.
    pub open spec fn updated(self, delta: int, is_lower: bool) -> Result<Tick, SwapV3Error> {
        let gross = self.liquidity_gross + delta;
        let net = if is_lower {
            self.liquidity_net + delta
        } else {
            self.liquidity_net - delta
        };
        if !tick_in_bounds(self.tick as int) || gross < 0 {
            Err(SwapV3Error::InvalidTick)
        } else if gross > u128::MAX || net < i128::MIN || net > i128::MAX {
            Err(SwapV3Error::Overflow)
        } else {
            Ok(Tick { liquidity_net: net as i128, liquidity_gross: gross as u128, ..self })
        }
    }

    /// Adds liquidity `delta` (negative to remove) to this tick as the
    /// start (`is_lower`) or the end of a range. Fails with `InvalidTick`
    /// where the tick is out of bounds or more would be removed than
    /// references the tick, with `Overflow` where a sum does not fit.
    pub fn update_liquidity(&mut self, delta: i128, is_lower: bool) -> (r: Result<(), SwapV3Error>)
        ensures
            match old(self).updated(delta as int, is_lower) {
                Ok(tick) => r is Ok && *final(self) == tick,
                Err(e) => r == Err::<(), SwapV3Error>(e) && *final(self) == *old(self),
            },
    {
        if self.tick < -TICK_LIMIT || self.tick > TICK_LIMIT {
            return Err(SwapV3Error::InvalidTick);
        }
        let gross = match self.liquidity_gross.checked_add_signed(delta) {
            Some(gross) => gross,
            None => {
                if delta < 0 {
                    return Err(SwapV3Error::InvalidTick);
                } else {
                    return Err(SwapV3Error::Overflow);
                }
            },
        };
        let net = if is_lower {
            self.liquidity_net.checked_add(delta)
        } else {
            self.liquidity_net.checked_sub(delta)
        };
        match net {
            Some(net) => {
                self.liquidity_gross = gross;
                self.liquidity_net = net;
                Ok(())
            },
            None => Err(SwapV3Error::Overflow),
        }
    }

    /// The record after the price crosses this tick, and the change of the
    /// active liquidity that the crossing brings: the net liquidity for a
    /// crossing upward, its negation for a crossing downward. Each
    /// fee-growth snapshot becomes the global fee growth less the snapshot.
    pub open spec fn crossed(
        self,
        fee_growth_global_0: u128,
        fee_growth_global_1: u128,
        upward: bool,
    ) -> Result<(Tick, i128), SwapV3Error> {
        if self.fee_growth_outside_0 > fee_growth_global_0 || self.fee_growth_outside_1
            > fee_growth_global_1 || (!upward && self.liquidity_net == i128::MIN) {
            Err(SwapV3Error::Overflow)
        } else {
            Ok(
                (
                    Tick {
                        fee_growth_outside_0: (fee_growth_global_0
                            - self.fee_growth_outside_0) as u128,
                        fee_growth_outside_1: (fee_growth_global_1
                            - self.fee_growth_outside_1) as u128,
                        ..self
                    },
                    if upward {
                        self.liquidity_net
                    } else {
                        (-self.liquidity_net) as i128
                    },
                ),
            )
        }
    }

    /// Records that the price crosses this tick, upward or downward, and
    /// returns the change that the crossing brings to the active
    /// liquidity. Fails with `Overflow` where a snapshot exceeds the global
    /// fee growth or the change does not fit.
    pub fn cross(
        &mut self,
        fee_growth_global_0: u128,
        fee_growth_global_1: u128,
        upward: bool,
    ) -> (r: Result<i128, SwapV3Error>)
        ensures
            match old(self).crossed(fee_growth_global_0, fee_growth_global_1, upward) {
                Ok((tick, delta)) => r == Ok::<i128, SwapV3Error>(delta) && *final(self) == tick,
                Err(e) => r == Err::<i128, SwapV3Error>(e) && *final(self) == *old(self),
            },
    {
        if self.fee_growth_outside_0 > fee_growth_global_0 || self.fee_growth_outside_1
            > fee_growth_global_1 {
            return Err(SwapV3Error::Overflow);
        }
        let delta = if upward {
            self.liquidity_net
        } else {
            if self.liquidity_net == i128::MIN {
                return Err(SwapV3Error::Overflow);
            }
            -self.liquidity_net
        };
        self.fee_growth_outside_0 = fee_growth_global_0 - self.fee_growth_outside_0;
        self.fee_growth_outside_1 = fee_growth_global_1 - self.fee_growth_outside_1;
        Ok(delta)
    }
}

impl Default for Tick {
    /// The record of tick zero without liquidity.
    fn default() -> (r: Tick)
        ensures
            r == Tick::spec_blank(0),
    {
        Tick::blank(0)
    }
}

/// The fee growth inside a range: the global fee growth less the growth
/// below the lower tick and the growth above the upper tick. A tick's
/// snapshot is the growth on the side away from the current tick: below a
/// tick that the current tick has reached, above one that it has not.
/// Nothing where a difference is negative.
pub open spec fn fee_growth_inside(
    global: u128,
    outside_lower: u128,
    outside_upper: u128,
    current_tick: int,
    tick_lower: int,
    tick_upper: int,
) -> Option<u128> {
    let below = if current_tick >= tick_lower {
        outside_lower as int
    } else {
        global - outside_lower
    };
    let above = if current_tick < tick_upper {
        outside_upper as int
    } else {
        global - outside_upper
    };
    if below < 0 || above < 0 || global - below - above < 0 {
        None
    } else {
        Some((global - below - above) as u128)
    }
}

/// Computes the fee growth inside a range from the global fee growth and
/// the snapshots of the two ticks.
pub fn compute_fee_growth_inside(
    global: u128,
    outside_lower: u128,
    outside_upper: u128,
    current_tick: i32,
    tick_lower: i32,
    tick_upper: i32,
) -> (r: Option<u128>)
    ensures
        r == fee_growth_inside(
            global,
            outside_lower,
            outside_upper,
            current_tick as int,
            tick_lower as int,
            tick_upper as int,
        ),
{
    let below = if current_tick >= tick_lower {
        outside_lower
    } else {
        match global.checked_sub(outside_lower) {
            Some(below) => below,
            None => {
                return None;
            },
        }
    };
    let above = if current_tick < tick_upper {
        outside_upper
    } else {
        match global.checked_sub(outside_upper) {
            Some(above) => above,
            None => {
                return None;
            },
        }
    };
    match global.checked_sub(below) {
        Some(rest) => rest.checked_sub(above),
        None => None,
    }
}

/// The fees that liquidity earns while the fee growth inside its range goes
/// from `checkpoint` to `inside`: the growth times the liquidity, as a whole
/// number. Zero for no liquidity; nothing where the growth is negative or
/// the product does not fit.
pub open spec fn fees_earned(liquidity: u128, checkpoint: u128, inside: u128) -> Option<u128> {
    if liquidity == 0 {
        Some(0)
    } else if inside < checkpoint {
        None
    } else {
        mul_div_spec((inside - checkpoint) as nat, liquidity as nat, Q64 as nat)
    }
}

/// Computes the fees that liquidity earns between two states of the fee
/// growth inside its range.
fn compute_fees_earned(liquidity: u128, checkpoint: u128, inside: u128) -> (r: Option<u128>)
    ensures
        r == fees_earned(liquidity, checkpoint, inside),
{
    if liquidity == 0 {
        Some(0)
    } else if inside < checkpoint {
        None
    } else {
        match mul_div(inside - checkpoint, liquidity, Q64) {
            Ok(fees) => Some(fees),
            Err(_) => None,
        }
    }
}

impl Position {
    /// The size of the stored record: the widths of its fields.
    pub const LEN: usize = 32 + 4 + 4 + 16 + 16 + 16 + 16 + 16;

    /// The record of a position without liquidity.
    pub open spec fn spec_empty(owner: Address, tick_lower: i32, tick_upper: i32) -> Position {
        Position {
            owner,
            tick_lower,
            tick_upper,
            liquidity: 0,
            fee_growth_inside_0_last: 0,
            fee_growth_inside_1_last: 0,
            collected_fee0: 0,
            collected_fee1: 0,
        }
    }

    /// The record of a position without liquidity.
    #[verifier::when_used_as_spec(spec_empty)]
    pub fn empty(owner: Address, tick_lower: i32, tick_upper: i32) -> (r: Position)
        ensures
            r == Position::spec_empty(owner, tick_lower, tick_upper),
    {
        Position {
            owner,
            tick_lower,
            tick_upper,
            liquidity: 0,
            fee_growth_inside_0_last: 0,
            fee_growth_inside_1_last: 0,
            collected_fee0: 0,
            collected_fee1: 0,
        }
    }

    /// Whether this is the position of `owner` over the given range.
    pub open spec fn has_key(self, owner: Address, tick_lower: int, tick_upper: int) -> bool {
        self.owner == owner && self.tick_lower == tick_lower && self.tick_upper == tick_upper
    }

    /// The record after the fees earned since the last update are added to
    /// the collected fees, the liquidity changes by `delta`, and the
    /// checkpoints become the current fee growth inside the range.
    pub open spec fn updated(self, inside_0: u128, inside_1: u128, delta: int) -> Result<
        Position,
        SwapV3Error,
    > {
        let earned_0 = fees_earned(self.liquidity, self.fee_growth_inside_0_last, inside_0);
        let earned_1 = fees_earned(self.liquidity, self.fee_growth_inside_1_last, inside_1);
        let liquidity = self.liquidity + delta;
        if earned_0 is None || earned_1 is None || liquidity < 0 || liquidity > u128::MAX
            || self.collected_fee0 + earned_0->0 > u128::MAX || self.collected_fee1 + earned_1->0
            > u128::MAX {
            Err(SwapV3Error::Overflow)
        } else {
            Ok(
                Position {
                    liquidity: liquidity as u128,
                    fee_growth_inside_0_last: inside_0,
                    fee_growth_inside_1_last: inside_1,
                    collected_fee0: (self.collected_fee0 + earned_0->0) as u128,
                    collected_fee1: (self.collected_fee1 + earned_1->0) as u128,
                    ..self
                },
            )
        }
    }

    /// Settles the fees earned since the last update and changes the
    /// liquidity by `delta`. Fails with `Overflow` where the liquidity
    /// would become negative or a sum does not fit.
    pub fn update(&mut self, inside_0: u128, inside_1: u128, delta: i128) -> (r: Result<
        (),
        SwapV3Error,
    >)
        ensures
            match old(self).updated(inside_0, inside_1, delta as int) {
                Ok(position) => r is Ok && *final(self) == position,
                Err(e) => r == Err::<(), SwapV3Error>(e) && *final(self) == *old(self),
            },
    {
        let earned_0 = compute_fees_earned(self.liquidity, self.fee_growth_inside_0_last, inside_0);
        let earned_1 = compute_fees_earned(self.liquidity, self.fee_growth_inside_1_last, inside_1);
        let liquidity = self.liquidity.checked_add_signed(delta);
        match (earned_0, earned_1, liquidity) {
            (Some(earned_0), Some(earned_1), Some(liquidity)) => {
                let fee0 = self.collected_fee0.checked_add(earned_0);
                let fee1 = self.collected_fee1.checked_add(earned_1);
                match (fee0, fee1) {
                    (Some(fee0), Some(fee1)) => {
                        self.liquidity = liquidity;
                        self.fee_growth_inside_0_last = inside_0;
                        self.fee_growth_inside_1_last = inside_1;
                        self.collected_fee0 = fee0;
                        self.collected_fee1 = fee1;
                        Ok(())
                    },
                    _ => Err(SwapV3Error::Overflow),
                }
            },
            _ => Err(SwapV3Error::Overflow),
        }
    }
}

} // verus!
