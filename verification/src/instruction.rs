//! The operations that a caller can ask for, and their encoding: one byte
//! that tells the kind, then the fields in order, each little-endian.

use crate::error::SwapV3Error;
use vstd::prelude::*;

verus! {

/// An operation on a pool.
#[derive(Debug, Clone, Copy, PartialEq, Eq, Structural)]
pub enum SwapV3Instruction {
    /// Sets up the pool at a price.
    InitializePool {
        /// The initial square-root price, a Q64.64 number.
        initial_price: u128,
    },
    /// Adds liquidity to a range.
    AddLiquidity {
        /// The liquidity to add.
        liquidity_amount: u128,
        /// The first tick of the range.
        tick_lower: i32,
        /// The tick behind the last of the range.
        tick_upper: i32,
    },
    /// Swaps the first token for the second.
    Swap {
        /// The input.
        amount_in: u64,
        /// The least output that the caller accepts.
        min_amount_out: u64,
    },
}

/// The number that bytes spell, the first byte counting least.
pub open spec fn le_value(bytes: Seq<u8>) -> nat
    decreases bytes.len(),
{
    if bytes.len() == 0 {
        0
    } else {
        bytes[0] as nat + 256 * le_value(bytes.drop_first())
    }
}

/// The signed number that a 32-bit pattern stands for.
pub open spec fn signed_32(value: nat) -> int {
    if value < 0x8000_0000 {
        value as int
    } else {
        value - 0x1_0000_0000
    }
}

/// 256 to the power `n`.
pub open spec fn radix_power(n: nat) -> nat
    decreases n,
{
    if n == 0 {
        1
    } else {
        256 * radix_power((n - 1) as nat)
    }
}

/// The powers of 256 that bound the fields.
proof fn lemma_radix_powers()
    ensures
        radix_power(4) == 0x1_0000_0000,
        radix_power(8) == 0x1_0000_0000_0000_0000,
        radix_power(16) == 0x1_0000_0000_0000_0000_0000_0000_0000_0000,
{
    reveal_with_fuel(radix_power, 5);
    assert(radix_power(4) == 0x1_0000_0000);
    assert(radix_power(8) == 0x1_0000_0000 * radix_power(4));
    assert(radix_power(12) == 0x1_0000_0000 * radix_power(8));
    assert(radix_power(16) == 0x1_0000_0000 * radix_power(12));
}

/// The powers of 256 rise with the exponent.
proof fn lemma_radix_power_increases(a: nat, b: nat)
    requires
        a <= b,
    ensures
        0 < radix_power(a) <= radix_power(b),
    decreases b,
{
    if a < b {
        lemma_radix_power_increases(a, (b - 1) as nat);
    } else if a > 0 {
        lemma_radix_power_increases((a - 1) as nat, (a - 1) as nat);
    }
}

/// Reads the number that `width` bytes spell from `start` on.
fn read_le(data: &[u8], start: usize, width: usize) -> (value: u128)
    requires
        width <= 16,
        start + width <= data@.len(),
    ensures
        value == le_value(data@.subrange(start as int, start + width)),
        value < radix_power(width as nat),
{
    let mut value: u128 = 0;
    let mut i: usize = width;
    let length = data.len();
    proof {
        lemma_radix_powers();
    }
    while i > 0
        invariant
            i <= width <= 16,
            start + width <= length == data@.len(),
            value == le_value(data@.subrange(start + i, start + width)),
            value < radix_power((width - i) as nat),
            radix_power(16) == 0x1_0000_0000_0000_0000_0000_0000_0000_0000,
        decreases i,
    {
        proof {
            lemma_radix_power_increases((width - i + 1) as nat, 16);
            let rest = data@.subrange(start + i - 1, start + width);
            assert(rest.drop_first() =~= data@.subrange(start + i, start + width));
        }
        i -= 1;
        value = value * 256 + data[start + i] as u128;
    }
    value
}

/// The `width` bytes that spell a number, the first byte counting least.
pub open spec fn le_bytes(value: nat, width: nat) -> Seq<u8>
    decreases width,
{
    if width == 0 {
        Seq::<u8>::empty()
    } else {
        seq![(value % 256) as u8] + le_bytes(value / 256, (width - 1) as nat)
    }
}

/// The 32-bit pattern that stands for a signed number.
pub open spec fn pattern_32(value: i32) -> nat {
    if value >= 0 {
        value as nat
    } else {
        (value + 0x1_0000_0000) as nat
    }
}

/// The bytes that spell a number are as many as asked for, and spell the
/// number where that many can.
proof fn lemma_le_bytes(value: nat, width: nat)
    ensures
        le_bytes(value, width).len() == width,
        value < radix_power(width) ==> le_value(le_bytes(value, width)) == value,
    decreases width,
{
    if width > 0 {
        lemma_le_bytes(value / 256, (width - 1) as nat);
        let bytes = le_bytes(value, width);
        assert(bytes.drop_first() =~= le_bytes(value / 256, (width - 1) as nat));
        assert(bytes[0] == (value % 256) as u8);
    }
}

/// Appends the `width` bytes that spell a number.
fn write_le(out: &mut Vec<u8>, value: u128, width: usize)
    ensures
        final(out)@ == old(out)@ + le_bytes(value as nat, width as nat),
{
    let mut rest = value;
    let mut i: usize = 0;
    assert(out@ + le_bytes(value as nat, width as nat) =~= old(out)@ + le_bytes(
        value as nat,
        width as nat,
    ));
    while i < width
        invariant
            i <= width,
            out@ + le_bytes(rest as nat, (width - i) as nat) == old(out)@ + le_bytes(
                value as nat,
                width as nat,
            ),
        decreases width - i,
    {
        let ghost before = out@;
        out.push((rest % 256) as u8);
        proof {
            let tail = le_bytes((rest / 256) as nat, (width - i - 1) as nat);
            assert(before + le_bytes(rest as nat, (width - i) as nat) =~= out@ + tail);
        }
        rest = rest / 256;
        i += 1;
    }
    assert(out@ + le_bytes(rest as nat, 0) =~= out@);
}

impl SwapV3Instruction {
    /// The operation that bytes encode: a first byte of 0, 1 or 2 for the
    /// kind, then the fields, and nothing behind them.
    pub open spec fn decoded(data: Seq<u8>) -> Result<SwapV3Instruction, SwapV3Error> {
        if data.len() == 17 && data[0] == 0 {
            Ok(
                SwapV3Instruction::InitializePool {
                    initial_price: le_value(data.subrange(1, 17)) as u128,
                },
            )
        } else if data.len() == 25 && data[0] == 1 {
            Ok(
                SwapV3Instruction::AddLiquidity {
                    liquidity_amount: le_value(data.subrange(1, 17)) as u128,
                    tick_lower: signed_32(le_value(data.subrange(17, 21))) as i32,
                    tick_upper: signed_32(le_value(data.subrange(21, 25))) as i32,
                },
            )
        } else if data.len() == 17 && data[0] == 2 {
            Ok(
                SwapV3Instruction::Swap {
                    amount_in: le_value(data.subrange(1, 9)) as u64,
                    min_amount_out: le_value(data.subrange(9, 17)) as u64,
                },
            )
        } else {
            Err(SwapV3Error::InvalidInstruction)
        }
    }

    /// Decodes an operation. Fails with `InvalidInstruction` where the
    /// first byte names no kind or the length is not that of the kind.
    pub fn unpack(data: &[u8]) -> (r: Result<SwapV3Instruction, SwapV3Error>)
        ensures
            r == SwapV3Instruction::decoded(data@),
    {
        if data.len() == 0 {
            return Err(SwapV3Error::InvalidInstruction);
        }
        proof {
            lemma_radix_powers();
        }
        let kind = data[0];
        if kind == 0 && data.len() == 17 {
            Ok(SwapV3Instruction::InitializePool { initial_price: read_le(data, 1, 16) })
        } else if kind == 1 && data.len() == 25 {
            Ok(
                SwapV3Instruction::AddLiquidity {
                    liquidity_amount: read_le(data, 1, 16),
                    tick_lower: read_signed_32(data, 17),
                    tick_upper: read_signed_32(data, 21),
                },
            )
        } else if kind == 2 && data.len() == 17 {
            Ok(
                SwapV3Instruction::Swap {
                    amount_in: read_le(data, 1, 8) as u64,
                    min_amount_out: read_le(data, 9, 8) as u64,
                },
            )
        } else {
            Err(SwapV3Error::InvalidInstruction)
        }
    }

    /// The bytes that encode the operation.
    pub open spec fn encoded(self) -> Seq<u8> {
        match self {
            SwapV3Instruction::InitializePool { initial_price } => seq![0u8] + le_bytes(
                initial_price as nat,
                16,
            ),
            SwapV3Instruction::AddLiquidity { liquidity_amount, tick_lower, tick_upper } => seq![
                1u8,
            ] + le_bytes(liquidity_amount as nat, 16) + le_bytes(pattern_32(tick_lower), 4)
                + le_bytes(pattern_32(tick_upper), 4),
            SwapV3Instruction::Swap { amount_in, min_amount_out } => seq![2u8] + le_bytes(
                amount_in as nat,
                8,
            ) + le_bytes(min_amount_out as nat, 8),
        }
    }

    /// Encodes the operation.
    pub fn pack(&self) -> (r: Vec<u8>)
        ensures
            r@ == self.encoded(),
            SwapV3Instruction::decoded(r@) == Ok::<SwapV3Instruction, SwapV3Error>(*self),
    {
        proof {
            lemma_decoding_inverts_encoding(*self);
        }
        let mut out: Vec<u8> = Vec::new();
        match self {
            SwapV3Instruction::InitializePool { initial_price } => {
                out.push(0);
                assert(out@ =~= seq![0u8]);
                write_le(&mut out, *initial_price, 16);
            },
            SwapV3Instruction::AddLiquidity { liquidity_amount, tick_lower, tick_upper } => {
                out.push(1);
                assert(out@ =~= seq![1u8]);
                write_le(&mut out, *liquidity_amount, 16);
                write_le(&mut out, pattern_of(*tick_lower), 4);
                write_le(&mut out, pattern_of(*tick_upper), 4);
            },
            SwapV3Instruction::Swap { amount_in, min_amount_out } => {
                out.push(2);
                assert(out@ =~= seq![2u8]);
                write_le(&mut out, *amount_in as u128, 8);
                write_le(&mut out, *min_amount_out as u128, 8);
            },
        }
        out
    }
}

/// Reads a signed 32-bit number from `start` on.
fn read_signed_32(data: &[u8], start: usize) -> (value: i32)
    requires
        start + 4 <= data@.len(),
    ensures
        value == signed_32(le_value(data@.subrange(start as int, start + 4))),
{
    proof {
        lemma_radix_powers();
    }
    let pattern = read_le(data, start, 4);
    if pattern < 0x8000_0000 {
        pattern as i32
    } else {
        (pattern as i64 - 0x1_0000_0000) as i32
    }
}

/// The 32-bit pattern of a signed number.
fn pattern_of(value: i32) -> (pattern: u128)
    ensures
        pattern == pattern_32(value),
        pattern < 0x1_0000_0000,
{
    if value >= 0 {
        value as u128
    } else {
        (value as i64 + 0x1_0000_0000) as u128
    }
}

/// Decoding inverts encoding: the bytes that encode an operation decode to
/// that operation.
pub proof fn lemma_decoding_inverts_encoding(instruction: SwapV3Instruction)
    ensures
        SwapV3Instruction::decoded(instruction.encoded()) == Ok::<SwapV3Instruction, SwapV3Error>(
            instruction,
        ),
{
    lemma_radix_powers();
    let data = instruction.encoded();
    match instruction {
        SwapV3Instruction::InitializePool { initial_price } => {
            lemma_le_bytes(initial_price as nat, 16);
            assert(data.subrange(1, 17) =~= le_bytes(initial_price as nat, 16));
        },
        SwapV3Instruction::AddLiquidity { liquidity_amount, tick_lower, tick_upper } => {
            lemma_le_bytes(liquidity_amount as nat, 16);
            lemma_le_bytes(pattern_32(tick_lower), 4);
            lemma_le_bytes(pattern_32(tick_upper), 4);
            assert(data.subrange(1, 17) =~= le_bytes(liquidity_amount as nat, 16));
            assert(data.subrange(17, 21) =~= le_bytes(pattern_32(tick_lower), 4));
            assert(data.subrange(21, 25) =~= le_bytes(pattern_32(tick_upper), 4));
        },
        SwapV3Instruction::Swap { amount_in, min_amount_out } => {
            lemma_le_bytes(amount_in as nat, 8);
            lemma_le_bytes(min_amount_out as nat, 8);
            assert(data.subrange(1, 9) =~= le_bytes(amount_in as nat, 8));
            assert(data.subrange(9, 17) =~= le_bytes(min_amount_out as nat, 8));
        },
    }
}

} // verus!

