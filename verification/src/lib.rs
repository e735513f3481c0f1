//! The accounting engine of a concentrated-liquidity market maker.
//!
//! A pool trades two tokens at a price that moves along discrete ticks.
//! Owners place liquidity over ranges of ticks; a swap moves the price from
//! tick to tick and pays a fee to the liquidity in range.
//!
//! - `utils`: the price of a tick, the tick of a price, and a
//!   multiply-divide over a wide product.
//! - `wide`: the big integers behind the wide arithmetic.
//! - `state`: the records of a pool, a tick and a position.
//! - `tick_map`: the ticks that positions reference.
//! - `market`: a pool with its ticks and positions, and changes of
//!   liquidity.
//! - `swap`: the swap.
//! - `consistency`: what holds of a market between operations.
//! - `instruction`, `processor`: encoded operations and their dispatch.
//! - `error`: the errors.

pub mod consistency;
pub mod error;
pub mod instruction;
pub mod market;
pub mod processor;
pub mod state;
pub mod swap;
pub mod tick_map;
pub mod utils;
pub mod wide;
