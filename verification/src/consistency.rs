//! What holds of a market between operations: the current tick is the tick
//! of the price, the ticks carry exactly the liquidity of the positions
//! that start or end on them, the net liquidity of all ticks sums to zero,
//! and the active liquidity is that of the positions whose range holds the
//! current tick.

use crate::instruction::SwapV3Instruction;
use crate::market::{
    lemma_initialized_pool_holds_price, lemma_position_index_from, position_index, position_of,
    with_position, MarketState,
};
use crate::processor::Accounts;
use crate::state::{is_valid_range, range_holds, Address, Pool, Position, Tick};
use crate::swap::{
    lemma_swap_step, lemma_swap_step_holds_price, step_target, swap_run, swap_step, ticks_ahead,
    SwapState,
};
use crate::tick_map::{
    index_of, lemma_greatest_in, lemma_index_of_from, lemma_least_in, record_of, with_record,
};
use crate::utils::TICK_LIMIT;
use vstd::prelude::*;

verus! {

/// The sum of a function over the items of a sequence.
pub open spec fn total<T>(items: Seq<T>, share: spec_fn(T) -> int) -> int
    decreases items.len(),
{
    if items.len() == 0 {
        0
    } else {
        total(items.drop_last(), share) + share(items.last())
    }
}

/// An item added behind the others adds its share to the sum.
proof fn lemma_total_push<T>(items: Seq<T>, item: T, share: spec_fn(T) -> int)
    ensures
        total(items.push(item), share) == total(items, share) + share(item),
{
    assert(items.push(item).drop_last() =~= items);
}

/// An item put in place of another changes the sum by the difference of
/// their shares.
proof fn lemma_total_update<T>(items: Seq<T>, i: int, item: T, share: spec_fn(T) -> int)
    requires
        0 <= i < items.len(),
    ensures
        total(items.update(i, item), share) == total(items, share) - share(items[i]) + share(item),
    decreases items.len(),
{
    if i == items.len() - 1 {
        assert(items.update(i, item).drop_last() =~= items.drop_last());
    } else {
        assert(items.update(i, item).drop_last() =~= items.drop_last().update(i, item));
        lemma_total_update(items.drop_last(), i, item, share);
    }
}

/// An item taken out takes its share from the sum.
proof fn lemma_total_remove<T>(items: Seq<T>, i: int, share: spec_fn(T) -> int)
    requires
        0 <= i < items.len(),
    ensures
        total(items.remove(i), share) == total(items, share) - share(items[i]),
    decreases items.len(),
{
    if i == items.len() - 1 {
        assert(items.remove(i) =~= items.drop_last());
    } else {
        assert(items.remove(i).drop_last() =~= items.drop_last().remove(i));
        assert(items.remove(i).last() == items.last());
        lemma_total_remove(items.drop_last(), i, share);
    }
}

/// Where one function is bounded by another on every item, so are the
/// sums.
proof fn lemma_total_bounded<T>(
    items: Seq<T>,
    share: spec_fn(T) -> int,
    bound: spec_fn(T) -> int,
)
    requires
        forall|i: int|
            0 <= i < items.len() ==> -bound(items[i]) <= #[trigger] share(items[i]) <= bound(
                items[i],
            ),
    ensures
        -total(items, bound) <= total(items, share) <= total(items, bound),
    decreases items.len(),
{
    if items.len() > 0 {
        assert forall|i: int| 0 <= i < items.drop_last().len() implies -bound(
            items.drop_last()[i],
        ) <= #[trigger] share(items.drop_last()[i]) <= bound(items.drop_last()[i]) by {
            assert(items.drop_last()[i] == items[i]);
        }
        lemma_total_bounded(items.drop_last(), share, bound);
        assert(items.last() == items[items.len() - 1]);
    }
}

/// What a position adds to the net liquidity of a tick: its liquidity at
/// the tick where its range starts, the negation at the tick where it ends.
pub open spec fn net_share(position: Position, tick: int) -> int {
    (if position.tick_lower == tick {
        position.liquidity as int
    } else {
        0
    }) - (if position.tick_upper == tick {
        position.liquidity as int
    } else {
        0
    })
}

/// What a position adds to the gross liquidity of a tick: its liquidity at
/// either end of its range.
pub open spec fn gross_share(position: Position, tick: int) -> int {
    (if position.tick_lower == tick {
        position.liquidity as int
    } else {
        0
    }) + (if position.tick_upper == tick {
        position.liquidity as int
    } else {
        0
    })
}

/// What a position adds to the liquidity that is active at a tick: its
/// liquidity where its range holds the tick.
pub open spec fn active_share(position: Position, tick: int) -> int {
    if range_holds(position.tick_lower as int, position.tick_upper as int, tick) {
        position.liquidity as int
    } else {
        0
    }
}

/// `net_share` at a tick, as a function of the position.
pub open spec fn net_share_at(tick: int) -> spec_fn(Position) -> int {
    |position: Position| net_share(position, tick)
}

/// `gross_share` at a tick, as a function of the position.
pub open spec fn gross_share_at(tick: int) -> spec_fn(Position) -> int {
    |position: Position| gross_share(position, tick)
}

/// `active_share` at a tick, as a function of the position.
pub open spec fn active_share_at(tick: int) -> spec_fn(Position) -> int {
    |position: Position| active_share(position, tick)
}

/// The net liquidity of a record, as a function of the record.
pub open spec fn net_of_tick() -> spec_fn(Tick) -> int {
    |tick: Tick| tick.liquidity_net as int
}

/// The net liquidity that the positions give a tick.
pub open spec fn net_at(positions: Seq<Position>, tick: int) -> int {
    total(positions, net_share_at(tick))
}

/// The gross liquidity that the positions give a tick.
pub open spec fn gross_at(positions: Seq<Position>, tick: int) -> int {
    total(positions, gross_share_at(tick))
}

/// The liquidity of the positions whose range holds a tick.
pub open spec fn active_at(positions: Seq<Position>, tick: int) -> int {
    total(positions, active_share_at(tick))
}

/// The sum of the net liquidity over all the ticks that have a record.
pub open spec fn total_net(ticks: Seq<Tick>) -> int {
    total(ticks, net_of_tick())
}

/// The net liquidity on record for a tick, zero where it has no record.
pub open spec fn net_of(ticks: Seq<Tick>, tick: int) -> int {
    match index_of(ticks, tick) {
        Some(i) => ticks[i].liquidity_net as int,
        None => 0,
    }
}

/// The gross liquidity on record for a tick, zero where it has no record.
pub open spec fn gross_of(ticks: Seq<Tick>, tick: int) -> int {
    match index_of(ticks, tick) {
        Some(i) => ticks[i].liquidity_gross as int,
        None => 0,
    }
}

/// No tick has two records, and every record has gross liquidity.
pub open spec fn ticks_distinct(ticks: Seq<Tick>) -> bool {
    &&& forall|i: int, j: int|
        0 <= i < j < ticks.len() ==> (#[trigger] ticks[i]).tick != (#[trigger] ticks[j]).tick
    &&& forall|i: int| 0 <= i < ticks.len() ==> (#[trigger] ticks[i]).liquidity_gross > 0
}

impl MarketState {
    /// The invariant of a market:
    /// - the current tick is the tick of the price;
    /// - no tick has two records, and every record has gross liquidity;
    /// - every tick has on record the net and the gross liquidity that the
    ///   positions give it;
    /// - the net liquidity of all records sums to zero;
    /// - the active liquidity is that of the positions whose range holds
    ///   the current tick;
    /// - every position has a range that the pool admits.
    pub open spec fn consistent(self) -> bool {
        &&& self.pool.holds_price()
        &&& ticks_distinct(self.ticks)
        &&& forall|tick: int|
            #![trigger net_at(self.positions, tick)]
            #![trigger gross_at(self.positions, tick)]
            net_of(self.ticks, tick) == net_at(self.positions, tick) && gross_of(self.ticks, tick)
                == gross_at(self.positions, tick)
        &&& total_net(self.ticks) == 0
        &&& self.pool.active_liquidity == active_at(self.positions, self.pool.current_tick as int)
        &&& forall|k: int|
            0 <= k < self.positions.len() ==> is_valid_range(
                (#[trigger] self.positions[k]).tick_lower as int,
                self.positions[k].tick_upper as int,
                self.pool.tick_spacing as int,
            )
    }
}

/// Under distinct ticks the record of a tick is found at its index.
proof fn lemma_index_of_distinct(ticks: Seq<Tick>, i: int)
    requires
        ticks_distinct(ticks),
        0 <= i < ticks.len(),
    ensures
        index_of(ticks, ticks[i].tick as int) == Some(i),
{
    lemma_index_of_from(ticks, ticks[i].tick as int, 0);
}

/// Storing a record changes what is on record for its tick and for no
/// other, keeps the ticks distinct, and moves the sum of the net liquidity
/// by the difference.
proof fn lemma_with_record(ticks: Seq<Tick>, record: Tick)
    requires
        ticks_distinct(ticks),
    ensures
        ticks_distinct(with_record(ticks, record)),
        forall|tick: int|
            #![trigger net_of(with_record(ticks, record), tick)]
            #![trigger gross_of(with_record(ticks, record), tick)]
            net_of(with_record(ticks, record), tick) == (if tick == record.tick {
                if record.liquidity_gross == 0 {
                    0
                } else {
                    record.liquidity_net as int
                }
            } else {
                net_of(ticks, tick)
            }) && gross_of(with_record(ticks, record), tick) == (if tick == record.tick {
                record.liquidity_gross as int
            } else {
                gross_of(ticks, tick)
            }),
        total_net(with_record(ticks, record)) == total_net(ticks) - net_of(
            ticks,
            record.tick as int,
        ) + (if record.liquidity_gross == 0 {
            0
        } else {
            record.liquidity_net as int
        }),
{
    let after = with_record(ticks, record);
    lemma_index_of_from(ticks, record.tick as int, 0);
    match index_of(ticks, record.tick as int) {
        Some(i) => {
            if record.liquidity_gross == 0 {
                assert(after == ticks.remove(i));
                lemma_total_remove(ticks, i, net_of_tick());
                assert forall|a: int, b: int| 0 <= a < b < after.len() implies (
                #[trigger] after[a]).tick != (#[trigger] after[b]).tick by {
                    let a0 = if a < i { a } else { a + 1 };
                    let b0 = if b < i { b } else { b + 1 };
                    assert(after[a] == ticks[a0] && after[b] == ticks[b0]);
                }
                assert forall|a: int| 0 <= a < after.len() implies (
                #[trigger] after[a]).liquidity_gross > 0 by {
                    let a0 = if a < i { a } else { a + 1 };
                    assert(after[a] == ticks[a0]);
                }
                assert forall|tick: int|
                    #![trigger net_of(after, tick)]
                    #![trigger gross_of(after, tick)]
                    net_of(after, tick) == (if tick == record.tick {
                        0
                    } else {
                        net_of(ticks, tick)
                    }) && gross_of(after, tick) == (if tick == record.tick {
                        0
                    } else {
                        gross_of(ticks, tick)
                    }) by {
                    lemma_index_of_from(ticks, tick, 0);
                    lemma_index_of_from(after, tick, 0);
                    match index_of(after, tick) {
                        Some(a) => {
                            let a0 = if a < i { a } else { a + 1 };
                            assert(after[a] == ticks[a0]);
                            lemma_index_of_distinct(ticks, a0);
                        },
                        None => {
                            match index_of(ticks, tick) {
                                Some(b) => {
                                    if b != i {
                                        let b1 = if b < i { b } else { b - 1 };
                                        assert(after[b1] == ticks[b]);
                                    }
                                },
                                None => {},
                            }
                        },
                    }
                }
            } else {
                assert(after == ticks.update(i, record));
                lemma_total_update(ticks, i, record, net_of_tick());
                assert forall|a: int, b: int| 0 <= a < b < after.len() implies (
                #[trigger] after[a]).tick != (#[trigger] after[b]).tick by {
                    assert(after[a].tick == ticks[a].tick && after[b].tick == ticks[b].tick);
                }
                assert forall|tick: int|
                    #![trigger net_of(after, tick)]
                    #![trigger gross_of(after, tick)]
                    net_of(after, tick) == (if tick == record.tick {
                        record.liquidity_net as int
                    } else {
                        net_of(ticks, tick)
                    }) && gross_of(after, tick) == (if tick == record.tick {
                        record.liquidity_gross as int
                    } else {
                        gross_of(ticks, tick)
                    }) by {
                    lemma_index_of_from(ticks, tick, 0);
                    lemma_index_of_from(after, tick, 0);
                    match index_of(after, tick) {
                        Some(a) => {
                            assert(after[a].tick == ticks[a].tick);
                            lemma_index_of_distinct(ticks, a);
                        },
                        None => {
                            match index_of(ticks, tick) {
                                Some(b) => {
                                    assert(after[b].tick == ticks[b].tick);
                                },
                                None => {},
                            }
                        },
                    }
                }
            }
        },
        None => {
            if record.liquidity_gross != 0 {
                assert(after == ticks.push(record));
                lemma_total_push(ticks, record, net_of_tick());
                assert forall|a: int, b: int| 0 <= a < b < after.len() implies (
                #[trigger] after[a]).tick != (#[trigger] after[b]).tick by {
                    assert(after[a] == ticks[a]);
                    if b < ticks.len() {
                        assert(after[b] == ticks[b]);
                    }
                }
                assert forall|tick: int|
                    #![trigger net_of(after, tick)]
                    #![trigger gross_of(after, tick)]
                    net_of(after, tick) == (if tick == record.tick {
                        record.liquidity_net as int
                    } else {
                        net_of(ticks, tick)
                    }) && gross_of(after, tick) == (if tick == record.tick {
                        record.liquidity_gross as int
                    } else {
                        gross_of(ticks, tick)
                    }) by {
                    lemma_index_of_from(ticks, tick, 0);
                    lemma_index_of_from(after, tick, 0);
                    match index_of(after, tick) {
                        Some(a) => {
                            if a < ticks.len() {
                                assert(after[a] == ticks[a]);
                                lemma_index_of_distinct(ticks, a);
                            }
                        },
                        None => {
                            assert(after[ticks.len() as int] == record);
                            match index_of(ticks, tick) {
                                Some(b) => {
                                    assert(after[b] == ticks[b]);
                                },
                                None => {},
                            }
                        },
                    }
                }
            }
        },
    }
}

/// The net liquidity that positions give a tick is within the gross
/// liquidity that they give it.
pub proof fn lemma_net_within_gross(positions: Seq<Position>, tick: int)
    ensures
        -gross_at(positions, tick) <= net_at(positions, tick) <= gross_at(positions, tick),
{
    lemma_total_bounded(positions, net_share_at(tick), gross_share_at(tick));
}

/// Storing a position moves a sum over the positions by the difference
/// between its share and that of the position it replaces.
proof fn lemma_with_position(
    positions: Seq<Position>,
    position: Position,
    share: spec_fn(Position) -> int,
)
    ensures
        total(with_position(positions, position), share) == total(positions, share) + share(
            position,
        ) - (match position_index(
            positions,
            position.owner,
            position.tick_lower as int,
            position.tick_upper as int,
        ) {
            Some(i) => share(positions[i]),
            None => 0,
        }),
{
    lemma_position_index_from(
        positions,
        position.owner,
        position.tick_lower as int,
        position.tick_upper as int,
        0,
    );
    match position_index(
        positions,
        position.owner,
        position.tick_lower as int,
        position.tick_upper as int,
    ) {
        Some(i) => {
            lemma_total_update(positions, i, position, share);
        },
        None => {
            lemma_total_push(positions, position, share);
        },
    }
}

/// A market without ticks and positions is consistent where its pool has
/// no active liquidity and its current tick is the tick of its price.
pub proof fn lemma_empty_market_is_consistent(pool: Pool)
    requires
        pool.active_liquidity == 0,
        pool.holds_price(),
    ensures
        (MarketState {
            pool,
            ticks: Seq::<Tick>::empty(),
            positions: Seq::<Position>::empty(),
        }).consistent(),
{
    let ticks = Seq::<Tick>::empty();
    assert forall|tick: int| net_of(ticks, tick) == 0 && gross_of(ticks, tick) == 0 by {
        lemma_index_of_from(ticks, tick, 0);
    }
}

/// A change of a position's liquidity keeps a consistent market
/// consistent: afterwards the net liquidity of all ticks still sums to
/// zero, every tick carries the liquidity of the positions on it, and the
/// active liquidity is that of the positions around the current tick.
pub proof fn lemma_position_update_keeps_consistent(
    market: MarketState,
    owner: Address,
    tick_lower: i32,
    tick_upper: i32,
    delta: int,
)
    requires
        market.consistent(),
        market.with_position_update(owner, tick_lower, tick_upper, delta) is Ok,
    ensures
        market.with_position_update(owner, tick_lower, tick_upper, delta)->Ok_0.consistent(),
        total_net(market.with_position_update(owner, tick_lower, tick_upper, delta)->Ok_0.ticks)
            == 0,
{
    let after = market.with_position_update(owner, tick_lower, tick_upper, delta)->Ok_0;
    let pool = market.pool;
    let ticks = market.ticks;
    let positions = market.positions;
    let inside = crate::market::fee_growth_inside_range(pool, ticks, tick_lower, tick_upper);
    let before = position_of(positions, owner, tick_lower, tick_upper);
    let position = before.updated(inside.0->0, inside.1->0, delta)->Ok_0;
    lemma_position_index_from(positions, owner, tick_lower as int, tick_upper as int, 0);
    assert(before.tick_lower == tick_lower && before.tick_upper == tick_upper && before.owner
        == owner);
    assert(position.liquidity == before.liquidity + delta);
    assert(after.positions == with_position(positions, position));
    assert(is_valid_range(tick_lower as int, tick_upper as int, pool.tick_spacing as int));
    assert forall|k: int| 0 <= k < after.positions.len() implies is_valid_range(
        (#[trigger] after.positions[k]).tick_lower as int,
        after.positions[k].tick_upper as int,
        after.pool.tick_spacing as int,
    ) by {
        if k < positions.len() && after.positions[k] != position {
            assert(after.positions[k] == positions[k]);
        }
    }

    // What the positions give each tick afterwards.
    assert forall|tick: int|
        #![trigger net_at(after.positions, tick)]
        #![trigger gross_at(after.positions, tick)]
        net_at(after.positions, tick) == net_at(positions, tick) + (if tick == tick_lower {
            delta
        } else {
            0
        }) - (if tick == tick_upper {
            delta
        } else {
            0
        }) && gross_at(after.positions, tick) == gross_at(positions, tick) + (if tick
            == tick_lower {
            delta
        } else {
            0
        }) + (if tick == tick_upper {
            delta
        } else {
            0
        }) by {
        lemma_with_position(positions, position, net_share_at(tick));
        lemma_with_position(positions, position, gross_share_at(tick));
    }
    assert(active_at(after.positions, pool.current_tick as int) == active_at(
        positions,
        pool.current_tick as int,
    ) + (if range_holds(tick_lower as int, tick_upper as int, pool.current_tick as int) {
        delta
    } else {
        0
    })) by {
        lemma_with_position(positions, position, active_share_at(pool.current_tick as int));
    }

    // The lower tick.
    lemma_index_of_from(ticks, tick_lower as int, 0);
    let lower_before = record_of(ticks, pool, tick_lower);
    let lower = lower_before.updated(delta, true)->Ok_0;
    let with_lower = with_record(ticks, lower);
    assert(lower_before.liquidity_net == net_of(ticks, tick_lower as int));
    assert(lower_before.liquidity_gross == gross_of(ticks, tick_lower as int));
    assert(net_of(ticks, tick_lower as int) == net_at(positions, tick_lower as int));
    assert(gross_of(ticks, tick_lower as int) == gross_at(positions, tick_lower as int));
    lemma_net_within_gross(after.positions, tick_lower as int);
    lemma_with_record(ticks, lower);
    assert(total_net(with_lower) == delta);

    // The upper tick.
    lemma_index_of_from(with_lower, tick_upper as int, 0);
    let upper_before = record_of(with_lower, pool, tick_upper);
    let upper = upper_before.updated(delta, false)->Ok_0;
    let with_both = with_record(with_lower, upper);
    assert(upper_before.liquidity_net == net_of(with_lower, tick_upper as int));
    assert(upper_before.liquidity_gross == gross_of(with_lower, tick_upper as int));
    assert(net_of(ticks, tick_upper as int) == net_at(positions, tick_upper as int));
    assert(gross_of(ticks, tick_upper as int) == gross_at(positions, tick_upper as int));
    lemma_net_within_gross(after.positions, tick_upper as int);
    lemma_with_record(with_lower, upper);
    assert(after.ticks == with_both);
    assert(total_net(with_both) == 0);

    assert forall|tick: int|
        #![trigger net_at(after.positions, tick)]
        #![trigger gross_at(after.positions, tick)]
        net_of(with_both, tick) == net_at(after.positions, tick) && gross_of(with_both, tick)
            == gross_at(after.positions, tick) by {
        assert(net_of(ticks, tick) == net_at(positions, tick));
        assert(gross_of(ticks, tick) == gross_at(positions, tick));
        let a = net_of(with_lower, tick);
        let b = gross_of(with_lower, tick);
        let c = net_of(with_both, tick);
        let d = gross_of(with_both, tick);
    }
}

/// Where two functions agree on every item but for a third, their sums
/// differ by the sum of the third.
proof fn lemma_total_difference<T>(
    items: Seq<T>,
    first: spec_fn(T) -> int,
    second: spec_fn(T) -> int,
    third: spec_fn(T) -> int,
)
    requires
        forall|i: int|
            0 <= i < items.len() ==> #[trigger] first(items[i]) == second(items[i]) + third(
                items[i],
            ),
    ensures
        total(items, first) == total(items, second) + total(items, third),
    decreases items.len(),
{
    if items.len() > 0 {
        assert forall|i: int| 0 <= i < items.drop_last().len() implies #[trigger] first(
            items.drop_last()[i],
        ) == second(items.drop_last()[i]) + third(items.drop_last()[i]) by {
            assert(items.drop_last()[i] == items[i]);
        }
        lemma_total_difference(items.drop_last(), first, second, third);
        assert(items.last() == items[items.len() - 1]);
    }
}

/// In a consistent market every position with liquidity starts and ends
/// on a tick that has a record.
proof fn lemma_ends_have_records(market: MarketState, k: int)
    requires
        market.consistent(),
        0 <= k < market.positions.len(),
        market.positions[k].liquidity > 0,
    ensures
        index_of(market.ticks, market.positions[k].tick_lower as int) is Some,
        index_of(market.ticks, market.positions[k].tick_upper as int) is Some,
{
    let position = market.positions[k];
    let lower = position.tick_lower as int;
    let upper = position.tick_upper as int;
    let zero = |p: Position| 0int;
    assert forall|i: int| 0 <= i < market.positions.len() implies -gross_share_at(lower)(
        market.positions[i],
    ) <= #[trigger] zero(market.positions[i]) <= gross_share_at(lower)(market.positions[i]) by {}
    assert forall|i: int| 0 <= i < market.positions.len() implies -gross_share_at(upper)(
        market.positions[i],
    ) <= #[trigger] zero(market.positions[i]) <= gross_share_at(upper)(market.positions[i]) by {}
    // the gross liquidity of a tick is at least what one position gives it
    let emptied = Position { liquidity: 0, ..position };
    let without = market.positions.update(k, emptied);
    lemma_total_update(market.positions, k, emptied, gross_share_at(lower));
    lemma_total_update(market.positions, k, emptied, gross_share_at(upper));
    assert forall|i: int| 0 <= i < without.len() implies -gross_share_at(lower)(without[i])
        <= #[trigger] zero(without[i]) <= gross_share_at(lower)(without[i]) by {}
    assert forall|i: int| 0 <= i < without.len() implies -gross_share_at(upper)(without[i])
        <= #[trigger] zero(without[i]) <= gross_share_at(upper)(without[i]) by {}
    lemma_total_bounded(without, zero, gross_share_at(lower));
    lemma_total_bounded(without, zero, gross_share_at(upper));
    lemma_total_zero(without);
    assert(gross_at(market.positions, lower) > 0);
    assert(gross_at(market.positions, upper) > 0);
    assert(gross_of(market.ticks, lower) > 0);
    assert(gross_of(market.ticks, upper) > 0);
}

/// The sum of nothing over any items is nothing.
proof fn lemma_total_zero<T>(items: Seq<T>)
    ensures
        total(items, |item: T| 0int) == 0,
    decreases items.len(),
{
    if items.len() > 0 {
        lemma_total_zero(items.drop_last());
    }
}

/// No tick with a record lies above `low` and at or below `high`.
pub open spec fn no_record_between(ticks: Seq<Tick>, low: int, high: int) -> bool {
    forall|i: int| 0 <= i < ticks.len() ==> !(low < (#[trigger] ticks[i]).tick <= high)
}

/// Between two ticks with no record in between, the same liquidity is
/// active.
pub proof fn lemma_active_between_records(market: MarketState, low: int, high: int)
    requires
        market.consistent(),
        low <= high,
        no_record_between(market.ticks, low, high),
    ensures
        active_at(market.positions, low) == active_at(market.positions, high),
{
    let positions = market.positions;
    let zero = |p: Position| 0int;
    assert forall|k: int| 0 <= k < positions.len() implies #[trigger] active_share_at(low)(
        positions[k],
    ) == active_share_at(high)(positions[k]) + zero(positions[k]) by {
        if positions[k].liquidity > 0 {
            lemma_ends_have_records(market, k);
            lemma_index_of_from(market.ticks, positions[k].tick_lower as int, 0);
            lemma_index_of_from(market.ticks, positions[k].tick_upper as int, 0);
        }
    }
    lemma_total_difference(positions, active_share_at(low), active_share_at(high), zero);
    lemma_total_zero(positions);
}

/// Across a tick the active liquidity changes by the net liquidity of the
/// tick: where no other record lies between `below` and `above`, the
/// liquidity active at `tick` is that active just below it plus the net
/// liquidity of the tick.
pub proof fn lemma_active_across_record(market: MarketState, below: int, tick: int, above: int)
    requires
        market.consistent(),
        below < tick <= above,
        no_record_between(market.ticks, below, tick - 1),
        no_record_between(market.ticks, tick, above),
    ensures
        active_at(market.positions, above) == active_at(market.positions, below) + net_at(
            market.positions,
            tick,
        ),
{
    let positions = market.positions;
    assert forall|k: int| 0 <= k < positions.len() implies #[trigger] active_share_at(above)(
        positions[k],
    ) == active_share_at(below)(positions[k]) + net_share_at(tick)(positions[k]) by {
        if positions[k].liquidity > 0 {
            lemma_ends_have_records(market, k);
            lemma_index_of_from(market.ticks, positions[k].tick_lower as int, 0);
            lemma_index_of_from(market.ticks, positions[k].tick_upper as int, 0);
        }
    }
    lemma_total_difference(
        positions,
        active_share_at(above),
        active_share_at(below),
        net_share_at(tick),
    );
}

/// A step of a swap keeps a consistent market consistent.
proof fn lemma_swap_step_keeps_consistent(
    state: SwapState,
    ticks: Seq<Tick>,
    positions: Seq<Position>,
    zero_for_one: bool,
    limit: u128,
)
    requires
        (MarketState { pool: state.pool, ticks, positions }).consistent(),
        swap_step(state, ticks, zero_for_one, limit) is Ok,
    ensures
        ({
            let (next, next_ticks, _) = swap_step(state, ticks, zero_for_one, limit)->Ok_0;
            (MarketState { pool: next.pool, ticks: next_ticks, positions }).consistent()
        }),
{
    let market = MarketState { pool: state.pool, ticks, positions };
    let current = state.pool.current_tick as int;
    let (target, initialized) = step_target(ticks, current, zero_for_one);
    let (next, next_ticks, crossed) = swap_step(state, ticks, zero_for_one, limit)->Ok_0;
    let after = MarketState { pool: next.pool, ticks: next_ticks, positions };
    lemma_swap_step(state, ticks, zero_for_one, limit);
    lemma_swap_step_holds_price(state, ticks, zero_for_one, limit);
    lemma_greatest_in(ticks, -TICK_LIMIT as int, current, ticks.len() as int);
    lemma_least_in(ticks, current, TICK_LIMIT as int, ticks.len() as int);
    let resting = next.pool.current_tick as int;
    if crossed {
        lemma_index_of_from(ticks, target as int, 0);
        let i = index_of(ticks, target as int)->0;
        lemma_total_update(ticks, i, next_ticks[i], net_of_tick());
        assert forall|a: int, b: int| 0 <= a < b < next_ticks.len() implies (
        #[trigger] next_ticks[a]).tick != (#[trigger] next_ticks[b]).tick by {
            assert(next_ticks[a].tick == ticks[a].tick && next_ticks[b].tick == ticks[b].tick);
        }
        assert forall|a: int| 0 <= a < next_ticks.len() implies (
        #[trigger] next_ticks[a]).liquidity_gross > 0 by {
            assert(next_ticks[a].liquidity_gross == ticks[a].liquidity_gross);
        }
        assert forall|tick: int|
            #![trigger net_at(positions, tick)]
            #![trigger gross_at(positions, tick)]
            net_of(next_ticks, tick) == net_at(positions, tick) && gross_of(next_ticks, tick)
                == gross_at(positions, tick) by {
            assert(net_of(ticks, tick) == net_at(positions, tick));
            assert(gross_of(ticks, tick) == gross_at(positions, tick));
            lemma_index_of_from(ticks, tick, 0);
            lemma_index_of_from(next_ticks, tick, 0);
            match index_of(next_ticks, tick) {
                Some(a) => {
                    assert(next_ticks[a].tick == ticks[a].tick);
                    lemma_index_of_distinct(ticks, a);
                },
                None => {
                    match index_of(ticks, tick) {
                        Some(b) => {
                            assert(next_ticks[b].tick == ticks[b].tick);
                        },
                        None => {},
                    }
                },
            }
        }
        assert(net_of(ticks, target as int) == net_at(positions, target as int));
        if zero_for_one {
            lemma_active_across_record(market, target - 1, target as int, current);
        } else {
            lemma_active_across_record(market, current, target as int, target as int);
        }
    } else {
        assert(next_ticks == ticks);
        if zero_for_one {
            lemma_active_between_records(market, resting, current);
        } else {
            lemma_active_between_records(market, current, resting);
        }
    }
}

/// The steps of a swap keep a consistent market consistent.
proof fn lemma_swap_run_keeps_consistent(
    state: SwapState,
    ticks: Seq<Tick>,
    positions: Seq<Position>,
    zero_for_one: bool,
    limit: u128,
)
    requires
        (MarketState { pool: state.pool, ticks, positions }).consistent(),
        swap_run(state, ticks, zero_for_one, limit) is Ok,
    ensures
        ({
            let (end, end_ticks) = swap_run(state, ticks, zero_for_one, limit)->Ok_0;
            (MarketState { pool: end.pool, ticks: end_ticks, positions }).consistent()
        }),
    decreases ticks_ahead(state.pool.current_tick as int, zero_for_one),
{
    if !(state.amount_remaining == 0 || crate::swap::limit_reached(
        state.pool.sqrt_price_x64,
        limit,
        zero_for_one,
    )) {
        lemma_swap_step(state, ticks, zero_for_one, limit);
        lemma_swap_step_keeps_consistent(state, ticks, positions, zero_for_one, limit);
        let (next, next_ticks, crossed) = swap_step(state, ticks, zero_for_one, limit)->Ok_0;
        if crossed {
            lemma_swap_run_keeps_consistent(next, next_ticks, positions, zero_for_one, limit);
        }
    }
}

/// A swap keeps a consistent market consistent: afterwards the active
/// liquidity is still that of the positions around the current tick, and
/// the net liquidity of all ticks still sums to zero.
pub proof fn lemma_swap_keeps_consistent(
    market: MarketState,
    amount_in: u64,
    min_amount_out: u64,
    zero_for_one: bool,
    sqrt_price_limit: u128,
)
    requires
        market.consistent(),
        market.with_swap(amount_in, min_amount_out, zero_for_one, sqrt_price_limit) is Ok,
    ensures
        ({
            let after = market.with_swap(
                amount_in,
                min_amount_out,
                zero_for_one,
                sqrt_price_limit,
            )->Ok_0.0;
            after.consistent() && after.positions == market.positions
        }),
{
    lemma_swap_run_keeps_consistent(
        SwapState { pool: market.pool, amount_remaining: amount_in as u128, amount_out: 0 },
        market.ticks,
        market.positions,
        zero_for_one,
        sqrt_price_limit,
    );
}

/// Every operation keeps a consistent market consistent. A pool that is
/// set up starts consistent, so after any sequence of operations the
/// current tick is the tick of the price, the net liquidity of all ticks
/// sums to zero, and the active liquidity is that of the positions whose
/// range holds the current tick.
pub proof fn lemma_instruction_keeps_consistent(
    market: MarketState,
    accounts: Accounts,
    instruction: SwapV3Instruction,
)
    requires
        market.with_instruction(accounts, instruction) is Ok,
        market.consistent() || instruction is InitializePool,
    ensures
        market.with_instruction(accounts, instruction)->Ok_0.consistent(),
        total_net(market.with_instruction(accounts, instruction)->Ok_0.ticks) == 0,
        market.with_instruction(accounts, instruction)->Ok_0.pool.active_liquidity == active_at(
            market.with_instruction(accounts, instruction)->Ok_0.positions,
            market.with_instruction(accounts, instruction)->Ok_0.pool.current_tick as int,
        ),
{
    match instruction {
        SwapV3Instruction::InitializePool { initial_price } => {
            lemma_initialized_pool_holds_price(
                accounts.token_0_mint,
                accounts.token_1_mint,
                crate::processor::DEFAULT_FEE,
                crate::processor::DEFAULT_TICK_SPACING,
                initial_price,
            );
            lemma_empty_market_is_consistent(
                market.with_instruction(accounts, instruction)->Ok_0.pool,
            );
        },
        SwapV3Instruction::AddLiquidity { liquidity_amount, tick_lower, tick_upper } => {
            lemma_position_update_keeps_consistent(
                market,
                accounts.owner,
                tick_lower,
                tick_upper,
                liquidity_amount as int,
            );
        },
        SwapV3Instruction::Swap { amount_in, min_amount_out } => {
            lemma_swap_keeps_consistent(market, amount_in, min_amount_out, true, 0);
        },
    }
}

} // verus!
