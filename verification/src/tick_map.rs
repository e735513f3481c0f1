//! The ticks that positions reference, kept by tick index.

use crate::error::SwapV3Error;
use crate::state::{Pool, Tick};
use vstd::prelude::*;

verus! {

/// The index of the first record of tick `tick` at or behind `start`.
pub open spec fn index_of_from(ticks: Seq<Tick>, tick: int, start: int) -> Option<int>
    decreases ticks.len() - start,
{
    if start < 0 || start >= ticks.len() {
        None
    } else if ticks[start].tick == tick {
        Some(start)
    } else {
        index_of_from(ticks, tick, start + 1)
    }
}

/// The index of the first record of tick `tick`.
pub open spec fn index_of(ticks: Seq<Tick>, tick: int) -> Option<int> {
    index_of_from(ticks, tick, 0)
}

/// What `index_of_from` finds: the first index at or behind `start` whose
/// record is of the tick, or nothing where there is none.
pub proof fn lemma_index_of_from(ticks: Seq<Tick>, tick: int, start: int)
    requires
        0 <= start,
    ensures
        match index_of_from(ticks, tick, start) {
            Some(i) => start <= i < ticks.len() && ticks[i].tick == tick && forall|k: int|
                start <= k < i ==> #[trigger] ticks[k].tick != tick,
            None => forall|k: int| start <= k < ticks.len() ==> #[trigger] ticks[k].tick != tick,
        },
    decreases ticks.len() - start,
{
    if start < ticks.len() && ticks[start].tick != tick {
        lemma_index_of_from(ticks, tick, start + 1);
    }
}

/// The record that a tick gets when the first position references it. Its
/// fee-growth snapshots hold the global fee growth where the current tick
/// has reached the tick, and zero where it has not.
pub open spec fn fresh_tick(pool: Pool, tick: i32) -> Tick {
    Tick {
        tick,
        liquidity_net: 0,
        liquidity_gross: 0,
        fee_growth_outside_0: if tick <= pool.current_tick {
            pool.fee_growth_global_0
        } else {
            0
        },
        fee_growth_outside_1: if tick <= pool.current_tick {
            pool.fee_growth_global_1
        } else {
            0
        },
    }
}

/// The record of a tick, or the fresh record where it has none.
pub open spec fn record_of(ticks: Seq<Tick>, pool: Pool, tick: i32) -> Tick {
    match index_of(ticks, tick as int) {
        Some(i) => ticks[i],
        None => fresh_tick(pool, tick),
    }
}

/// The ticks after a record is stored: it replaces the record of its tick
/// or is added behind the others; a record without gross liquidity is not
/// kept, and the record that it replaces leaves.
pub open spec fn with_record(ticks: Seq<Tick>, record: Tick) -> Seq<Tick> {
    match index_of(ticks, record.tick as int) {
        Some(i) => if record.liquidity_gross == 0 {
            ticks.remove(i)
        } else {
            ticks.update(i, record)
        },
        None => if record.liquidity_gross == 0 {
            ticks
        } else {
            ticks.push(record)
        },
    }
}

/// The ticks after liquidity `delta` is added to a range that starts
/// (`is_lower`) or ends on `tick`.
pub open spec fn with_liquidity(
    ticks: Seq<Tick>,
    pool: Pool,
    tick: i32,
    delta: int,
    is_lower: bool,
) -> Result<Seq<Tick>, SwapV3Error> {
    match record_of(ticks, pool, tick).updated(delta, is_lower) {
        Ok(record) => Ok(with_record(ticks, record)),
        Err(e) => Err(e),
    }
}

/// The ticks after the price crosses `tick`, and the change of the active
/// liquidity that the crossing brings. A tick without a record changes
/// nothing.
pub open spec fn with_crossing(
    ticks: Seq<Tick>,
    tick: int,
    fee_growth_global_0: u128,
    fee_growth_global_1: u128,
    upward: bool,
) -> Result<(Seq<Tick>, i128), SwapV3Error> {
    match index_of(ticks, tick) {
        Some(i) => match ticks[i].crossed(fee_growth_global_0, fee_growth_global_1, upward) {
            Ok((record, delta)) => Ok((ticks.update(i, record), delta)),
            Err(e) => Err(e),
        },
        None => Ok((ticks, 0i128)),
    }
}

/// The greatest tick among the first `count` records that lies above
/// `floor` and does not exceed `bound`.
pub open spec fn greatest_in(ticks: Seq<Tick>, floor: int, bound: int, count: int) -> Option<i32>
    decreases count,
{
    if count <= 0 || count > ticks.len() {
        None
    } else {
        let rest = greatest_in(ticks, floor, bound, count - 1);
        let tick = ticks[count - 1].tick;
        if floor < tick <= bound && (rest is None || rest->0 < tick) {
            Some(tick)
        } else {
            rest
        }
    }
}

/// The least tick among the first `count` records that lies above `floor`
/// and does not exceed `bound`.
pub open spec fn least_in(ticks: Seq<Tick>, floor: int, bound: int, count: int) -> Option<i32>
    decreases count,
{
    if count <= 0 || count > ticks.len() {
        None
    } else {
        let rest = least_in(ticks, floor, bound, count - 1);
        let tick = ticks[count - 1].tick;
        if floor < tick <= bound && (rest is None || tick < rest->0) {
            Some(tick)
        } else {
            rest
        }
    }
}

/// What `greatest_in` finds: a tick of one of the records, above `floor`
/// and not above `bound`, that none of the others in that range exceeds;
/// nothing where no record lies in the range.
pub proof fn lemma_greatest_in(ticks: Seq<Tick>, floor: int, bound: int, count: int)
    requires
        0 <= count <= ticks.len(),
    ensures
        match greatest_in(ticks, floor, bound, count) {
            Some(tick) => floor < tick <= bound && (exists|i: int|
                0 <= i < count && #[trigger] ticks[i].tick == tick) && forall|k: int|
                0 <= k < count && floor < #[trigger] ticks[k].tick <= bound ==> ticks[k].tick
                    <= tick,
            None => forall|k: int|
                0 <= k < count ==> !(floor < #[trigger] ticks[k].tick <= bound),
        },
    decreases count,
{
    if count > 0 {
        lemma_greatest_in(ticks, floor, bound, count - 1);
        let rest = greatest_in(ticks, floor, bound, count - 1);
        let tick = ticks[count - 1].tick;
        if floor < tick <= bound && (rest is None || rest->0 < tick) {
            assert(ticks[count - 1].tick == tick);
        } else if rest is Some {
            let i = choose|i: int| 0 <= i < count - 1 && #[trigger] ticks[i].tick == rest->0;
            assert(0 <= i < count && ticks[i].tick == rest->0);
        }
    }
}

/// What `least_in` finds: a tick of one of the records, above `floor` and
/// not above `bound`, that none of the others in that range is below;
/// nothing where no record lies in the range.
pub proof fn lemma_least_in(ticks: Seq<Tick>, floor: int, bound: int, count: int)
    requires
        0 <= count <= ticks.len(),
    ensures
        match least_in(ticks, floor, bound, count) {
            Some(tick) => floor < tick <= bound && (exists|i: int|
                0 <= i < count && #[trigger] ticks[i].tick == tick) && forall|k: int|
                0 <= k < count && floor < #[trigger] ticks[k].tick <= bound ==> tick
                    <= ticks[k].tick,
            None => forall|k: int|
                0 <= k < count ==> !(floor < #[trigger] ticks[k].tick <= bound),
        },
    decreases count,
{
    if count > 0 {
        lemma_least_in(ticks, floor, bound, count - 1);
        let rest = least_in(ticks, floor, bound, count - 1);
        let tick = ticks[count - 1].tick;
        if floor < tick <= bound && (rest is None || tick < rest->0) {
            assert(ticks[count - 1].tick == tick);
        } else if rest is Some {
            let i = choose|i: int| 0 <= i < count - 1 && #[trigger] ticks[i].tick == rest->0;
            assert(0 <= i < count && ticks[i].tick == rest->0);
        }
    }
}

/// The ticks that positions reference, one record for each.
#[derive(Debug)]
pub struct TickMap {
    /// The records, in the order in which the ticks were first referenced.
    pub ticks: Vec<Tick>,
}

impl View for TickMap {
    type V = Seq<Tick>;

    open spec fn view(&self) -> Seq<Tick> {
        self.ticks@
    }
}

impl TickMap {
    /// A map without ticks.
    pub fn new() -> (r: TickMap)
        ensures
            r@ == Seq::<Tick>::empty(),
    {
        TickMap { ticks: Vec::new() }
    }

    /// A copy of the map.
    pub fn duplicate(&self) -> (r: TickMap)
        ensures
            r@ == self@,
    {
        let mut ticks: Vec<Tick> = Vec::new();
        let mut i: usize = 0;
        while i < self.ticks.len()
            invariant
                i <= self.ticks.len(),
                ticks@ == self.ticks@.subrange(0, i as int),
            decreases self.ticks.len() - i,
        {
            ticks.push(self.ticks[i]);
            assert(self.ticks@.subrange(0, i + 1) == self.ticks@.subrange(0, i as int).push(
                self.ticks@[i as int],
            ));
            i += 1;
        }
        assert(self.ticks@.subrange(0, i as int) == self.ticks@);
        TickMap { ticks }
    }

    /// The index of the record of a tick.
    pub fn find(&self, tick: i32) -> (r: Option<usize>)
        ensures
            match r {
                Some(i) => index_of(self@, tick as int) == Some(i as int) && i < self@.len(),
                None => index_of(self@, tick as int) is None,
            },
    {
        let mut i: usize = 0;
        while i < self.ticks.len()
            invariant
                i <= self.ticks.len(),
                index_of(self@, tick as int) == index_of_from(self@, tick as int, i as int),
            decreases self.ticks.len() - i,
        {
            if self.ticks[i].tick == tick {
                return Some(i);
            }
            i += 1;
        }
        None
    }

    /// The record of a tick, or the record that it would get from the
    /// first position that references it.
    pub fn record(&self, pool: &Pool, tick: i32) -> (r: Tick)
        ensures
            r == record_of(self@, *pool, tick),
    {
        match self.find(tick) {
            Some(i) => self.ticks[i],
            None => Tick {
                tick,
                liquidity_net: 0,
                liquidity_gross: 0,
                fee_growth_outside_0: if tick <= pool.current_tick {
                    pool.fee_growth_global_0
                } else {
                    0
                },
                fee_growth_outside_1: if tick <= pool.current_tick {
                    pool.fee_growth_global_1
                } else {
                    0
                },
            },
        }
    }

    /// Stores a record in place of the record of its tick. A record
    /// without gross liquidity is dropped from the map.
    pub fn store(&mut self, record: Tick)
        ensures
            final(self)@ == with_record(old(self)@, record),
    {
        match self.find(record.tick) {
            Some(i) => {
                if record.liquidity_gross == 0 {
                    self.ticks.remove(i);
                } else {
                    self.ticks[i] = record;
                }
            },
            None => {
                if record.liquidity_gross != 0 {
                    self.ticks.push(record);
                }
            },
        }
    }

    /// Adds liquidity `delta` (negative to remove) to a range that starts
    /// (`is_lower`) or ends on `tick`. A tick that no position referenced
    /// gets a record, and one that none references any more loses it.
    /// Fails with `InvalidTick` where the tick is out of bounds or more
    /// would be removed than references it, with `Overflow` where a sum
    /// does not fit; the map is then unchanged.
    pub fn update_liquidity(&mut self, pool: &Pool, tick: i32, delta: i128, is_lower: bool) -> (r:
        Result<(), SwapV3Error>)
        ensures
            match with_liquidity(old(self)@, *pool, tick, delta as int, is_lower) {
                Ok(ticks) => r is Ok && final(self)@ == ticks,
                Err(e) => r == Err::<(), SwapV3Error>(e) && final(self)@ == old(self)@,
            },
    {
        let mut record = self.record(pool, tick);
        match record.update_liquidity(delta, is_lower) {
            Ok(()) => {
                self.store(record);
                Ok(())
            },
            Err(e) => Err(e),
        }
    }

    /// Records that the price crosses `tick`, upward or downward, and
    /// returns the change that the crossing brings to the active
    /// liquidity: the tick's net liquidity on the way up, its negation on
    /// the way down, zero for a tick without a record. Fails with
    /// `Overflow` where a snapshot exceeds the global fee growth or the
    /// change does not fit; the map is then unchanged.
    pub fn cross_tick(
        &mut self,
        tick: i32,
        fee_growth_global_0: u128,
        fee_growth_global_1: u128,
        upward: bool,
    ) -> (r: Result<i128, SwapV3Error>)
        ensures
            match with_crossing(
                old(self)@,
                tick as int,
                fee_growth_global_0,
                fee_growth_global_1,
                upward,
            ) {
                Ok((ticks, delta)) => r == Ok::<i128, SwapV3Error>(delta) && final(self)@ == ticks,
                Err(e) => r == Err::<i128, SwapV3Error>(e) && final(self)@ == old(self)@,
            },
    {
        match self.find(tick) {
            Some(i) => {
                let mut record = self.ticks[i];
                match record.cross(fee_growth_global_0, fee_growth_global_1, upward) {
                    Ok(delta) => {
                        self.ticks[i] = record;
                        Ok(delta)
                    },
                    Err(e) => Err(e),
                }
            },
            None => Ok(0),
        }
    }

    /// The greatest tick with a record that lies above `floor` and does not
    /// exceed `bound`.
    pub fn greatest_between(&self, floor: i32, bound: i32) -> (r: Option<i32>)
        ensures
            r == greatest_in(self@, floor as int, bound as int, self@.len() as int),
    {
        let mut best: Option<i32> = None;
        let mut i: usize = 0;
        while i < self.ticks.len()
            invariant
                i <= self.ticks.len(),
                best == greatest_in(self@, floor as int, bound as int, i as int),
            decreases self.ticks.len() - i,
        {
            let tick = self.ticks[i].tick;
            if floor < tick && tick <= bound {
                match best {
                    Some(found) => {
                        if found < tick {
                            best = Some(tick);
                        }
                    },
                    None => {
                        best = Some(tick);
                    },
                }
            }
            i += 1;
        }
        best
    }

    /// The least tick with a record that lies above `floor` and does not
    /// exceed `bound`.
    pub fn least_between(&self, floor: i32, bound: i32) -> (r: Option<i32>)
        ensures
            r == least_in(self@, floor as int, bound as int, self@.len() as int),
    {
        let mut best: Option<i32> = None;
        let mut i: usize = 0;
        while i < self.ticks.len()
            invariant
                i <= self.ticks.len(),
                best == least_in(self@, floor as int, bound as int, i as int),
            decreases self.ticks.len() - i,
        {
            let tick = self.ticks[i].tick;
            if floor < tick && tick <= bound {
                match best {
                    Some(found) => {
                        if tick < found {
                            best = Some(tick);
                        }
                    },
                    None => {
                        best = Some(tick);
                    },
                }
            }
            i += 1;
        }
        best
    }
}

} // verus!
