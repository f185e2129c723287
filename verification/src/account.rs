//! The account aggregate: one user's collateral and positions, and the fold
//! of a price update over them — revaluing every position in the updated
//! symbol, removing the ones whose liquidation price has been crossed, and
//! reporting each removal as a `LiquidationEvent`.

use vstd::prelude::*;
use crate::decimal::Decimal;
use crate::events::{LiquidationEvent, PriceUpdate};
use crate::position::{liquidates, Position, MAX_PNL_UNITS, MAX_UNITS};

verus! {

/// Largest number of positions an account may hold; keeps the PnL fold
/// inside the `i128` range.
pub const MAX_POSITIONS: usize = 10_000_000;

/// What one position contributes to the position set after a price update:
/// itself if the symbol differs, nothing if it is liquidated, its revalued
/// self otherwise.
pub open spec fn one_survivor(p: Position, mark: int, symbol: Seq<char>) -> Seq<Position> {
    if p.symbol@ != symbol {
        seq![p]
    } else if liquidates(p.side, p.liquidation_price@, mark) {
        seq![]
    } else {
        seq![p.revalued(mark)]
    }
}

/// The position set left by a price update at `mark` for `symbol`, with
/// the positions' order kept.
pub open spec fn surviving(ps: Seq<Position>, mark: int, symbol: Seq<char>) -> Seq<Position>
    decreases ps.len(),
{
    if ps.len() == 0 {
        Seq::empty()
    } else {
        surviving(ps.drop_last(), mark, symbol) + one_survivor(ps.last(), mark, symbol)
    }
}

/// The record of one position's liquidation at the mark price `mark`:
/// `actual_price` is the applied mark price and `loss` is the position's
/// PnL at that instant.
pub open spec fn liquidation_record(user_id: u64, p: Position, mark: Decimal, ts: u64)
    -> LiquidationEvent {
    LiquidationEvent {
        user_id,
        symbol: p.symbol,
        side: p.side,
        size: p.size,
        entry_price: p.entry_price,
        liquidation_price: p.liquidation_price,
        actual_price: mark,
        loss: p.revalued(mark@).unrealized_pnl,
        timestamp: ts,
    }
}

/// What one position contributes to the emitted events: its liquidation
/// record if the update's symbol matches and the threshold has been crossed.
pub open spec fn one_liquidation(
    user_id: u64,
    p: Position,
    mark: Decimal,
    symbol: Seq<char>,
    ts: u64,
) -> Seq<LiquidationEvent> {
    if p.symbol@ == symbol && liquidates(p.side, p.liquidation_price@, mark@) {
        seq![liquidation_record(user_id, p, mark, ts)]
    } else {
        seq![]
    }
}

/// The liquidation events emitted by a price update, in position order.
pub open spec fn liquidations(
    user_id: u64,
    ps: Seq<Position>,
    mark: Decimal,
    symbol: Seq<char>,
    ts: u64,
) -> Seq<LiquidationEvent>
    decreases ps.len(),
{
    if ps.len() == 0 {
        Seq::empty()
    } else {
        liquidations(user_id, ps.drop_last(), mark, symbol, ts) + one_liquidation(
            user_id,
            ps.last(),
            mark,
            symbol,
            ts,
        )
    }
}

/// The fold of per-position PnL: the sum, in units, of the stored
/// `unrealized_pnl` of every position.
pub open spec fn pnl_sum(ps: Seq<Position>) -> int
    decreases ps.len(),
{
    if ps.len() == 0 {
        0
    } else {
        pnl_sum(ps.drop_last()) + ps.last().unrealized_pnl@
    }
}

/// One user's collateral and open positions. The account exclusively owns
/// its positions; `margin_ratio` is written by the external risk policy.
#[derive(Clone, Debug)]
pub struct Account {
    pub user_id: u64,
    pub collateral: Decimal,
    /// Aggregate across positions; maintained by `apply_price_update`.
    pub unrealized_pnl: Decimal,
    pub margin_ratio: Decimal,
    pub positions: Vec<Position>,
}

impl Account {
    /// The account invariant: a bounded position set of well-formed
    /// positions.
    pub open spec fn wf(self) -> bool {
        &&& self.positions@.len() <= MAX_POSITIONS
        &&& forall|i: int|
            0 <= i < self.positions@.len() ==> (#[trigger] self.positions@[i]).wf()
    }

    /// Apply one mark-price update: revalue every position in the update's
    /// symbol, remove each whose liquidation threshold the mark price has
    /// reached, return their liquidation records in position order, and
    /// refresh the aggregate `unrealized_pnl` as the sum over the remaining
    /// positions. Positions in other symbols, the collateral and the margin
    /// ratio are untouched.
    pub fn apply_price_update(&mut self, update: &PriceUpdate) -> (events: Vec<LiquidationEvent>)
        requires
            old(self).wf(),
            -MAX_UNITS <= update.mark_price@ <= MAX_UNITS,
        ensures
            final(self).positions@ == surviving(
                old(self).positions@,
                update.mark_price@,
                update.symbol@,
            ),
            events@ == liquidations(
                old(self).user_id,
                old(self).positions@,
                update.mark_price,
                update.symbol@,
                update.timestamp,
            ),
            final(self).unrealized_pnl@ == pnl_sum(final(self).positions@),
            final(self).user_id == old(self).user_id,
            final(self).collateral == old(self).collateral,
            final(self).margin_ratio == old(self).margin_ratio,
            final(self).wf(),
    {
        let mut pending: Vec<Position> = Vec::new();
        core::mem::swap(&mut pending, &mut self.positions);
        let ghost orig: Seq<Position> = pending@;
        let mut kept: Vec<Position> = Vec::new();
        let mut events: Vec<LiquidationEvent> = Vec::new();
        let ghost mut k: int = 0;
        while pending.len() > 0
            invariant
                old(self).wf(),
                -MAX_UNITS <= update.mark_price@ <= MAX_UNITS,
                orig == old(self).positions@,
                0 <= k <= orig.len(),
                pending@ == orig.skip(k),
                kept@ == surviving(orig.take(k), update.mark_price@, update.symbol@),
                events@ == liquidations(
                    old(self).user_id,
                    orig.take(k),
                    update.mark_price,
                    update.symbol@,
                    update.timestamp,
                ),
                kept@.len() <= k,
                forall|i: int| 0 <= i < kept@.len() ==> (#[trigger] kept@[i]).wf(),
                self.user_id == old(self).user_id,
                self.collateral == old(self).collateral,
                self.margin_ratio == old(self).margin_ratio,
            decreases pending.len(),
        {
            let mut p = pending.remove(0);
            proof {
                assert(p == orig[k]);
                assert(pending@ =~= orig.skip(k + 1));
                assert(orig.take(k + 1).drop_last() =~= orig.take(k));
                assert(orig.take(k + 1).last() == orig[k]);
            }
            let ghost p0 = p;
            let ghost kept0 = kept@;
            let ghost events0 = events@;
            if p.symbol == update.symbol {
                let _ = p.calculate_pnl(update.mark_price);
                if p.should_liquidate(update.mark_price) {
                    events.push(
                        LiquidationEvent {
                            user_id: self.user_id,
                            symbol: p.symbol,
                            side: p.side,
                            size: p.size,
                            entry_price: p.entry_price,
                            liquidation_price: p.liquidation_price,
                            actual_price: update.mark_price,
                            loss: p.unrealized_pnl,
                            timestamp: update.timestamp,
                        },
                    );
                    proof {
                        assert(events@ =~= events0 + one_liquidation(
                            old(self).user_id,
                            p0,
                            update.mark_price,
                            update.symbol@,
                            update.timestamp,
                        ));
                        assert(kept@ =~= kept0 + one_survivor(
                            p0,
                            update.mark_price@,
                            update.symbol@,
                        ));
                    }
                } else {
                    kept.push(p);
                    proof {
                        assert(kept@ =~= kept0 + one_survivor(
                            p0,
                            update.mark_price@,
                            update.symbol@,
                        ));
                        assert(events@ =~= events0 + one_liquidation(
                            old(self).user_id,
                            p0,
                            update.mark_price,
                            update.symbol@,
                            update.timestamp,
                        ));
                    }
                }
            } else {
                kept.push(p);
                proof {
                    assert(kept@ =~= kept0 + one_survivor(p0, update.mark_price@, update.symbol@));
                    assert(events@ =~= events0 + one_liquidation(
                        old(self).user_id,
                        p0,
                        update.mark_price,
                        update.symbol@,
                        update.timestamp,
                    ));
                }
            }
            proof {
                k = k + 1;
            }
        }
        proof {
            assert(k == orig.len());
            assert(orig.take(k) =~= orig);
        }
        let mut total: i128 = 0;
        let mut idx: usize = 0;
        while idx < kept.len()
            invariant
                0 <= idx <= kept@.len(),
                kept@.len() <= MAX_POSITIONS,
                forall|i: int| 0 <= i < kept@.len() ==> (#[trigger] kept@[i]).wf(),
                total == pnl_sum(kept@.take(idx as int)),
                -(idx * MAX_PNL_UNITS) <= total <= idx * MAX_PNL_UNITS,
            decreases kept@.len() - idx,
        {
            let u: i128 = kept[idx].unrealized_pnl.units;
            proof {
                assert(kept@.take(idx + 1).drop_last() =~= kept@.take(idx as int));
                assert(kept@.take(idx + 1).last() == kept@[idx as int]);
            }
            total = total + u;
            idx = idx + 1;
        }
        proof {
            assert(kept@.take(kept@.len() as int) =~= kept@);
        }
        self.positions = kept;
        self.unrealized_pnl = Decimal { units: total };
        events
    }
}

} // verus!
