//! A single leveraged position and its risk computations: PnL revaluation
//! against a mark price, the liquidation predicate, and initial margin.

use vstd::prelude::*;
use vstd::arithmetic::div_mod::lemma_fundamental_div_mod;
use crate::decimal::{div_away, div_trunc, lemma_div_away_bound, lemma_div_away_exact,
    lemma_div_away_sign, lemma_div_trunc_exact, mul_div_away, mul_div_trunc, Decimal, SCALE};

verus! {

/// Direction of a position: exposure gains when the price rises (`Long`)
/// or when it falls (`Short`).
#[derive(Clone, Copy, PartialEq, Eq, Structural, Debug)]
pub enum PositionSide {
    Long,
    Short,
}

/// Why a position could not be constructed.
#[derive(Clone, Copy, PartialEq, Eq, Structural, Debug)]
pub enum RiskError {
    /// `leverage == 0` was supplied; the margin formula divides by leverage.
    InvalidLeverage,
    /// A negative `size` was supplied; direction is carried by the side,
    /// never by the sign of the size.
    NegativeSize,
}

/// Largest magnitude, in `Decimal` units, accepted for a price or a size:
/// `10^12` whole at six fractional digits. The bound keeps every product of
/// a price difference and a size inside the `i128` range.
pub const MAX_UNITS: i128 = 1_000_000_000_000_000_000;

/// Largest magnitude, in `Decimal` units, that a revalued PnL can reach:
/// `2 * MAX_UNITS * MAX_UNITS / SCALE`.
pub const MAX_PNL_UNITS: i128 = 2_000_000_000_000_000_000_000_000_000_000;

/// Price movement in favour of the position, in units: `mark - entry` for a
/// long position, `entry - mark` for a short one.
pub open spec fn price_diff(side: PositionSide, entry: int, mark: int) -> int {
    match side {
        PositionSide::Long => mark - entry,
        PositionSide::Short => entry - mark,
    }
}

/// Unrealized PnL, in units, of a position revalued at `mark`: the price
/// difference times the size, rounded away from zero to the fixed scale,
/// so that a strictly profitable (or losing) position never revalues to a
/// PnL of zero.
pub open spec fn pnl_units(side: PositionSide, entry: int, size: int, mark: int) -> int {
    div_away(price_diff(side, entry, mark) * size, SCALE as int)
}

/// The liquidation predicate: the mark price has crossed the liquidation
/// price on the losing side, boundary included.
pub open spec fn liquidates(side: PositionSide, liquidation: int, mark: int) -> bool {
    match side {
        PositionSide::Long => mark <= liquidation,
        PositionSide::Short => mark >= liquidation,
    }
}

/// Initial margin, in units: `entry * size / leverage`, truncated to the
/// fixed scale.
pub open spec fn margin_units(entry: int, size: int, leverage: int) -> int {
    div_trunc(entry * size, SCALE * leverage)
}

/// A user's directional exposure in one symbol.
#[derive(Clone, Debug)]
pub struct Position {
    pub symbol: String,
    pub side: PositionSide,
    /// Always non-negative: direction is carried by `side`, not by sign.
    pub size: Decimal,
    pub entry_price: Decimal,
    /// At least 1; enforced at construction, relied on by `initial_margin`.
    pub leverage: u8,
    /// Derived at open time by the (external) risk policy.
    pub liquidation_price: Decimal,
    /// Overwritten by each revaluation; never accumulated.
    pub unrealized_pnl: Decimal,
}

impl Position {
    /// The construction-time invariant: a non-negative bounded size, bounded
    /// prices, leverage at least 1, and a PnL the revaluation bound admits.
    pub open spec fn wf(self) -> bool {
        &&& 0 <= self.size@ <= MAX_UNITS
        &&& -MAX_UNITS <= self.entry_price@ <= MAX_UNITS
        &&& -MAX_UNITS <= self.liquidation_price@ <= MAX_UNITS
        &&& 1 <= self.leverage
        &&& -MAX_PNL_UNITS <= self.unrealized_pnl@ <= MAX_PNL_UNITS
    }

    /// This position with its `unrealized_pnl` overwritten by a revaluation
    /// at `mark`; every other field kept.
    pub open spec fn revalued(self, mark: int) -> Position {
        Position {
            unrealized_pnl: Decimal {
                units: pnl_units(self.side, self.entry_price@, self.size@, mark) as i128,
            },
            ..self
        }
    }

    /// Construct a position, rejecting the invalid states the data model
    /// rules out: zero leverage and negative size.
    pub fn open_position(
        symbol: String,
        side: PositionSide,
        size: Decimal,
        entry_price: Decimal,
        leverage: u8,
        liquidation_price: Decimal,
    ) -> (r: Result<Position, RiskError>)
        requires
            -MAX_UNITS <= size@ <= MAX_UNITS,
            -MAX_UNITS <= entry_price@ <= MAX_UNITS,
            -MAX_UNITS <= liquidation_price@ <= MAX_UNITS,
        ensures
            r is Ok <==> (leverage >= 1 && size@ >= 0),
            leverage == 0 ==> r == Err::<Position, RiskError>(RiskError::InvalidLeverage),
            leverage >= 1 && size@ < 0 ==> r == Err::<Position, RiskError>(RiskError::NegativeSize),
            r matches Ok(p) ==> {
                &&& p.symbol@ == symbol@
                &&& p.side == side
                &&& p.size == size
                &&& p.entry_price == entry_price
                &&& p.leverage == leverage
                &&& p.liquidation_price == liquidation_price
                &&& p.unrealized_pnl@ == 0
                &&& p.wf()
            },
    {
        if leverage == 0 {
            return Err(RiskError::InvalidLeverage);
        }
        if size.units() < 0 {
            return Err(RiskError::NegativeSize);
        }
        Ok(Position {
            symbol,
            side,
            size,
            entry_price,
            leverage,
            liquidation_price,
            unrealized_pnl: Decimal::zero(),
        })
    }

    /// Revalue the position at `mark_price`: overwrite `unrealized_pnl` with
    /// `price_diff * size` and return it. Repeated calls with the same mark
    /// price store the same value; nothing accumulates. The stored PnL is
    /// strictly positive exactly when the position is profitable at
    /// `mark_price`, and strictly negative exactly when it is losing.
    pub fn calculate_pnl(&mut self, mark_price: Decimal) -> (pnl: Decimal)
        requires
            old(self).wf(),
            -MAX_UNITS <= mark_price@ <= MAX_UNITS,
        ensures
            *final(self) == old(self).revalued(mark_price@),
            pnl == final(self).unrealized_pnl,
            pnl@ > 0 <==> (price_diff(old(self).side, old(self).entry_price@, mark_price@) > 0
                && old(self).size@ > 0),
            pnl@ < 0 <==> (price_diff(old(self).side, old(self).entry_price@, mark_price@) < 0
                && old(self).size@ > 0),
            final(self).wf(),
    {
        let diff: i128 = match self.side {
            PositionSide::Long => mark_price.units - self.entry_price.units,
            PositionSide::Short => self.entry_price.units - mark_price.units,
        };
        proof {
            assert(diff * self.size@ <= 2 * MAX_UNITS * MAX_UNITS && -(2 * MAX_UNITS * MAX_UNITS)
                <= diff * self.size@) by (nonlinear_arith)
                requires
                    -2 * MAX_UNITS <= diff <= 2 * MAX_UNITS,
                    0 <= self.size@ <= MAX_UNITS,
                    MAX_UNITS == 1_000_000_000_000_000_000,
            ;
            lemma_div_away_bound(diff * self.size@, SCALE as int, 2 * MAX_UNITS * MAX_UNITS);
            lemma_pnl_sign(self.side, self.entry_price@, self.size@, mark_price@);
        }
        let p: i128 = mul_div_away(diff, self.size.units, SCALE);
        self.unrealized_pnl = Decimal { units: p };
        self.unrealized_pnl
    }

    /// Whether the position must be liquidated at `mark_price`: the mark has
    /// reached or crossed the liquidation price. Reads `liquidation_price`
    /// alone, never the stored PnL, so it is correct whether or not
    /// `calculate_pnl` ran for the current tick.
    pub fn should_liquidate(&self, mark_price: Decimal) -> (r: bool)
        ensures
            r == liquidates(self.side, self.liquidation_price@, mark_price@),
    {
        match self.side {
            PositionSide::Long => mark_price.units <= self.liquidation_price.units,
            PositionSide::Short => mark_price.units >= self.liquidation_price.units,
        }
    }

    /// Collateral required to open this position: `entry_price * size /
    /// leverage`. A pure function of the static fields; the construction
    /// invariant keeps `leverage >= 1`, so the division is defined.
    pub fn initial_margin(&self) -> (m: Decimal)
        requires
            self.wf(),
        ensures
            m@ == margin_units(self.entry_price@, self.size@, self.leverage as int),
    {
        proof {
            assert(self.entry_price@ * self.size@ <= MAX_UNITS * MAX_UNITS && -(MAX_UNITS
                * MAX_UNITS) <= self.entry_price@ * self.size@) by (nonlinear_arith)
                requires
                    -MAX_UNITS <= self.entry_price@ <= MAX_UNITS,
                    0 <= self.size@ <= MAX_UNITS,
            ;
        }
        let divisor: i128 = SCALE * (self.leverage as i128);
        Decimal { units: mul_div_trunc(self.entry_price.units, self.size.units, divisor) }
    }
}

/// At a mark price equal to the entry price, revaluation yields zero PnL,
/// whatever the side and the size.
pub proof fn lemma_pnl_zero_at_entry(side: PositionSide, entry: int, size: int)
    ensures
        pnl_units(side, entry, size, entry) == 0,
{
    assert(price_diff(side, entry, entry) == 0);
    assert(0 * size == 0) by (nonlinear_arith);
    lemma_div_away_sign(0, SCALE as int);
}

/// A position of size zero revalues to zero PnL at every mark price.
pub proof fn lemma_zero_size_zero_pnl(side: PositionSide, entry: int, mark: int)
    ensures
        pnl_units(side, entry, 0, mark) == 0,
{
    assert(price_diff(side, entry, mark) * 0 == 0) by (nonlinear_arith);
    lemma_div_away_sign(0, SCALE as int);
}

/// Revaluation is idempotent: revaluing an already revalued position at the
/// same mark price leaves it unchanged, because the stored PnL is a function
/// of the fields revaluation never touches.
pub proof fn lemma_revalue_idempotent(p: Position, mark: int)
    ensures
        p.revalued(mark).revalued(mark) == p.revalued(mark),
{
}

/// Even where the divisibility proviso of
/// `lemma_margin_halves_when_leverage_doubles` fails, doubling the leverage
/// halves the margin up to the fixed-point truncation: the margin at the
/// doubled leverage is the truncated half of the margin at the original one.
pub proof fn lemma_margin_at_double_leverage(entry: int, size: int, leverage: int)
    requires
        1 <= leverage,
    ensures
        margin_units(entry, size, 2 * leverage) == div_trunc(
            margin_units(entry, size, leverage),
            2,
        ),
{
    let m = SCALE * leverage;
    assert(SCALE * (2 * leverage) == 2 * m) by (nonlinear_arith)
        requires
            m == SCALE * leverage,
    ;
    crate::decimal::lemma_div_trunc_halves(entry * size, m);
}

/// The sign of the PnL is exactly the sign of the favourable price
/// movement: a revalued position shows a strictly positive PnL precisely
/// when it is profitable at the mark price, and a strictly negative PnL
/// precisely when it is losing. Rounding away from zero never collapses a
/// sub-unit profit or loss to zero.
pub proof fn lemma_pnl_sign(side: PositionSide, entry: int, size: int, mark: int)
    requires
        size >= 0,
    ensures
        pnl_units(side, entry, size, mark) > 0 <==> (price_diff(side, entry, mark) > 0 && size
            > 0),
        pnl_units(side, entry, size, mark) < 0 <==> (price_diff(side, entry, mark) < 0 && size
            > 0),
{
    let d = price_diff(side, entry, mark);
    assert((d * size > 0 <==> (d > 0 && size > 0)) && (d * size < 0 <==> (d < 0 && size > 0)))
        by (nonlinear_arith)
        requires
            size >= 0,
    ;
    lemma_div_away_sign(d * size, SCALE as int);
}

/// Where the product of price difference and size is representable at the
/// fixed scale, the stored PnL is exact: `pnl * SCALE` recovers the product
/// and no rounding occurs.
pub proof fn lemma_pnl_exact_when_representable(
    side: PositionSide,
    entry: int,
    size: int,
    mark: int,
)
    requires
        (price_diff(side, entry, mark) * size) % (SCALE as int) == 0,
    ensures
        pnl_units(side, entry, size, mark) * SCALE == price_diff(side, entry, mark) * size,
{
    let p = price_diff(side, entry, mark) * size;
    let k = p / (SCALE as int);
    lemma_fundamental_div_mod(p, SCALE as int);
    lemma_div_away_exact(k, SCALE as int);
    assert(k * SCALE == SCALE * k) by (nonlinear_arith);
}

/// Where the product of entry price and size divides exactly by the scaled
/// leverage, the margin is exact: `margin * SCALE * leverage` recovers the
/// product and no rounding occurs.
pub proof fn lemma_margin_exact_when_representable(entry: int, size: int, leverage: int)
    requires
        1 <= leverage,
        (entry * size) % (SCALE * leverage) == 0,
    ensures
        margin_units(entry, size, leverage) * (SCALE * leverage) == entry * size,
{
    let m = SCALE * leverage;
    assert(m >= SCALE) by (nonlinear_arith)
        requires
            1 <= leverage,
            SCALE == 1_000_000,
            m == SCALE * leverage,
    ;
    let p = entry * size;
    let k = p / m;
    lemma_fundamental_div_mod(p, m);
    lemma_div_trunc_exact(k, m);
    assert(k * m == m * k) by (nonlinear_arith);
}

/// Initial margin scales inversely with leverage: where the margin divides
/// exactly, doubling the leverage halves the margin.
pub proof fn lemma_margin_halves_when_leverage_doubles(entry: int, size: int, leverage: int)
    requires
        1 <= leverage,
        (entry * size) % (2 * SCALE * leverage) == 0,
    ensures
        2 * margin_units(entry, size, 2 * leverage) == margin_units(entry, size, leverage),
{
    let p = entry * size;
    let m = SCALE * leverage;
    let k = p / (2 * m);
    vstd::arithmetic::div_mod::lemma_fundamental_div_mod(p, 2 * m);
    assert(2 * SCALE * leverage == 2 * m) by (nonlinear_arith)
        requires
            m == SCALE * leverage,
    ;
    assert(p == (2 * m) * k);
    lemma_div_trunc_exact(k, 2 * m);
    assert(margin_units(entry, size, 2 * leverage) == div_trunc(p, SCALE * (2 * leverage)));
    assert(SCALE * (2 * leverage) == 2 * m) by (nonlinear_arith)
        requires
            m == SCALE * leverage,
    ;
    assert((2 * m) * k == m * (2 * k)) by (nonlinear_arith);
    lemma_div_trunc_exact(2 * k, m);
}

} // verus!
