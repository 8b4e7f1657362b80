//! Core value types shared across the engine.
//!
//! Prices on Gate are whole tick counts (`Ticks`), so quote arithmetic
//! is exact. Sizes are whole contracts.

use vstd::arithmetic::power::pow;
use vstd::prelude::*;

use crate::decimal;
use crate::decimal::{Dec, MANTISSA_LIMIT};

verus! {

#[derive(Debug, Clone, Copy, PartialEq, Eq, Hash, Structural)]
pub enum Side {
    Buy,
    Sell,
}

impl Side {
    pub open spec fn spec_sign(self) -> int {
        match self {
            Side::Buy => 1,
            Side::Sell => -1,
        }
    }

    /// `+1` for a buy, `-1` for a sell.
    pub fn sign(self) -> (r: i64)
        ensures
            r == self.spec_sign(),
    {
        match self {
            Side::Buy => 1,
            Side::Sell => -1,
        }
    }

    pub open spec fn spec_opposite(self) -> Side {
        match self {
            Side::Buy => Side::Sell,
            Side::Sell => Side::Buy,
        }
    }

    pub fn opposite(self) -> (r: Side)
        ensures
            r == self.spec_opposite(),
    {
        match self {
            Side::Buy => Side::Sell,
            Side::Sell => Side::Buy,
        }
    }

    pub fn label(self) -> (r: &'static str)
        ensures
            r@ == (match self {
                Side::Buy => "buy"@,
                Side::Sell => "sell"@,
            }),
    {
        match self {
            Side::Buy => "buy",
            Side::Sell => "sell",
        }
    }
}

/// The opposite of the opposite side is the side itself, and its sign is negated.
pub proof fn opposite_is_an_involution(side: Side)
    ensures
        side.spec_opposite() != side,
        side.spec_opposite().spec_opposite() == side,
        side.spec_opposite().spec_sign() == -side.spec_sign(),
{
}

/// Why an order exists: adding inventory or reducing it.
#[derive(Debug, Clone, Copy, PartialEq, Eq, Hash, Structural)]
pub enum Purpose {
    Open,
    Reduce,
}

/// Price expressed in whole ticks of Gate's contract.
pub type Ticks = i64;

/// Gate contract metadata required by the engine. `R` carries rates.
#[derive(Debug, Clone, PartialEq)]
pub struct ContractMeta<R> {
    pub name: String,
    /// Price step (`order_price_round`).
    pub tick: Dec,
    /// Underlying units per contract (`quanto_multiplier`).
    pub multiplier: Dec,
    pub order_size_min: i64,
    pub order_size_max: i64,
    /// Max open orders per contract (`orders_limit`).
    pub orders_limit: i64,
    /// Max allowed |price / last - 1| for limit orders (`order_price_deviate`).
    pub price_deviate: R,
    pub funding_interval_secs: i64,
    pub funding_next_apply: i64,
    /// Contract-level default fee rates (account-level rates override).
    pub maker_fee: R,
    pub taker_fee: R,
    pub in_delisting: bool,
}

/// Tick conversions bound to a specific tick size.
#[derive(Debug, Clone, Copy, PartialEq, Eq, Structural)]
pub struct TickGrid {
    tick: Dec,
}

/// The whole number nearest to a quotient, where it is a tick count.
pub open spec fn nearest_tick(quotient: Option<(int, nat)>) -> Option<Ticks> {
    match quotient {
        Some((m, s)) => {
            let n = decimal::rounded(m, s);
            if i64::MIN <= n <= i64::MAX {
                Some(n as i64)
            } else {
                None
            }
        },
        None => None,
    }
}

/// The tick count nearest to a price over the tick size.
pub fn nearest_ticks(quotient: Option<Dec>) -> (r: Option<Ticks>)
    requires
        quotient matches Some(q) ==> q.wf(),
    ensures
        r == nearest_tick(decimal::parts(quotient)),
{
    match quotient {
        Some(q) => decimal::to_i64(decimal::round(q)),
        None => None,
    }
}

impl TickGrid {
    /// The tick size.
    pub closed spec fn step(self) -> Dec {
        self.tick
    }

    pub open spec fn wf(self) -> bool {
        self.step().wf()
    }

    /// The price of `t` ticks can be held.
    pub open spec fn shows(self, t: Ticks) -> bool {
        decimal::holds(t * self.step().mantissa, self.step().scale as int)
    }

    /// The price of `t` ticks in writing.
    pub open spec fn wire(self, t: Ticks) -> Seq<char> {
        let m = t * self.step().mantissa;
        decimal::decimal_text(
            m,
            if m == 0 {
                0
            } else {
                self.step().scale as nat
            },
        )
    }

    /// A grid for a tick size; trailing zeros of the tick size do not matter.
    pub fn new(tick: Dec) -> (r: TickGrid)
        requires
            tick.wf(),
        ensures
            r.wf(),
            r.step().scale <= tick.scale,
            tick.mantissa == r.step().mantissa * pow(10, (tick.scale - r.step().scale) as nat),
            tick.mantissa == 0 ==> r.step().scale == 0,
            r.step().scale > 0 ==> r.step().mantissa as int % 10 != 0,
    {
        TickGrid { tick: decimal::normalize(tick) }
    }

    /// The tick size, without trailing zeros.
    pub fn tick(&self) -> (r: Dec)
        ensures
            r == self.step(),
    {
        self.tick
    }

    /// Whether the price of `t` ticks can be held.
    pub fn can_show(&self, t: Ticks) -> (r: bool)
        requires
            self.wf(),
        ensures
            r == self.shows(t),
    {
        let a: u128 = if self.tick.mantissa < 0 {
            (-self.tick.mantissa) as u128
        } else {
            self.tick.mantissa as u128
        };
        let b: u128 = if t < 0 {
            (-(t as i128)) as u128
        } else {
            t as u128
        };
        let limit: u128 = MANTISSA_LIMIT as u128;
        let ghost m = self.tick.mantissa as int;
        if a == 0 {
            assert(t * m == 0) by (nonlinear_arith)
                requires
                    m == 0,
            ;
            return true;
        }
        let most: u128 = (limit - 1) / a;
        proof {
            let x = a as int;
            let y = b as int;
            let l = limit as int;
            let q = most as int;
            assert(q * x <= l - 1 < q * x + x) by (nonlinear_arith)
                requires
                    q == (l - 1) / x,
                    x > 0,
            ;
            if y <= q {
                assert(y * x <= q * x) by (nonlinear_arith)
                    requires
                        y <= q,
                        x > 0,
                ;
            } else {
                assert(y * x >= q * x + x) by (nonlinear_arith)
                    requires
                        y >= q + 1,
                        x > 0,
                ;
            }
            assert(t * m == y * x || t * m == -(y * x)) by (nonlinear_arith)
                requires
                    x == m || x == -m,
                    y == t || y == -t,
            ;
            assert(y * x >= 0) by (nonlinear_arith)
                requires
                    y >= 0,
                    x > 0,
            ;
        }
        b <= most
    }

    /// The price of `t` ticks.
    pub fn to_decimal(&self, t: Ticks) -> (r: Dec)
        requires
            self.wf(),
            self.shows(t),
        ensures
            r.wf(),
            r.mantissa == t * self.step().mantissa,
            r.scale == (if r.mantissa == 0 {
                0
            } else {
                self.step().scale
            }),
    {
        decimal::round_dp(decimal::times(t, self.tick), self.tick.scale)
    }

    /// Wire representation of a price expressed in ticks.
    pub fn to_string(&self, t: Ticks) -> (r: String)
        requires
            self.wf(),
            self.shows(t),
        ensures
            r@ == self.wire(t),
    {
        decimal::write_decimal(self.to_decimal(t))
    }

    /// Parse an exchange price string to ticks (rounded to nearest). The wire
    /// representation of a tick count reads back as that count, for tick sizes
    /// of at most 32 bits.
    pub fn parse(&self, s: &str) -> (r: Option<Ticks>)
        requires
            self.wf(),
        ensures
            r == (match decimal::decimal_of(s@) {
                Some((m, k)) => nearest_tick(
                    decimal::quotient_of(
                        m,
                        k,
                        self.step().mantissa as int,
                        self.step().scale as nat,
                    ),
                ),
                None => None,
            }),
            forall|t: Ticks|
                0 < self.step().mantissa <= u32::MAX && self.shows(t) && s@ == #[trigger] self.wire(
                    t,
                ) ==> r == Some(t),
    {
        match decimal::read_decimal(s) {
            Some(d) => {
                let q = decimal::divide(d, self.tick);
                let r = nearest_ticks(q);
                proof {
                    assert forall|t: Ticks|
                        0 < self.step().mantissa <= u32::MAX && self.shows(t) && s@
                            == #[trigger] self.wire(t) implies r == Some(t) by {
                        self.lemma_reads_back(t, d, q);
                    }
                }
                r
            },
            None => {
                proof {
                    assert forall|t: Ticks|
                        0 < self.step().mantissa <= u32::MAX && self.shows(t) && s@
                            == #[trigger] self.wire(t) implies false by {
                        let m = t * self.step().mantissa;
                        let k: nat = if m == 0 {
                            0
                        } else {
                            self.step().scale as nat
                        };
                        assert(s@ == decimal::decimal_text(m, k));
                    }
                }
                None
            },
        }
    }

    proof fn lemma_reads_back(self, t: Ticks, d: Dec, q: Option<Dec>)
        requires
            0 < self.step().mantissa <= u32::MAX,
            ({
                let m = t * self.step().mantissa;
                &&& d.mantissa == m
                &&& d.scale == (if m == 0 {
                    0
                } else {
                    self.step().scale
                })
                &&& (m != 0 ==> decimal::parts(q) == Some((t as int, 0nat)))
                &&& (m == 0 ==> decimal::parts(q) == Some((0int, 0nat)))
            }),
        ensures
            nearest_tick(decimal::parts(q)) == Some(t),
    {
        let m = self.step().mantissa as int;
        assert(t * m == 0 ==> t == 0) by (nonlinear_arith)
            requires
                m > 0,
        ;
        reveal_with_fuel(pow, 1);
        assert(pow(10, 0) == 1);
        assert(decimal::half_even(t as nat, 1) == t as nat);
    }
}

/// A buy counts up and a sell counts down.
pub proof fn sides_have_their_sign(side: Side)
    ensures
        Side::Buy.spec_sign() == 1,
        Side::Sell.spec_sign() == -1,
        Side::Buy.spec_opposite() == Side::Sell,
        Side::Sell.spec_opposite() == Side::Buy,
{
}

/// A quotient becomes a tick count where the nearest whole number is one, and
/// nothing otherwise.
pub proof fn quotients_become_tick_counts(m: int, k: nat)
    ensures
        nearest_tick(None) is None,
        i64::MIN <= decimal::rounded(m, k) <= i64::MAX ==> (nearest_tick(Some((m, k))) matches Some(
            t,
        ) && t == decimal::rounded(m, k)),
        !(i64::MIN <= decimal::rounded(m, k) <= i64::MAX) ==> nearest_tick(Some((m, k))) is None,
{
}

} // verus!
