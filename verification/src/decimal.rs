//! Exact fixed-point money arithmetic.
//!
//! An amount is an integer count of `10^-28` currency units, the finest
//! fraction the engine accepts on input. All arithmetic is exact; an operation
//! whose result would leave the representable range reports failure instead of
//! rounding or wrapping.

use vstd::prelude::*;

verus! {

/// Units per whole currency unit: an amount carries twenty-eight fractional
/// decimal digits.
pub const DEC_UNIT: i128 = 10_000_000_000_000_000_000_000_000_000;

/// Units per `10^-4` currency unit, the precision of a snapshot field.
pub const SNAP_UNIT: i128 = 1_000_000_000_000_000_000_000_000;

/// Inclusive bound on the magnitude of any amount or balance, in units
/// (one billion whole currency units).
pub const DEC_LIMIT: i128 = 10_000_000_000_000_000_000_000_000_000_000_000_000;

/// The range of an account total: the sum of two balances, so up to twice
/// the balance bound.
pub open spec fn snap_in_range(v: int) -> bool {
    -2 * DEC_LIMIT <= v <= 2 * DEC_LIMIT
}

/// The range of values an amount or a balance may take, in units.
pub open spec fn dec_in_range(v: int) -> bool {
    -DEC_LIMIT <= v <= DEC_LIMIT
}

/// Rounding of a non-negative unit count to a multiple of [`SNAP_UNIT`]:
/// to the nearest multiple, ties to the even multiple.
pub open spec fn round_snap_nonneg(v: int) -> int
    recommends
        v >= 0,
{
    let r = v % (SNAP_UNIT as int);
    let base = v - r;
    if r < SNAP_UNIT / 2 {
        base
    } else if r > SNAP_UNIT / 2 {
        base + SNAP_UNIT
    } else if base % (2 * SNAP_UNIT) == 0 {
        base
    } else {
        base + SNAP_UNIT
    }
}

/// Rounding of a unit count to a multiple of [`SNAP_UNIT`] (four fractional
/// currency digits): to the nearest multiple, ties to the even multiple,
/// symmetric about zero.
pub open spec fn round_snap(v: int) -> int {
    if v >= 0 {
        round_snap_nonneg(v)
    } else {
        -round_snap_nonneg(-v)
    }
}

/// An exact decimal amount of money, held as a count of `10^-28` currency
/// units.
#[derive(Clone, Copy, Debug, PartialEq, Eq, Structural)]
pub struct Decimal {
    /// The count of `10^-28` currency units.
    pub units: i128,
}

impl View for Decimal {
    type V = int;

    open spec fn view(&self) -> int {
        self.units as int
    }
}

impl Default for Decimal {
    /// The zero amount.
    fn default() -> (r: Decimal)
        ensures
            r@ == 0,
    {
        Decimal { units: 0 }
    }
}

impl Decimal {
    /// The zero amount.
    pub fn zero() -> (r: Decimal)
        ensures
            r@ == 0,
    {
        Decimal { units: 0 }
    }

    /// The amount `m * 10^-scale` currency units, for a scale of at most
    /// twenty-eight digits and a result within range; `None` otherwise.
    pub fn from_scaled(m: i128, scale: u32) -> (r: Option<Decimal>)
        ensures
            r matches Some(d) ==> scale <= 28 && d@ == m * pow10((28 - scale) as nat)
                && dec_in_range(d@),
            r is None ==> scale > 28 || !dec_in_range(m * pow10((28 - scale) as nat)),
    {
        if scale > 28 {
            return None;
        }
        let p = pow10_i128(28 - scale);
        match m.checked_mul(p) {
            Some(units) => {
                if -DEC_LIMIT <= units && units <= DEC_LIMIT {
                    Some(Decimal { units })
                } else {
                    None
                }
            },
            None => None,
        }
    }

    /// Exact sum, or `None` when the sum leaves the representable range.
    pub fn checked_add(self, rhs: Decimal) -> (r: Option<Decimal>)
        ensures
            r matches Some(d) ==> d@ == self@ + rhs@,
            r is Some <==> dec_in_range(self@ + rhs@),
    {
        match self.units.checked_add(rhs.units) {
            Some(units) => {
                if -DEC_LIMIT <= units && units <= DEC_LIMIT {
                    Some(Decimal { units })
                } else {
                    None
                }
            },
            None => None,
        }
    }

    /// Exact difference, or `None` when it leaves the representable range.
    pub fn checked_sub(self, rhs: Decimal) -> (r: Option<Decimal>)
        ensures
            r matches Some(d) ==> d@ == self@ - rhs@,
            r is Some <==> dec_in_range(self@ - rhs@),
    {
        match self.units.checked_sub(rhs.units) {
            Some(units) => {
                if -DEC_LIMIT <= units && units <= DEC_LIMIT {
                    Some(Decimal { units })
                } else {
                    None
                }
            },
            None => None,
        }
    }

    /// Whether this amount is strictly less than `rhs`.
    pub fn lt(&self, rhs: &Decimal) -> (r: bool)
        ensures
            r == (self@ < rhs@),
    {
        self.units < rhs.units
    }

    /// Whether this amount is at least `rhs`.
    pub fn ge(&self, rhs: &Decimal) -> (r: bool)
        ensures
            r == (self@ >= rhs@),
    {
        self.units >= rhs.units
    }

    /// Whether this amount is strictly negative.
    pub fn is_negative(&self) -> (r: bool)
        ensures
            r == (self@ < 0),
    {
        self.units < 0
    }

    /// This amount rounded to four fractional currency digits: to the nearest
    /// multiple of `10^-4`, ties to the even multiple.
    pub fn round_dp4(self) -> (r: Decimal)
        requires
            snap_in_range(self@),
        ensures
            r@ == round_snap(self@),
            snap_in_range(r@),
            r@ % (SNAP_UNIT as int) == 0,
    {
        proof {
            let mag: int = if self@ >= 0 {
                self@
            } else {
                -self@
            };
            lemma_round_snap_nonneg_props(mag);
            if self@ < 0 {
                lemma_neg_multiple(round_snap_nonneg(mag), SNAP_UNIT as int);
            }
        }
        if self.units >= 0 {
            Decimal { units: round_units_nonneg(self.units) }
        } else {
            Decimal { units: -round_units_nonneg(-self.units) }
        }
    }
}

/// `10^n`.
pub open spec fn pow10(n: nat) -> int
    decreases n,
{
    if n == 0 {
        1
    } else {
        10 * pow10((n - 1) as nat)
    }
}

/// `10^n` is positive.
pub proof fn pow10_positive(n: nat)
    ensures
        pow10(n) >= 1,
    decreases n,
{
    if n > 0 {
        pow10_positive((n - 1) as nat);
    }
}

/// `10^n` grows with `n`.
pub proof fn pow10_monotonic(m: nat, n: nat)
    requires
        m <= n,
    ensures
        pow10(m) <= pow10(n),
    decreases n,
{
    pow10_positive(m);
    if m < n {
        pow10_monotonic(m, (n - 1) as nat);
        pow10_positive((n - 1) as nat);
    }
}

/// The powers of ten framing the representable ranges and the two units.
pub proof fn lemma_pow10_limit()
    ensures
        pow10(4) == 10_000,
        pow10(10) == 10_000_000_000,
        pow10(24) == SNAP_UNIT,
        pow10(28) == DEC_UNIT,
        pow10(37) == DEC_LIMIT,
        pow10(38) == 10 * DEC_LIMIT,
{
    reveal_with_fuel(pow10, 39);
}

/// `10^n` as a machine integer, for exponents up to thirty-eight.
pub fn pow10_i128(n: u32) -> (r: i128)
    requires
        n <= 38,
    ensures
        r == pow10(n as nat),
{
    proof {
        lemma_pow10_limit();
    }
    let mut r: i128 = 1;
    let mut i: u32 = 0;
    while i < n
        invariant
            i <= n <= 38,
            r == pow10(i as nat),
            pow10(38) == 10 * DEC_LIMIT,
        decreases n - i,
    {
        proof {
            pow10_positive(i as nat);
            pow10_monotonic((i + 1) as nat, 38nat);
            assert(pow10((i + 1) as nat) == 10 * pow10(i as nat));
        }
        r = r * 10;
        i = i + 1;
    }
    r
}

/// A negated multiple of `m` is still a multiple of `m`.
pub proof fn lemma_neg_multiple(x: int, m: int)
    requires
        m > 0,
        x % m == 0,
    ensures
        (-x) % m == 0,
{
    vstd::arithmetic::div_mod::lemma_fundamental_div_mod(x, m);
    assert(-x == (-(x / m)) * m) by (nonlinear_arith)
        requires
            x == m * (x / m) + x % m,
            x % m == 0,
    ;
    vstd::arithmetic::div_mod::lemma_mod_multiples_basic(-(x / m), m);
}

/// Rounding a non-negative value yields a non-negative multiple of
/// [`SNAP_UNIT`] no further than one step away, and rounding never leaves
/// the representable range.
proof fn lemma_round_snap_nonneg_props(v: int)
    requires
        v >= 0,
    ensures
        round_snap_nonneg(v) % (SNAP_UNIT as int) == 0,
        0 <= round_snap_nonneg(v) <= v + SNAP_UNIT,
        v <= 2 * DEC_LIMIT ==> round_snap_nonneg(v) <= 2 * DEC_LIMIT,
{
    let m = SNAP_UNIT as int;
    let r = v % m;
    let q = v / m;
    let base = v - r;
    let res = round_snap_nonneg(v);
    vstd::arithmetic::div_mod::lemma_fundamental_div_mod(v, m);
    vstd::arithmetic::div_mod::lemma_mod_pos_bound(v, m);
    vstd::arithmetic::div_mod::lemma_div_pos_is_pos(v, m);
    assert(base == q * m);
    vstd::arithmetic::div_mod::lemma_mod_multiples_basic(q, m);
    assert(base + m == (q + 1) * m) by (nonlinear_arith)
        requires
            base == q * m,
    ;
    vstd::arithmetic::div_mod::lemma_mod_multiples_basic(q + 1, m);
    assert(base >= 0) by (nonlinear_arith)
        requires
            base == q * m,
            q >= 0,
            m > 0,
    ;
    if v <= 2 * DEC_LIMIT {
        let k = 20_000_000_000_000int;
        assert(2 * DEC_LIMIT == k * m);
        if res > base {
            // the rounding went up, so the remainder was positive and v lay
            // strictly above its own multiple of the step
            assert(q < k) by (nonlinear_arith)
                requires
                    q * m + r <= k * m,
                    0 < r < m,
                    m > 0,
            ;
            assert((q + 1) * m <= k * m) by (nonlinear_arith)
                requires
                    q + 1 <= k,
                    m > 0,
            ;
        }
    }
}

/// Rounds a non-negative unit count to a multiple of [`SNAP_UNIT`]: nearest,
/// ties to even.
fn round_units_nonneg(v: i128) -> (r: i128)
    requires
        0 <= v <= 2 * DEC_LIMIT,
    ensures
        r == round_snap_nonneg(v as int),
{
    proof {
        lemma_round_snap_nonneg_props(v as int);
    }
    let rem = v % SNAP_UNIT;
    let base = v - rem;
    let half = SNAP_UNIT / 2;
    if rem < half {
        base
    } else if rem > half {
        base + SNAP_UNIT
    } else if base % (2 * SNAP_UNIT) == 0 {
        base
    } else {
        base + SNAP_UNIT
    }
}

/// Rounding to the snapshot precision stays within the total range and
/// lands on a multiple of the snapshot unit.
pub proof fn lemma_round_snap_props(v: int)
    requires
        snap_in_range(v),
    ensures
        snap_in_range(round_snap(v)),
        round_snap(v) % (SNAP_UNIT as int) == 0,
{
    let mag: int = if v >= 0 {
        v
    } else {
        -v
    };
    lemma_round_snap_nonneg_props(mag);
    if v < 0 {
        lemma_neg_multiple(round_snap_nonneg(mag), SNAP_UNIT as int);
    }
}

} // verus!
