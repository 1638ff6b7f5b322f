//! Scientific-notation numbers: a normalized mantissa/exponent pair.
//!
//! A `SciFloat` stands for the value `(mantissa / SCALE) * 10^exp`.
//! The mantissa is a fixed-point integer with `SCALE` steps per unit,
//! so a normalized non-zero value keeps `1 <= |mantissa / SCALE| < 10`,
//! mirroring hand-written scientific notation.  Zero is the single
//! pair `(0, 0)`.  Every arithmetic operation returns a new normalized
//! value; mantissa digits that fall below the fixed-point resolution
//! are truncated toward zero, the counterpart of a machine float's
//! limited significand.

use vstd::prelude::*;

verus! {

use vstd::arithmetic::div_mod::lemma_div_denominator;
use vstd::arithmetic::div_mod::lemma_basic_div;
use vstd::arithmetic::div_mod::lemma_small_div_converse;

/// Fixed-point steps per unit of mantissa: a mantissa field `m`
/// stands for the real number `m / SCALE`.
pub const SCALE: i64 = 1_000_000;

/// Largest exponent magnitude the arithmetic accepts; far below
/// `i64::MAX` so that exponent sums and normalization shifts can
/// never overflow.
pub const EXP_LIMIT: i64 = 1_000_000_000_000_000;

#[derive(Clone, Copy, Debug, PartialEq, Eq, Structural)]
pub struct SciFloat {
    pub mantissa: i64,
    pub exp: i64,
}

pub open spec fn abs_val(a: int) -> int {
    if a >= 0 {
        a
    } else {
        -a
    }
}

pub open spec fn max_i(a: int, b: int) -> int {
    if a >= b {
        a
    } else {
        b
    }
}

pub open spec fn min_i(a: int, b: int) -> int {
    if a <= b {
        a
    } else {
        b
    }
}

pub open spec fn pow10(n: nat) -> int
    decreases n,
{
    if n == 0 {
        1
    } else {
        10 * pow10((n - 1) as nat)
    }
}

/// Integer division rounding toward zero, for any non-zero divisor.
pub open spec fn trunc_div(a: int, b: int) -> int {
    if a >= 0 && b > 0 {
        a / b
    } else if a < 0 && b < 0 {
        (-a) / (-b)
    } else if a < 0 {
        -((-a) / b)
    } else {
        -(a / (-b))
    }
}

/// Repeatedly divides an over-wide mantissa by ten (truncating),
/// raising the exponent, until the mantissa is back under ten units.
pub open spec fn norm_down(m: int, e: int) -> (int, int)
    decreases abs_val(m),
{
    if abs_val(m) >= 10 * SCALE {
        norm_down(trunc_div(m, 10), e + 1)
    } else {
        (m, e)
    }
}

/// Repeatedly multiplies an under-wide mantissa by ten (exactly),
/// lowering the exponent, until the mantissa reaches one unit.
pub open spec fn norm_up(m: int, e: int) -> (int, int)
    decreases max_i(0, SCALE - abs_val(m)),
        when 1 <= abs_val(m)
{
    if abs_val(m) < SCALE {
        norm_up(10 * m, e - 1)
    } else {
        (m, e)
    }
}

/// Normalization: what any mantissa/exponent pair becomes once the
/// mantissa is brought into `[SCALE, 10 * SCALE)` in magnitude, with
/// zero collapsing to the canonical `(0, 0)`.
pub open spec fn norm_spec(m: int, e: int) -> (int, int) {
    if m == 0 {
        (0, 0)
    } else if abs_val(m) >= SCALE {
        norm_down(m, e)
    } else {
        norm_up(m, e)
    }
}

impl SciFloat {
    /// The normalization invariant: zero is `(0, 0)`; any other value
    /// keeps one to nine units of mantissa, that is
    /// `1 <= |mantissa| / SCALE < 10`.
    pub open spec fn wf(self) -> bool {
        if self.mantissa == 0 {
            self.exp == 0
        } else {
            SCALE <= abs_val(self.mantissa as int) < 10 * SCALE
        }
    }

    /// Exponent small enough that sums and differences of two
    /// exponents, plus any normalization shift, stay far inside `i64`.
    pub open spec fn exp_small(self) -> bool {
        -EXP_LIMIT <= self.exp <= EXP_LIMIT
    }
}

proof fn lemma_pow10_pos(n: nat)
    ensures
        pow10(n) >= 1,
    decreases n,
{
    if n > 0 {
        lemma_pow10_pos((n - 1) as nat);
    }
}

proof fn lemma_pow10_increases(a: nat, b: nat)
    requires
        a <= b,
    ensures
        pow10(a) <= pow10(b),
    decreases b,
{
    if a < b {
        lemma_pow10_increases(a, (b - 1) as nat);
        lemma_pow10_pos((b - 1) as nat);
    }
}

pub proof fn lemma_pow10_19()
    ensures
        pow10(19) == 10_000_000_000_000_000_000,
{
    reveal_with_fuel(pow10, 21);
}

/// Dividing by ten truncates the magnitude: `|m / 10| == |m| / 10`,
/// and the sign is kept (or the result is zero).
proof fn lemma_trunc_div_10(m: int)
    ensures
        abs_val(trunc_div(m, 10)) == abs_val(m) / 10,
        m >= 0 ==> trunc_div(m, 10) >= 0,
        m < 0 ==> trunc_div(m, 10) <= 0,
{
}

/// One shrinking step does not change where normalization ends.
proof fn lemma_norm_step_down(m: int, e: int)
    requires
        abs_val(m) >= 10 * SCALE,
    ensures
        norm_spec(m, e) == norm_spec(trunc_div(m, 10), e + 1),
{
    let m2 = trunc_div(m, 10);
    lemma_trunc_div_10(m);
    assert(abs_val(m2) == abs_val(m) / 10);
    assert(abs_val(m2) >= SCALE) by {
        assert(abs_val(m) / 10 >= (10 * SCALE) / 10);
    };
    assert(norm_down(m, e) == norm_down(m2, e + 1));
}

/// One growing step does not change where normalization ends.
proof fn lemma_norm_step_up(m: int, e: int)
    requires
        m != 0,
        abs_val(m) < SCALE,
    ensures
        norm_spec(m, e) == norm_spec(10 * m, e - 1),
{
    assert(abs_val(10 * m) == 10 * abs_val(m));
    if abs_val(10 * m) >= SCALE {
        assert(norm_down(10 * m, e - 1) == (10 * m, e - 1));
        assert(norm_up(10 * m, e - 1) == (10 * m, e - 1));
    }
}

/// A mantissa already in range is left exactly where it is.
pub proof fn lemma_norm_id(m: int, e: int)
    requires
        SCALE <= abs_val(m) < 10 * SCALE,
    ensures
        norm_spec(m, e) == (m, e),
{
}

/// Shrinking normalization lands in range, raises the exponent, and
/// keeps the sign; the exponent rises one step per factor of ten.
proof fn lemma_norm_down_props(m: int, e: int)
    requires
        SCALE <= abs_val(m),
    ensures
        SCALE <= abs_val(norm_down(m, e).0) < 10 * SCALE,
        e <= norm_down(m, e).1,
        pow10((norm_down(m, e).1 - e) as nat) * SCALE <= abs_val(m),
        m > 0 ==> norm_down(m, e).0 > 0,
        m < 0 ==> norm_down(m, e).0 < 0,
    decreases abs_val(m),
{
    if abs_val(m) >= 10 * SCALE {
        let m2 = trunc_div(m, 10);
        lemma_trunc_div_10(m);
        assert(abs_val(m2) >= SCALE) by {
            assert(abs_val(m) / 10 >= (10 * SCALE) / 10);
        };
        lemma_norm_down_props(m2, e + 1);
        let k = (norm_down(m2, e + 1).1 - (e + 1)) as nat;
        assert(pow10((k + 1) as nat) == 10 * pow10(k));
        assert(10 * (pow10(k) * SCALE) <= 10 * abs_val(m2)) by {
            assert(pow10(k) * SCALE <= abs_val(m2));
        };
        assert(10 * (abs_val(m) / 10) <= abs_val(m));
        assert(norm_down(m, e) == norm_down(m2, e + 1));
    } else {
        assert(pow10(0) == 1);
    }
}

/// Growing normalization lands in range, lowers the exponent by at
/// most six steps, multiplies the magnitude exactly, and keeps the
/// sign.
proof fn lemma_norm_up_props(m: int, e: int)
    requires
        1 <= abs_val(m) < 10 * SCALE,
    ensures
        SCALE <= abs_val(norm_up(m, e).0) < 10 * SCALE,
        norm_up(m, e).1 <= e,
        abs_val(norm_up(m, e).0) == abs_val(m) * pow10((e - norm_up(m, e).1) as nat),
        m > 0 ==> norm_up(m, e).0 > 0,
        m < 0 ==> norm_up(m, e).0 < 0,
    decreases max_i(0, SCALE - abs_val(m)),
{
    if abs_val(m) < SCALE {
        assert(abs_val(10 * m) == 10 * abs_val(m));
        lemma_norm_up_props(10 * m, e - 1);
        let k = ((e - 1) - norm_up(10 * m, e - 1).1) as nat;
        assert(pow10((k + 1) as nat) == 10 * pow10(k));
        assert(abs_val(m) * (10 * pow10(k)) == (10 * abs_val(m)) * pow10(k))
            by (nonlinear_arith);
    } else {
        assert(pow10(0) == 1);
    }
}

/// Normalizing any non-zero pair yields a well-formed pair whose
/// exponent moved by at most 6 downward and 19 upward, with the sign
/// of the mantissa kept.
pub proof fn lemma_norm_props(m: int, e: int)
    requires
        m != 0,
        abs_val(m) < pow10(19),
    ensures
        SCALE <= abs_val(norm_spec(m, e).0) < 10 * SCALE,
        e - 6 <= norm_spec(m, e).1 <= e + 19,
        m > 0 ==> norm_spec(m, e).0 > 0,
        m < 0 ==> norm_spec(m, e).0 < 0,
{
    if abs_val(m) >= SCALE {
        lemma_norm_down_props(m, e);
        let k = (norm_down(m, e).1 - e) as nat;
        lemma_pow10_pos(k);
        assert(pow10(k) <= pow10(k) * SCALE) by (nonlinear_arith)
            requires pow10(k) >= 1;
        if k >= 19 {
            lemma_pow10_increases(19, k);
            assert(false);
        }
    } else {
        lemma_norm_up_props(m, e);
        let k = (e - norm_up(m, e).1) as nat;
        lemma_pow10_pos(k);
        assert(pow10(k) <= abs_val(m) * pow10(k)) by (nonlinear_arith)
            requires pow10(k) >= 1, abs_val(m) >= 1;
        if k >= 7 {
            lemma_pow10_increases(7, k);
            assert(pow10(7) == 10_000_000) by {
                reveal_with_fuel(pow10, 8);
            };
            assert(false);
        }
    }
}

/// The magnitude of a product is the product of the magnitudes.
proof fn lemma_abs_mul(x: int, y: int)
    ensures
        abs_val(x * y) == abs_val(x) * abs_val(y),
{
    if x >= 0 && y >= 0 {
        assert(x * y >= 0) by (nonlinear_arith)
            requires
                x >= 0,
                y >= 0,
        ;
    } else if x >= 0 && y < 0 {
        assert(x * y <= 0 && -(x * y) == x * (-y)) by (nonlinear_arith)
            requires
                x >= 0,
                y < 0,
        ;
    } else if x < 0 && y >= 0 {
        assert(x * y <= 0 && -(x * y) == (-x) * y) by (nonlinear_arith)
            requires
                x < 0,
                y >= 0,
        ;
    } else {
        assert(x * y >= 0 && x * y == (-x) * (-y)) by (nonlinear_arith)
            requires
                x < 0,
                y < 0,
        ;
    }
}

/// Magnitude and sign of a truncating division, for any divisor.
pub proof fn lemma_trunc_div_props(a: int, b: int)
    requires
        b != 0,
    ensures
        abs_val(trunc_div(a, b)) == abs_val(a) / abs_val(b),
        a == 0 ==> trunc_div(a, b) == 0,
        a >= 0 && b > 0 ==> trunc_div(a, b) >= 0,
        a <= 0 && b > 0 ==> trunc_div(a, b) <= 0,
        a >= 0 && b < 0 ==> trunc_div(a, b) <= 0,
        a <= 0 && b < 0 ==> trunc_div(a, b) >= 0,
{
    if a == 0 {
        assert(abs_val(0int) / abs_val(b) == 0) by {
            lemma_basic_div(0int, abs_val(b));
        };
    }
}

/// Truncating by `p` and then by ten is truncating by `10 * p`.
proof fn lemma_trunc_div_chain(m: int, p: int)
    requires
        p >= 1,
    ensures
        trunc_div(trunc_div(m, p), 10) == trunc_div(m, 10 * p),
{
    lemma_trunc_div_props(m, p);
    lemma_div_denominator(abs_val(m), p, 10);
    lemma_trunc_div_props(trunc_div(m, p), 10);
    lemma_trunc_div_props(m, 10 * p);
}

/// A magnitude below the divisor truncates to zero, and conversely.
proof fn lemma_trunc_div_small(m: int, p: int)
    requires
        p >= 1,
    ensures
        abs_val(m) < p ==> trunc_div(m, p) == 0,
        trunc_div(m, p) == 0 ==> abs_val(m) < p,
{
    lemma_trunc_div_props(m, p);
    if abs_val(m) < p {
        lemma_basic_div(abs_val(m), p);
    }
    if trunc_div(m, p) == 0 {
        lemma_small_div_converse(abs_val(m), p);
    }
}

/// A non-zero mantissa under a hundred units normalizes with at most
/// one upward shift and at most six downward shifts of the exponent.
proof fn lemma_norm_small_shift(m: int, e: int)
    requires
        m != 0,
        abs_val(m) < 100 * SCALE,
    ensures
        SCALE <= abs_val(norm_spec(m, e).0) < 10 * SCALE,
        e - 6 <= norm_spec(m, e).1 <= e + 1,
        abs_val(m) >= SCALE ==> norm_spec(m, e).1 >= e,
        m > 0 ==> norm_spec(m, e).0 > 0,
        m < 0 ==> norm_spec(m, e).0 < 0,
{
    if abs_val(m) >= SCALE {
        if abs_val(m) >= 10 * SCALE {
            let m2 = trunc_div(m, 10);
            lemma_trunc_div_props(m, 10);
            assert(abs_val(m2) == abs_val(m) / 10);
            assert(SCALE <= abs_val(m2) < 10 * SCALE) by {
                assert(abs_val(m) / 10 >= (10 * SCALE) / 10);
                assert(abs_val(m) / 10 < 10 * SCALE) by {
                    vstd::arithmetic::div_mod::lemma_multiply_divide_lt(
                        abs_val(m),
                        10 * SCALE,
                        10,
                    );
                };
            };
            assert(norm_down(m, e) == norm_down(m2, e + 1));
            assert(norm_down(m2, e + 1) == (m2, e + 1));
        }
    } else {
        lemma_norm_up_props(m, e);
        let k = (e - norm_up(m, e).1) as nat;
        lemma_pow10_pos(k);
        assert(pow10(k) <= abs_val(m) * pow10(k)) by (nonlinear_arith)
            requires
                pow10(k) >= 1,
                abs_val(m) >= 1,
        ;
        if k >= 7 {
            lemma_pow10_increases(7, k);
            assert(pow10(7) == 10_000_000) by {
                reveal_with_fuel(pow10, 8);
            };
            assert(false);
        }
    }
}

/// A non-zero mantissa of at least a tenth of a unit normalizes with
/// at most one shift in either direction.
proof fn lemma_norm_half_up(m: int, e: int)
    requires
        SCALE / 10 <= abs_val(m) < 10 * SCALE,
    ensures
        SCALE <= abs_val(norm_spec(m, e).0) < 10 * SCALE,
        e - 1 <= norm_spec(m, e).1 <= e,
        m > 0 ==> norm_spec(m, e).0 > 0,
        m < 0 ==> norm_spec(m, e).0 < 0,
{
    if abs_val(m) < SCALE {
        assert(abs_val(10 * m) == 10 * abs_val(m));
        assert(norm_up(m, e) == norm_up(10 * m, e - 1));
        assert(norm_up(10 * m, e - 1) == (10 * m, e - 1));
    }
}

/// Ranges of the product of two well-formed mantissas and of its
/// fixed-point quotient.
proof fn lemma_mul_mantissa_range(a: SciFloat, b: SciFloat)
    requires
        a.wf(),
        b.wf(),
    ensures
        abs_val(a.mantissa * b.mantissa) == abs_val(a.mantissa as int) * abs_val(
            b.mantissa as int,
        ),
        abs_val(a.mantissa * b.mantissa) < 100 * SCALE * SCALE,
        a.mantissa != 0 && b.mantissa != 0 ==> SCALE <= abs_val(
            trunc_div(a.mantissa * b.mantissa, SCALE as int),
        ) < 100 * SCALE,
        a.mantissa * b.mantissa == 0 <==> (a.mantissa == 0 || b.mantissa == 0),
        a.mantissa * b.mantissa > 0 ==> trunc_div(a.mantissa * b.mantissa, SCALE as int)
            > 0,
        a.mantissa * b.mantissa < 0 ==> trunc_div(a.mantissa * b.mantissa, SCALE as int)
            < 0,
{
    let p = a.mantissa * b.mantissa;
    lemma_abs_mul(a.mantissa as int, b.mantissa as int);
    assert(abs_val(p) < 100 * SCALE * SCALE) by (nonlinear_arith)
        requires
            abs_val(p) == abs_val(a.mantissa as int) * abs_val(b.mantissa as int),
            abs_val(a.mantissa as int) < 10 * SCALE,
            abs_val(b.mantissa as int) < 10 * SCALE,
    ;
    lemma_trunc_div_props(p, SCALE as int);
    assert(abs_val(a.mantissa as int) * abs_val(b.mantissa as int) == 0 <==> (abs_val(
        a.mantissa as int,
    ) == 0 || abs_val(b.mantissa as int) == 0)) by (nonlinear_arith);
    if a.mantissa != 0 && b.mantissa != 0 {
        assert(SCALE * SCALE <= abs_val(p)) by (nonlinear_arith)
            requires
                abs_val(p) == abs_val(a.mantissa as int) * abs_val(b.mantissa as int),
                SCALE <= abs_val(a.mantissa as int),
                SCALE <= abs_val(b.mantissa as int),
        ;
        assert(abs_val(p) / (SCALE as int) >= SCALE) by {
            vstd::arithmetic::div_mod::lemma_div_is_ordered(
                SCALE * SCALE,
                abs_val(p),
                SCALE as int,
            );
            vstd::arithmetic::div_mod::lemma_div_by_multiple(SCALE as int, SCALE as int);
        };
        assert(abs_val(p) / (SCALE as int) < 100 * SCALE) by {
            vstd::arithmetic::div_mod::lemma_multiply_divide_lt(
                abs_val(p),
                100 * SCALE,
                SCALE as int,
            );
        };
        assert(trunc_div(p, SCALE as int) != 0);
    }
}

/// Ranges of the fixed-point quotient of two well-formed mantissas.
proof fn lemma_div_mantissa_range(a: SciFloat, b: SciFloat)
    requires
        a.wf(),
        b.wf(),
        b.mantissa != 0,
    ensures
        abs_val(a.mantissa * SCALE) < 10 * SCALE * SCALE,
        a.mantissa != 0 ==> SCALE / 10 <= abs_val(
            trunc_div(a.mantissa * SCALE, b.mantissa as int),
        ) < 10 * SCALE,
        a.mantissa == 0 ==> trunc_div(a.mantissa * SCALE, b.mantissa as int) == 0,
        a.mantissa * b.mantissa > 0 ==> trunc_div(a.mantissa * SCALE, b.mantissa as int)
            > 0,
        a.mantissa * b.mantissa < 0 ==> trunc_div(a.mantissa * SCALE, b.mantissa as int)
            < 0,
{
    let num = a.mantissa * SCALE;
    lemma_abs_mul(a.mantissa as int, SCALE as int);
    assert(abs_val(num) < 10 * SCALE * SCALE) by (nonlinear_arith)
        requires
            abs_val(num) == abs_val(a.mantissa as int) * SCALE,
            abs_val(a.mantissa as int) < 10 * SCALE,
    ;
    lemma_trunc_div_props(num, b.mantissa as int);
    let q = trunc_div(num, b.mantissa as int);
    if a.mantissa != 0 {
        assert(SCALE * SCALE <= abs_val(num)) by (nonlinear_arith)
            requires
                abs_val(num) == abs_val(a.mantissa as int) * SCALE,
                SCALE <= abs_val(a.mantissa as int),
        ;
        assert(abs_val(q) >= SCALE / 10) by {
            vstd::arithmetic::div_mod::lemma_div_is_ordered(
                SCALE * SCALE,
                abs_val(num),
                abs_val(b.mantissa as int),
            );
            vstd::arithmetic::div_mod::lemma_div_is_ordered_by_denominator(
                SCALE * SCALE,
                abs_val(b.mantissa as int),
                10 * SCALE,
            );
            vstd::arithmetic::div_mod::lemma_div_by_multiple(
                SCALE / 10,
                10 * SCALE,
            );
            assert((SCALE / 10) * (10 * SCALE) == SCALE * SCALE);
        };
        assert(abs_val(q) < 10 * SCALE) by {
            vstd::arithmetic::div_mod::lemma_div_is_ordered_by_denominator(
                abs_val(num),
                SCALE as int,
                abs_val(b.mantissa as int),
            );
            vstd::arithmetic::div_mod::lemma_multiply_divide_lt(
                abs_val(num),
                10 * SCALE,
                SCALE as int,
            );
        };
        assert(q != 0);
        assert(a.mantissa * b.mantissa > 0 ==> (a.mantissa > 0 && b.mantissa > 0) || (
        a.mantissa < 0 && b.mantissa < 0)) by (nonlinear_arith);
        assert(a.mantissa * b.mantissa < 0 ==> (a.mantissa > 0 && b.mantissa < 0) || (
        a.mantissa < 0 && b.mantissa > 0)) by (nonlinear_arith);
        assert(a.mantissa > 0 ==> num > 0);
        assert(a.mantissa < 0 ==> num < 0);
    }
}

/// Every `i64` magnitude is below `10^19`.
proof fn lemma_i64_below_pow10_19(m: int)
    requires
        -0x8000_0000_0000_0000 <= m <= 0x7fff_ffff_ffff_ffff,
    ensures
        abs_val(m) < pow10(19),
{
    lemma_pow10_19();
}

/// Truncating division of a mantissa by ten.
fn div10_trunc(m: i64) -> (r: i64)
    requires
        m > i64::MIN,
    ensures
        r as int == trunc_div(m as int, 10),
{
    if m >= 0 {
        ((m as u64) / 10) as i64
    } else {
        -((((-m) as u64) / 10) as i64)
    }
}

impl SciFloat {
    /// Brings the pair into normalized form without changing the
    /// value it stands for: the mantissa ends in `[SCALE, 10 * SCALE)`
    /// in magnitude (or the value collapses to canonical zero).
    pub fn normalize(&mut self)
        requires
            old(self).mantissa > i64::MIN,
            -4 * EXP_LIMIT <= old(self).exp <= 4 * EXP_LIMIT,
        ensures
            final(self).mantissa as int == norm_spec(
                old(self).mantissa as int,
                old(self).exp as int,
            ).0,
            final(self).exp as int == norm_spec(
                old(self).mantissa as int,
                old(self).exp as int,
            ).1,
            final(self).wf(),
            old(self).mantissa != 0 ==> old(self).exp - 6 <= final(self).exp <= old(
                self,
            ).exp + 19,
            old(self).mantissa == 0 ==> final(self).exp == 0,
    {
        let ghost m0: int = self.mantissa as int;
        let ghost e0: int = self.exp as int;
        if self.mantissa == 0 {
            self.exp = 0;
            return ;
        }
        proof {
            lemma_i64_below_pow10_19(m0);
            lemma_norm_props(m0, e0);
        }
        while self.mantissa >= 10 * SCALE || self.mantissa <= -10 * SCALE
            invariant
                self.mantissa != 0,
                self.mantissa > i64::MIN,
                m0 != 0,
                norm_spec(self.mantissa as int, self.exp as int) == norm_spec(m0, e0),
                e0 <= self.exp as int,
                pow10((self.exp - e0) as nat) * abs_val(self.mantissa as int) <= abs_val(m0),
                abs_val(m0) < pow10(19),
                -4 * EXP_LIMIT <= e0 <= 4 * EXP_LIMIT,
                self.exp as int <= e0 + 19,
            decreases abs_val(self.mantissa as int),
        {
            let ghost m: int = self.mantissa as int;
            let ghost e: int = self.exp as int;
            let ghost k: nat = (e - e0) as nat;
            proof {
                lemma_norm_step_down(m, e);
                lemma_trunc_div_10(m);
                lemma_pow10_pos(k);
                assert(abs_val(trunc_div(m, 10)) >= SCALE) by {
                    assert(abs_val(m) / 10 >= (10 * SCALE) / 10);
                };
                assert(pow10((k + 1) as nat) == 10 * pow10(k));
                assert(10 * (abs_val(m) / 10) <= abs_val(m));
                assert(pow10(k) * (10 * (abs_val(m) / 10)) <= pow10(k) * abs_val(m))
                    by (nonlinear_arith)
                    requires
                        pow10(k) >= 1,
                        10 * (abs_val(m) / 10) <= abs_val(m),
                ;
                assert((10 * pow10(k)) * (abs_val(m) / 10) == pow10(k) * (10 * (abs_val(m)
                    / 10))) by (nonlinear_arith);
                let k2: nat = (k + 1) as nat;
                lemma_pow10_pos(k2);
                assert(pow10(k2) <= pow10(k2) * abs_val(trunc_div(m, 10)))
                    by (nonlinear_arith)
                    requires
                        pow10(k2) >= 1,
                        abs_val(trunc_div(m, 10)) >= 1,
                ;
                if e + 1 - e0 >= 20 {
                    lemma_pow10_increases(19, k2);
                    lemma_pow10_19();
                    assert(false);
                }
            }
            self.mantissa = div10_trunc(self.mantissa);
            self.exp = self.exp + 1;
        }
        let ghost m1: int = self.mantissa as int;
        let ghost e1: int = self.exp as int;
        while -SCALE < self.mantissa && self.mantissa < SCALE
            invariant
                self.mantissa != 0,
                -10 * SCALE < self.mantissa < 10 * SCALE,
                norm_spec(self.mantissa as int, self.exp as int) == norm_spec(m0, e0),
                self.exp as int <= e1,
                e0 <= e1 <= e0 + 19,
                e0 - 6 <= self.exp as int,
                -4 * EXP_LIMIT <= e0 <= 4 * EXP_LIMIT,
                abs_val(self.mantissa as int) == abs_val(m1) * pow10(
                    (e1 - self.exp as int) as nat,
                ),
                abs_val(m1) >= 1,
            decreases max_i(0, SCALE - abs_val(self.mantissa as int)),
        {
            let ghost m: int = self.mantissa as int;
            let ghost e: int = self.exp as int;
            let ghost k: nat = (e1 - e) as nat;
            proof {
                lemma_norm_step_up(m, e);
                assert(abs_val(10 * m) == 10 * abs_val(m));
                assert(pow10((k + 1) as nat) == 10 * pow10(k));
                assert(abs_val(m1) * (10 * pow10(k)) == 10 * (abs_val(m1) * pow10(k)))
                    by (nonlinear_arith);
                lemma_pow10_pos(k);
                assert(pow10(k) <= abs_val(m1) * pow10(k)) by (nonlinear_arith)
                    requires
                        pow10(k) >= 1,
                        abs_val(m1) >= 1,
                ;
                if e1 - e >= 6 {
                    lemma_pow10_increases(6, k);
                    assert(pow10(6) == 1_000_000) by {
                        reveal_with_fuel(pow10, 7);
                    };
                    assert(false);
                }
            }
            self.mantissa = 10 * self.mantissa;
            self.exp = self.exp - 1;
        }
        proof {
            lemma_norm_id(self.mantissa as int, self.exp as int);
        }
    }

    /// Constructs the normalized value standing for
    /// `(mantissa / SCALE) * 10^exp`.
    pub fn new(mantissa: i64, exp: i64) -> (r: SciFloat)
        requires
            mantissa > i64::MIN,
            -EXP_LIMIT <= exp <= EXP_LIMIT,
        ensures
            r.mantissa as int == norm_spec(mantissa as int, exp as int).0,
            r.exp as int == norm_spec(mantissa as int, exp as int).1,
            r.wf(),
            mantissa != 0 ==> exp - 6 <= r.exp <= exp + 19,
            mantissa == 0 ==> r.exp == 0,
    {
        let mut x = SciFloat { mantissa, exp };
        x.normalize();
        x
    }

    /// The canonical zero value.
    pub fn zero() -> (r: SciFloat)
        ensures
            r.mantissa == 0,
            r.exp == 0,
            r.wf(),
    {
        SciFloat { mantissa: 0, exp: 0 }
    }
}

/// Truncating division of two machine integers.
fn div_trunc(a: i64, b: i64) -> (r: i64)
    requires
        a > i64::MIN,
        b > i64::MIN,
        b != 0,
    ensures
        r as int == trunc_div(a as int, b as int),
{
    proof {
        lemma_trunc_div_props(a as int, b as int);
    }
    let am: u64 = if a >= 0 {
        a as u64
    } else {
        (-a) as u64
    };
    let bm: u64 = if b >= 0 {
        b as u64
    } else {
        (-b) as u64
    };
    let q: u64 = am / bm;
    if (a >= 0) == (b >= 0) {
        q as i64
    } else {
        -(q as i64)
    }
}

/// Shifts a mantissa right by `d` decimal digits, truncating toward
/// zero: the result is `m` divided by `10^d`.
fn shift_right(m: i64, d: u64) -> (r: i64)
    requires
        -10 * SCALE < m < 10 * SCALE,
    ensures
        r as int == trunc_div(m as int, pow10(d as nat)),
        abs_val(r as int) <= abs_val(m as int),
        m >= 0 ==> r >= 0,
        m <= 0 ==> r <= 0,
{
    let mut cur = m;
    let mut i: u64 = 0;
    proof {
        assert(trunc_div(m as int, 1) == m as int) by {
            lemma_trunc_div_props(m as int, 1);
            assert(abs_val(m as int) / 1 == abs_val(m as int));
        };
    }
    while i < d && cur != 0
        invariant
            i <= d,
            cur as int == trunc_div(m as int, pow10(i as nat)),
            abs_val(cur as int) <= abs_val(m as int),
            -10 * SCALE < m < 10 * SCALE,
            m >= 0 ==> cur >= 0,
            m <= 0 ==> cur <= 0,
        decreases d - i,
    {
        proof {
            lemma_pow10_pos(i as nat);
        }
        proof {
            lemma_trunc_div_chain(m as int, pow10(i as nat));
            lemma_trunc_div_props(m as int, pow10(i as nat));
            lemma_trunc_div_props(cur as int, 10);
            assert(pow10((i + 1) as nat) == 10 * pow10(i as nat));
        }
        cur = div10_trunc(cur);
        i = i + 1;
    }
    proof {
        if cur == 0 && i < d {
            lemma_pow10_pos(i as nat);
            lemma_trunc_div_small(m as int, pow10(i as nat));
            lemma_pow10_increases(i as nat, d as nat);
            lemma_pow10_pos(d as nat);
            lemma_trunc_div_small(m as int, pow10(d as nat));
        }
    }
    cur
}

impl SciFloat {
    /// The negation: same exponent, opposite mantissa.
    pub open spec fn neg_spec(a: SciFloat) -> SciFloat {
        SciFloat { mantissa: (-(a.mantissa as int)) as i64, exp: a.exp }
    }

    /// Scientific-notation addition: adding zero returns the other
    /// operand; otherwise the operand with the smaller exponent has
    /// its mantissa shifted right, truncating, until the exponents
    /// agree (ties shift nothing), and the mantissa sum is
    /// renormalized.
    pub open spec fn add_spec(a: SciFloat, b: SciFloat) -> (int, int) {
        if a.mantissa == 0 {
            (b.mantissa as int, b.exp as int)
        } else if b.mantissa == 0 {
            (a.mantissa as int, a.exp as int)
        } else if a.exp >= b.exp {
            norm_spec(
                a.mantissa + trunc_div(b.mantissa as int, pow10((a.exp - b.exp) as nat)),
                a.exp as int,
            )
        } else {
            norm_spec(
                b.mantissa + trunc_div(a.mantissa as int, pow10((b.exp - a.exp) as nat)),
                b.exp as int,
            )
        }
    }

    /// Subtraction is addition of the negation.
    pub open spec fn sub_spec(a: SciFloat, b: SciFloat) -> (int, int) {
        Self::add_spec(a, Self::neg_spec(b))
    }

    /// Multiplication: mantissas multiply (truncated back to fixed
    /// point), exponents add, and the product is renormalized.
    pub open spec fn mul_spec(a: SciFloat, b: SciFloat) -> (int, int) {
        norm_spec(
            trunc_div(a.mantissa * b.mantissa, SCALE as int),
            a.exp + b.exp,
        )
    }

    /// Division: mantissas divide (in fixed point, truncating),
    /// exponents subtract, and the quotient is renormalized.
    pub open spec fn div_spec(a: SciFloat, b: SciFloat) -> (int, int) {
        norm_spec(
            trunc_div(a.mantissa * SCALE, b.mantissa as int),
            a.exp - b.exp,
        )
    }

    /// `add_spec`, packed back into a value.
    pub open spec fn add_val(a: SciFloat, b: SciFloat) -> SciFloat {
        SciFloat {
            mantissa: Self::add_spec(a, b).0 as i64,
            exp: Self::add_spec(a, b).1 as i64,
        }
    }

    /// `sub_spec`, packed back into a value.
    pub open spec fn sub_val(a: SciFloat, b: SciFloat) -> SciFloat {
        SciFloat {
            mantissa: Self::sub_spec(a, b).0 as i64,
            exp: Self::sub_spec(a, b).1 as i64,
        }
    }

    /// `mul_spec`, packed back into a value.
    pub open spec fn mul_val(a: SciFloat, b: SciFloat) -> SciFloat {
        SciFloat {
            mantissa: Self::mul_spec(a, b).0 as i64,
            exp: Self::mul_spec(a, b).1 as i64,
        }
    }

    /// `div_spec`, packed back into a value.
    pub open spec fn div_val(a: SciFloat, b: SciFloat) -> SciFloat {
        SciFloat {
            mantissa: Self::div_spec(a, b).0 as i64,
            exp: Self::div_spec(a, b).1 as i64,
        }
    }

    /// `sqrt_spec`, packed back into a value.
    pub open spec fn sqrt_val(a: SciFloat) -> SciFloat {
        SciFloat {
            mantissa: Self::sqrt_spec(a).0 as i64,
            exp: Self::sqrt_spec(a).1 as i64,
        }
    }

    /// The larger of two values, by represented value, the left one
    /// on ties.
    pub open spec fn max_v(a: SciFloat, b: SciFloat) -> SciFloat {
        if Self::ltv(a, b) {
            b
        } else {
            a
        }
    }

    /// Negation.
    pub fn neg(self) -> (r: SciFloat)
        requires
            self.wf(),
        ensures
            r == Self::neg_spec(self),
            r.mantissa as int == -(self.mantissa as int),
            r.exp == self.exp,
            r.wf(),
    {
        SciFloat { mantissa: -self.mantissa, exp: self.exp }
    }

    /// Addition of two normalized values.
    pub fn add(self, rhs: SciFloat) -> (r: SciFloat)
        requires
            self.wf(),
            rhs.wf(),
            self.exp_small(),
            rhs.exp_small(),
        ensures
            r.mantissa as int == Self::add_spec(self, rhs).0,
            r.exp as int == Self::add_spec(self, rhs).1,
            r.wf(),
            r.mantissa != 0 ==> min_i(self.exp as int, rhs.exp as int) - 6 <= r.exp as int
                <= max_i(self.exp as int, rhs.exp as int) + 1,
            r.mantissa == 0 ==> r.exp == 0,
    {
        if self.mantissa == 0 {
            return rhs;
        }
        if rhs.mantissa == 0 {
            return self;
        }
        let (hi, lo) = if self.exp >= rhs.exp {
            (self, rhs)
        } else {
            (rhs, self)
        };
        let d: i64 = hi.exp - lo.exp;
        let shifted = shift_right(lo.mantissa, d as u64);
        let sum = hi.mantissa + shifted;
        let mut x = SciFloat { mantissa: sum, exp: hi.exp };
        proof {
            if sum != 0 {
                lemma_norm_small_shift(sum as int, hi.exp as int);
            }
        }
        x.normalize();
        x
    }

    /// Subtraction of two normalized values.
    pub fn sub(self, rhs: SciFloat) -> (r: SciFloat)
        requires
            self.wf(),
            rhs.wf(),
            self.exp_small(),
            rhs.exp_small(),
        ensures
            r.mantissa as int == Self::sub_spec(self, rhs).0,
            r.exp as int == Self::sub_spec(self, rhs).1,
            r.wf(),
            r.mantissa != 0 ==> min_i(self.exp as int, rhs.exp as int) - 6 <= r.exp as int
                <= max_i(self.exp as int, rhs.exp as int) + 1,
            r.mantissa == 0 ==> r.exp == 0,
    {
        self.add(rhs.neg())
    }

    /// Multiplication of two normalized values.
    pub fn mul(self, rhs: SciFloat) -> (r: SciFloat)
        requires
            self.wf(),
            rhs.wf(),
            self.exp_small(),
            rhs.exp_small(),
        ensures
            r.mantissa as int == Self::mul_spec(self, rhs).0,
            r.exp as int == Self::mul_spec(self, rhs).1,
            r.wf(),
            r.mantissa != 0 ==> self.exp + rhs.exp <= r.exp as int <= self.exp + rhs.exp
                + 1,
            r.mantissa == 0 <==> (self.mantissa == 0 || rhs.mantissa == 0),
            self.mantissa * rhs.mantissa > 0 ==> r.mantissa > 0,
            self.mantissa * rhs.mantissa < 0 ==> r.mantissa < 0,
    {
        proof {
            lemma_mul_mantissa_range(self, rhs);
        }
        let p: i64 = self.mantissa * rhs.mantissa;
        let q: i64 = div_trunc(p, SCALE);
        let mut x = SciFloat { mantissa: q, exp: self.exp + rhs.exp };
        proof {
            lemma_trunc_div_props(p as int, SCALE as int);
            if p != 0 {
                lemma_norm_small_shift(q as int, (self.exp + rhs.exp) as int);
            }
        }
        x.normalize();
        x
    }

    /// Division of two normalized values; the divisor must be
    /// non-zero.
    pub fn div(self, rhs: SciFloat) -> (r: SciFloat)
        requires
            self.wf(),
            rhs.wf(),
            rhs.mantissa != 0,
            self.exp_small(),
            rhs.exp_small(),
        ensures
            r.mantissa as int == Self::div_spec(self, rhs).0,
            r.exp as int == Self::div_spec(self, rhs).1,
            r.wf(),
            r.mantissa != 0 ==> self.exp - rhs.exp - 1 <= r.exp as int <= self.exp
                - rhs.exp,
            r.mantissa == 0 <==> self.mantissa == 0,
            self.mantissa * rhs.mantissa > 0 ==> r.mantissa > 0,
            self.mantissa * rhs.mantissa < 0 ==> r.mantissa < 0,
    {
        proof {
            lemma_div_mantissa_range(self, rhs);
        }
        let num: i64 = self.mantissa * SCALE;
        let q: i64 = div_trunc(num, rhs.mantissa);
        let mut x = SciFloat { mantissa: q, exp: self.exp - rhs.exp };
        proof {
            lemma_trunc_div_props(num as int, rhs.mantissa as int);
            if self.mantissa != 0 {
                lemma_norm_half_up(q as int, (self.exp - rhs.exp) as int);
            }
        }
        x.normalize();
        x
    }
}

impl SciFloat {
    /// In-place addition.
    pub fn add_assign(&mut self, rhs: SciFloat)
        requires
            old(self).wf(),
            rhs.wf(),
            old(self).exp_small(),
            rhs.exp_small(),
        ensures
            final(self).mantissa as int == Self::add_spec(*old(self), rhs).0,
            final(self).exp as int == Self::add_spec(*old(self), rhs).1,
            final(self).wf(),
    {
        let x = self.add(rhs);
        self.mantissa = x.mantissa;
        self.exp = x.exp;
    }

    /// In-place subtraction.
    pub fn sub_assign(&mut self, rhs: SciFloat)
        requires
            old(self).wf(),
            rhs.wf(),
            old(self).exp_small(),
            rhs.exp_small(),
        ensures
            final(self).mantissa as int == Self::sub_spec(*old(self), rhs).0,
            final(self).exp as int == Self::sub_spec(*old(self), rhs).1,
            final(self).wf(),
    {
        let x = self.sub(rhs);
        self.mantissa = x.mantissa;
        self.exp = x.exp;
    }

    /// In-place multiplication.
    pub fn mul_assign(&mut self, rhs: SciFloat)
        requires
            old(self).wf(),
            rhs.wf(),
            old(self).exp_small(),
            rhs.exp_small(),
        ensures
            final(self).mantissa as int == Self::mul_spec(*old(self), rhs).0,
            final(self).exp as int == Self::mul_spec(*old(self), rhs).1,
            final(self).wf(),
    {
        let x = self.mul(rhs);
        self.mantissa = x.mantissa;
        self.exp = x.exp;
    }

    /// In-place division.
    pub fn div_assign(&mut self, rhs: SciFloat)
        requires
            old(self).wf(),
            rhs.wf(),
            rhs.mantissa != 0,
            old(self).exp_small(),
            rhs.exp_small(),
        ensures
            final(self).mantissa as int == Self::div_spec(*old(self), rhs).0,
            final(self).exp as int == Self::div_spec(*old(self), rhs).1,
            final(self).wf(),
    {
        let x = self.div(rhs);
        self.mantissa = x.mantissa;
        self.exp = x.exp;
    }

    /// Raises the exponent by the given amount, leaving the mantissa
    /// untouched.
    pub fn add_exp(&mut self, exp: i32)
        requires
            old(self).exp_small(),
        ensures
            final(self).mantissa == old(self).mantissa,
            final(self).exp as int == old(self).exp + exp,
    {
        self.exp = self.exp + (exp as i64);
    }

    /// The value with the exponent doubled (the mantissa is kept, as
    /// in the power operations below).
    pub fn squared(self) -> (r: SciFloat)
        requires
            self.wf(),
            self.exp_small(),
        ensures
            r.mantissa == self.mantissa,
            r.exp as int == 2 * self.exp,
            r.wf(),
    {
        SciFloat { mantissa: self.mantissa, exp: self.exp * 2 }
    }

    /// The value with the exponent tripled.
    pub fn cubed(self) -> (r: SciFloat)
        requires
            self.wf(),
            self.exp_small(),
        ensures
            r.mantissa == self.mantissa,
            r.exp as int == 3 * self.exp,
            r.wf(),
    {
        SciFloat { mantissa: self.mantissa, exp: self.exp * 3 }
    }

    /// Integer power: the exponent is multiplied by `exp`; the
    /// mantissa is kept.
    pub fn powi(self, exp: i32) -> (r: SciFloat)
        requires
            self.wf(),
            -EXP_LIMIT <= self.exp * exp <= EXP_LIMIT,
        ensures
            r.mantissa == self.mantissa,
            r.exp as int == self.exp * exp,
            r.wf(),
    {
        SciFloat { mantissa: self.mantissa, exp: self.exp * (exp as i64) }
    }

    /// Integer root: the exponent is divided by `index`, truncating;
    /// the mantissa is kept.
    pub fn sqrti(self, index: i32) -> (r: SciFloat)
        requires
            self.wf(),
            self.exp_small(),
            index != 0,
        ensures
            r.mantissa == self.mantissa,
            r.exp as int == trunc_div(self.exp as int, index as int),
            r.wf(),
    {
        proof {
            lemma_trunc_div_props(self.exp as int, index as int);
        }
        let e = div_trunc(self.exp, index as i64);
        SciFloat { mantissa: self.mantissa, exp: e }
    }

    /// Value order: `a` is below `b` once both mantissas are scaled
    /// to the smaller of the two exponents.
    pub open spec fn ltv(a: SciFloat, b: SciFloat) -> bool {
        let base = min_i(a.exp as int, b.exp as int);
        a.mantissa * pow10((a.exp - base) as nat) < b.mantissa * pow10(
            (b.exp - base) as nat,
        )
    }

    /// Comparison by represented value.
    pub fn lt(self, rhs: SciFloat) -> (r: bool)
        requires
            self.wf(),
            rhs.wf(),
        ensures
            r == Self::ltv(self, rhs),
    {
        proof {
            lemma_ltv_shape(self, rhs);
        }
        if self.exp == rhs.exp {
            self.mantissa < rhs.mantissa
        } else if self.mantissa == 0 {
            rhs.mantissa > 0
        } else if rhs.mantissa == 0 {
            self.mantissa < 0
        } else if self.mantissa > 0 && rhs.mantissa < 0 {
            false
        } else if self.mantissa < 0 && rhs.mantissa > 0 {
            true
        } else if self.mantissa > 0 {
            self.exp < rhs.exp
        } else {
            rhs.exp < self.exp
        }
    }

    /// The larger of two values (by represented value; the left one
    /// on ties).
    pub fn max_val(self, rhs: SciFloat) -> (r: SciFloat)
        requires
            self.wf(),
            rhs.wf(),
        ensures
            r == (if Self::ltv(self, rhs) {
                rhs
            } else {
                self
            }),
            r.wf(),
    {
        if self.lt(rhs) {
            rhs
        } else {
            self
        }
    }
}

/// How value order reads on normalized pairs: by sign first, then by
/// exponent, then by mantissa.
pub proof fn lemma_ltv_shape(a: SciFloat, b: SciFloat)
    requires
        a.wf(),
        b.wf(),
    ensures
        a.exp == b.exp ==> (SciFloat::ltv(a, b) <==> a.mantissa < b.mantissa),
        a.mantissa == 0 ==> (SciFloat::ltv(a, b) <==> b.mantissa > 0),
        b.mantissa == 0 ==> (SciFloat::ltv(a, b) <==> a.mantissa < 0),
        a.mantissa > 0 && b.mantissa < 0 ==> !SciFloat::ltv(a, b),
        a.mantissa < 0 && b.mantissa > 0 ==> SciFloat::ltv(a, b),
        a.mantissa > 0 && b.mantissa > 0 && a.exp != b.exp ==> (SciFloat::ltv(a, b)
            <==> a.exp < b.exp),
        a.mantissa < 0 && b.mantissa < 0 && a.exp != b.exp ==> (SciFloat::ltv(a, b)
            <==> b.exp < a.exp),
{
    let base = min_i(a.exp as int, b.exp as int);
    let ka = (a.exp - base) as nat;
    let kb = (b.exp - base) as nat;
    let sa = a.mantissa * pow10(ka);
    let sb = b.mantissa * pow10(kb);
    lemma_pow10_pos(ka);
    lemma_pow10_pos(kb);
    assert((a.mantissa > 0 ==> sa > 0) && (a.mantissa < 0 ==> sa < 0) && (a.mantissa
        == 0 ==> sa == 0)) by (nonlinear_arith)
        requires
            pow10(ka) >= 1,
            sa == a.mantissa * pow10(ka),
    ;
    assert((b.mantissa > 0 ==> sb > 0) && (b.mantissa < 0 ==> sb < 0) && (b.mantissa
        == 0 ==> sb == 0)) by (nonlinear_arith)
        requires
            pow10(kb) >= 1,
            sb == b.mantissa * pow10(kb),
    ;
    if a.exp == b.exp {
        assert(ka == 0 && kb == 0);
        assert(pow10(0) == 1);
        assert(sa == a.mantissa && sb == b.mantissa) by (nonlinear_arith)
            requires
                sa == a.mantissa * pow10(ka),
                sb == b.mantissa * pow10(kb),
                pow10(ka) == 1,
                pow10(kb) == 1,
        ;
    } else if a.mantissa != 0 && b.mantissa != 0 {
        if a.exp < b.exp {
            assert(ka == 0 && kb >= 1);
            assert(pow10(0) == 1);
            lemma_pow10_increases(1, kb);
            assert(pow10(1) == 10) by {
                reveal_with_fuel(pow10, 2);
            };
            if a.mantissa > 0 && b.mantissa > 0 {
                assert(sb >= SCALE * 10) by (nonlinear_arith)
                    requires
                        pow10(kb) >= 10,
                        b.mantissa >= SCALE,
                        sb == b.mantissa * pow10(kb),
                ;
            }
            if a.mantissa < 0 && b.mantissa < 0 {
                assert(sb <= -(SCALE * 10)) by (nonlinear_arith)
                    requires
                        pow10(kb) >= 10,
                        b.mantissa <= -SCALE,
                        sb == b.mantissa * pow10(kb),
                ;
            }
        } else {
            assert(kb == 0 && ka >= 1);
            assert(pow10(0) == 1);
            lemma_pow10_increases(1, ka);
            assert(pow10(1) == 10) by {
                reveal_with_fuel(pow10, 2);
            };
            if a.mantissa > 0 && b.mantissa > 0 {
                assert(sa >= SCALE * 10) by (nonlinear_arith)
                    requires
                        pow10(ka) >= 10,
                        a.mantissa >= SCALE,
                        sa == a.mantissa * pow10(ka),
                ;
            }
            if a.mantissa < 0 && b.mantissa < 0 {
                assert(sa <= -(SCALE * 10)) by (nonlinear_arith)
                    requires
                        pow10(ka) >= 10,
                        a.mantissa <= -SCALE,
                        sa == a.mantissa * pow10(ka),
                ;
            }
        }
    }
}

/// The integer square root: the largest `r` with `r * r <= n`.
pub open spec fn isqrt_spec(n: int) -> int
    decreases n,
{
    if n < 1 {
        0
    } else {
        let r = isqrt_spec(n - 1);
        if (r + 1) * (r + 1) <= n {
            r + 1
        } else {
            r
        }
    }
}

proof fn lemma_isqrt_props(n: int)
    requires
        n >= 0,
    ensures
        isqrt_spec(n) >= 0,
        isqrt_spec(n) * isqrt_spec(n) <= n,
        n < (isqrt_spec(n) + 1) * (isqrt_spec(n) + 1),
    decreases n,
{
    if n >= 1 {
        lemma_isqrt_props(n - 1);
        let r0 = isqrt_spec(n - 1);
        if (r0 + 1) * (r0 + 1) <= n {
            assert(n < (r0 + 2) * (r0 + 2)) by (nonlinear_arith)
                requires
                    n - 1 < (r0 + 1) * (r0 + 1),
                    r0 >= 0,
            ;
        }
    }
}

proof fn lemma_isqrt_unique(n: int, r: int)
    requires
        n >= 0,
        r >= 0,
        r * r <= n,
        n < (r + 1) * (r + 1),
    ensures
        r == isqrt_spec(n),
{
    lemma_isqrt_props(n);
    let s = isqrt_spec(n);
    if r < s {
        assert((r + 1) * (r + 1) <= s * s) by (nonlinear_arith)
            requires
                0 <= r + 1 <= s,
        ;
    }
    if s < r {
        assert((s + 1) * (s + 1) <= r * r) by (nonlinear_arith)
            requires
                0 <= s + 1 <= r,
        ;
    }
}

/// Binary search for the integer square root of a machine word.
fn isqrt_u64(n: u64) -> (r: u64)
    requires
        n < 100_000_000_000_000,
    ensures
        r as int == isqrt_spec(n as int),
        (r as int) * (r as int) <= n as int,
        (n as int) < (r as int + 1) * (r as int + 1),
        r <= 10_000_000,
{
    let mut lo: u64 = 0;
    let mut hi: u64 = 10_000_000;
    proof {
        assert((10_000_000int) * (10_000_000int) == 100_000_000_000_000int);
    }
    while lo + 1 < hi
        invariant
            lo < hi <= 10_000_000,
            (lo as int) * (lo as int) <= n as int,
            (n as int) < (hi as int) * (hi as int),
        decreases hi - lo,
    {
        let mid = lo + (hi - lo) / 2;
        assert(lo < mid < hi);
        proof {
            assert((mid as int) * (mid as int) <= 100_000_000_000_000int)
                by (nonlinear_arith)
                requires
                    0 <= mid as int <= 10_000_000int,
            ;
        }
        if mid * mid <= n {
            lo = mid;
        } else {
            hi = mid;
        }
    }
    proof {
        lemma_isqrt_unique(n as int, lo as int);
    }
    lo
}

impl SciFloat {
    /// The square root of a normalized non-negative value: the
    /// exponent is made even (shifting one factor of ten into the
    /// mantissa if needed) and halved, and the mantissa becomes the
    /// integer square root of the widened fixed-point mantissa.
    pub open spec fn sqrt_spec(a: SciFloat) -> (int, int) {
        if a.mantissa == 0 {
            (0, 0)
        } else if abs_val(a.exp as int) % 2 == 0 {
            (isqrt_spec(a.mantissa * SCALE), trunc_div(a.exp as int, 2))
        } else {
            (isqrt_spec(10 * a.mantissa * SCALE), trunc_div(a.exp - 1, 2))
        }
    }

    /// Square root of a non-negative value.
    pub fn sqrt(self) -> (r: SciFloat)
        requires
            self.wf(),
            self.mantissa >= 0,
            self.exp_small(),
        ensures
            r.mantissa as int == Self::sqrt_spec(self).0,
            r.exp as int == Self::sqrt_spec(self).1,
            r.wf(),
            r.mantissa >= 0,
            self.mantissa > 0 ==> r.mantissa > 0,
            abs_val(r.exp as int) <= abs_val(self.exp as int) + 1,
    {
        if self.mantissa == 0 {
            return SciFloat { mantissa: 0, exp: 0 };
        }
        let ue: u64 = if self.exp >= 0 {
            self.exp as u64
        } else {
            (-self.exp) as u64
        };
        let even: bool = ue % 2 == 0;
        proof {
            assert(even == (abs_val(self.exp as int) % 2 == 0));
        }
        let (m2, eh): (i64, i64) = if even {
            (self.mantissa * SCALE, div_trunc(self.exp, 2))
        } else {
            (10 * self.mantissa * SCALE, div_trunc(self.exp - 1, 2))
        };
        proof {
            if even {
                assert(m2 as int == self.mantissa * SCALE) by (nonlinear_arith)
                    requires
                        m2 == self.mantissa * SCALE,
                ;
                assert(self.mantissa * SCALE < 10_000_000_000_000int)
                    by (nonlinear_arith)
                    requires
                        0 < self.mantissa < 10 * SCALE,
                        SCALE == 1_000_000i64,
                ;
                assert(self.mantissa * SCALE >= 1_000_000_000_000int)
                    by (nonlinear_arith)
                    requires
                        self.mantissa >= SCALE,
                        SCALE == 1_000_000i64,
                ;
            } else {
                assert(10 * self.mantissa * SCALE < 100_000_000_000_000int)
                    by (nonlinear_arith)
                    requires
                        0 < self.mantissa < 10 * SCALE,
                        SCALE == 1_000_000i64,
                ;
                assert(10 * self.mantissa * SCALE >= 10_000_000_000_000int)
                    by (nonlinear_arith)
                    requires
                        self.mantissa >= SCALE,
                        SCALE == 1_000_000i64,
                ;
            }
        }
        let rm: i64 = isqrt_u64(m2 as u64) as i64;
        proof {
            let n = m2 as int;
            let r = rm as int;
            assert(r >= SCALE) by (nonlinear_arith)
                requires
                    n >= 1_000_000_000_000int,
                    n < (r + 1) * (r + 1),
                    r >= 0,
                    SCALE == 1_000_000i64,
            ;
            assert(r < 10 * SCALE) by (nonlinear_arith)
                requires
                    n < 100_000_000_000_000int,
                    r * r <= n,
                    r >= 0,
                    SCALE == 1_000_000i64,
            ;
            lemma_trunc_div_props(self.exp as int, 2);
            lemma_trunc_div_props(self.exp - 1, 2);
            vstd::arithmetic::div_mod::lemma_div_nonincreasing(
                abs_val(self.exp as int),
                2,
            );
            vstd::arithmetic::div_mod::lemma_div_nonincreasing(
                abs_val(self.exp - 1),
                2,
            );
        }
        SciFloat { mantissa: rm, exp: eh }
    }
}

/// Shifting a mantissa right keeps its sign (or yields zero).
pub proof fn lemma_shift_keeps_sign(m: int, d: nat)
    ensures
        m >= 0 ==> trunc_div(m, pow10(d)) >= 0,
        m <= 0 ==> trunc_div(m, pow10(d)) <= 0,
        abs_val(trunc_div(m, pow10(d))) <= abs_val(m),
{
    lemma_pow10_pos(d);
    lemma_trunc_div_props(m, pow10(d));
    vstd::arithmetic::div_mod::lemma_div_is_ordered_by_denominator(
        abs_val(m),
        1,
        pow10(d),
    );
    vstd::arithmetic::div_mod::lemma_div_basics(abs_val(m));
}

/// Normalization keeps the sign of the mantissa (or yields zero).
pub proof fn lemma_norm_keeps_sign(m: int, e: int)
    ensures
        m >= 0 ==> norm_spec(m, e).0 >= 0,
        m <= 0 ==> norm_spec(m, e).0 <= 0,
{
    if m != 0 {
        if abs_val(m) >= SCALE {
            lemma_norm_down_props(m, e);
        } else {
            lemma_norm_up_props(m, e);
        }
    }
}

/// Addition does not depend on the order of its operands: whichever
/// side is written first, the same operand is shifted and the same
/// mantissa sum is normalized.
pub proof fn lemma_add_comm(a: SciFloat, b: SciFloat)
    requires
        a.wf(),
        b.wf(),
    ensures
        SciFloat::add_spec(a, b) == SciFloat::add_spec(b, a),
{
    if a.exp == b.exp {
        assert(pow10(0) == 1);
        assert(trunc_div(a.mantissa as int, 1) == a.mantissa) by {
            vstd::arithmetic::div_mod::lemma_div_basics(abs_val(a.mantissa as int));
        };
        assert(trunc_div(b.mantissa as int, 1) == b.mantissa) by {
            vstd::arithmetic::div_mod::lemma_div_basics(abs_val(b.mantissa as int));
        };
    }
}

/// The provable half of the round trip between native floats and
/// normalized values: a pair whose mantissa is not over-wide
/// normalizes without truncating anything, so the normalized pair
/// stands for exactly the value it was constructed from (an already
/// normalized pair comes back unchanged).
pub proof fn lemma_norm_exact_below_ten(m: int, e: int)
    requires
        1 <= abs_val(m) < 10 * SCALE,
    ensures
        norm_spec(m, e).1 <= e,
        abs_val(norm_spec(m, e).0) == abs_val(m) * pow10((e - norm_spec(m, e).1) as nat),
        m > 0 ==> norm_spec(m, e).0 > 0,
        m < 0 ==> norm_spec(m, e).0 < 0,
        SCALE <= abs_val(norm_spec(m, e).0) < 10 * SCALE,
{
    if abs_val(m) >= SCALE {
        lemma_norm_id(m, e);
        assert(pow10(0) == 1);
        assert(abs_val(m) * 1 == abs_val(m));
    } else {
        lemma_norm_up_props(m, e);
    }
}

/// The sum of two well-formed values is well-formed.
pub proof fn lemma_add_val_wf(a: SciFloat, b: SciFloat)
    requires
        a.wf(),
        b.wf(),
    ensures
        SciFloat::add_val(a, b).wf(),
        -10 * SCALE < SciFloat::add_spec(a, b).0 < 10 * SCALE,
        a.mantissa >= 0 && b.mantissa >= 0 ==> SciFloat::add_val(a, b).mantissa >= 0,
{
    if a.mantissa != 0 && b.mantissa != 0 {
        let (mh, eh, ml, d) = if a.exp >= b.exp {
            (a.mantissa as int, a.exp as int, b.mantissa as int, (a.exp - b.exp) as nat)
        } else {
            (b.mantissa as int, b.exp as int, a.mantissa as int, (b.exp - a.exp) as nat)
        };
        lemma_shift_keeps_sign(ml, d);
        let s = mh + trunc_div(ml, pow10(d));
        if s != 0 {
            lemma_norm_small_shift(s, eh);
        }
        lemma_norm_keeps_sign(s, eh);
    }
}

/// The product of two well-formed values is well-formed.
pub proof fn lemma_mul_val_wf(a: SciFloat, b: SciFloat)
    requires
        a.wf(),
        b.wf(),
    ensures
        SciFloat::mul_val(a, b).wf(),
        -10 * SCALE < SciFloat::mul_spec(a, b).0 < 10 * SCALE,
        a.mantissa == b.mantissa && a.exp == b.exp ==> SciFloat::mul_val(a, b).mantissa
            >= 0,
{
    lemma_mul_mantissa_range(a, b);
    let p = a.mantissa * b.mantissa;
    let q = trunc_div(p, SCALE as int);
    if p != 0 {
        lemma_norm_small_shift(q, (a.exp + b.exp) as int);
    }
    assert((a.mantissa as int) * (a.mantissa as int) >= 0) by (nonlinear_arith);
    lemma_trunc_div_props(p, SCALE as int);
    lemma_norm_keeps_sign(q, (a.exp + b.exp) as int);
}

/// The quotient of two well-formed values is well-formed.
pub proof fn lemma_div_val_wf(a: SciFloat, b: SciFloat)
    requires
        a.wf(),
        b.wf(),
        b.mantissa != 0,
    ensures
        SciFloat::div_val(a, b).wf(),
        -10 * SCALE < SciFloat::div_spec(a, b).0 < 10 * SCALE,
{
    lemma_div_mantissa_range(a, b);
    let q = trunc_div(a.mantissa * SCALE, b.mantissa as int);
    if a.mantissa != 0 {
        lemma_norm_half_up(q, (a.exp - b.exp) as int);
    }
}

/// The square root of a well-formed positive value is well-formed
/// and positive.
pub proof fn lemma_sqrt_val_wf(a: SciFloat)
    requires
        a.wf(),
        a.mantissa > 0,
    ensures
        SciFloat::sqrt_val(a).wf(),
        SciFloat::sqrt_val(a).mantissa > 0,
{
    let even = abs_val(a.exp as int) % 2 == 0;
    let n: int = if even {
        a.mantissa * SCALE
    } else {
        10 * a.mantissa * SCALE
    };
    assert(a.mantissa * SCALE >= 1_000_000_000_000int && a.mantissa * SCALE
        < 10_000_000_000_000int) by (nonlinear_arith)
        requires
            SCALE <= a.mantissa < 10 * SCALE,
            SCALE == 1_000_000i64,
    ;
    assert(n >= 1_000_000_000_000int && n < 100_000_000_000_000int);
    lemma_isqrt_props(n);
    let r = isqrt_spec(n);
    assert(r >= SCALE) by (nonlinear_arith)
        requires
            n >= 1_000_000_000_000int,
            n < (r + 1) * (r + 1),
            r >= 0,
            SCALE == 1_000_000i64,
    ;
    assert(r < 10 * SCALE) by (nonlinear_arith)
        requires
            n < 100_000_000_000_000int,
            r * r <= n,
            r >= 0,
            SCALE == 1_000_000i64,
    ;
}

/// Negating the left operand of a multiplication negates the
/// normalized product and keeps its exponent.
pub proof fn lemma_mul_neg_left(a: SciFloat, b: SciFloat)
    requires
        a.wf(),
    ensures
        SciFloat::mul_spec(SciFloat::neg_spec(a), b).0 == -SciFloat::mul_spec(a, b).0,
        SciFloat::mul_spec(SciFloat::neg_spec(a), b).1 == SciFloat::mul_spec(a, b).1,
{
    let na = SciFloat::neg_spec(a);
    assert(na.mantissa as int == -(a.mantissa as int));
    assert((na.mantissa as int) * (b.mantissa as int) == -((a.mantissa as int) * (
    b.mantissa as int))) by (nonlinear_arith)
        requires
            na.mantissa as int == -(a.mantissa as int),
    ;
    lemma_trunc_div_neg(a.mantissa * b.mantissa, SCALE as int);
    lemma_norm_neg(trunc_div(a.mantissa * b.mantissa, SCALE as int), a.exp + b.exp);
}

/// Negating the dividend negates the normalized quotient and keeps
/// its exponent.
pub proof fn lemma_div_neg_left(a: SciFloat, b: SciFloat)
    requires
        a.wf(),
        b.mantissa != 0,
    ensures
        SciFloat::div_spec(SciFloat::neg_spec(a), b).0 == -SciFloat::div_spec(a, b).0,
        SciFloat::div_spec(SciFloat::neg_spec(a), b).1 == SciFloat::div_spec(a, b).1,
{
    let na = SciFloat::neg_spec(a);
    assert(na.mantissa as int == -(a.mantissa as int));
    assert((na.mantissa as int) * SCALE == -((a.mantissa as int) * SCALE))
        by (nonlinear_arith)
        requires
            na.mantissa as int == -(a.mantissa as int),
    ;
    lemma_trunc_div_neg(a.mantissa * SCALE, b.mantissa as int);
    lemma_norm_neg(trunc_div(a.mantissa * SCALE, b.mantissa as int), a.exp - b.exp);
}

/// Negating the dividend negates a truncating quotient.
pub proof fn lemma_trunc_div_neg(a: int, b: int)
    requires
        b != 0,
    ensures
        trunc_div(-a, b) == -trunc_div(a, b),
{
}

proof fn lemma_norm_down_neg(m: int, e: int)
    ensures
        norm_down(-m, e).0 == -norm_down(m, e).0,
        norm_down(-m, e).1 == norm_down(m, e).1,
    decreases abs_val(m),
{
    if abs_val(m) >= 10 * SCALE {
        lemma_trunc_div_neg(m, 10);
        lemma_trunc_div_10(m);
        lemma_norm_down_neg(trunc_div(m, 10), e + 1);
    }
}

proof fn lemma_norm_up_neg(m: int, e: int)
    requires
        1 <= abs_val(m),
    ensures
        norm_up(-m, e).0 == -norm_up(m, e).0,
        norm_up(-m, e).1 == norm_up(m, e).1,
    decreases max_i(0, SCALE - abs_val(m)),
{
    if abs_val(m) < SCALE {
        assert(10 * (-m) == -(10 * m));
        lemma_norm_up_neg(10 * m, e - 1);
    }
}

/// Normalizing a negated mantissa negates the normalized mantissa
/// and keeps the exponent.
pub proof fn lemma_norm_neg(m: int, e: int)
    ensures
        norm_spec(-m, e).0 == -norm_spec(m, e).0,
        norm_spec(-m, e).1 == norm_spec(m, e).1,
{
    if m != 0 {
        if abs_val(m) >= SCALE {
            lemma_norm_down_neg(m, e);
        } else {
            lemma_norm_up_neg(m, e);
        }
    }
}

/// Subtraction is antisymmetric: swapping the operands negates the
/// mantissa of the (normalized) result and keeps its exponent.
pub proof fn lemma_sub_antisym(a: SciFloat, b: SciFloat)
    requires
        a.wf(),
        b.wf(),
    ensures
        SciFloat::sub_spec(a, b).0 == -SciFloat::sub_spec(b, a).0,
        SciFloat::sub_spec(a, b).1 == SciFloat::sub_spec(b, a).1,
{
    let na = SciFloat::neg_spec(a);
    let nb = SciFloat::neg_spec(b);
    assert(na.mantissa as int == -(a.mantissa as int));
    assert(nb.mantissa as int == -(b.mantissa as int));
    if a.exp == b.exp {
        assert(pow10(0) == 1);
        assert(trunc_div(nb.mantissa as int, 1) == nb.mantissa) by {
            vstd::arithmetic::div_mod::lemma_div_basics(abs_val(nb.mantissa as int));
            lemma_trunc_div_props(nb.mantissa as int, 1);
        };
        assert(trunc_div(na.mantissa as int, 1) == na.mantissa) by {
            vstd::arithmetic::div_mod::lemma_div_basics(abs_val(na.mantissa as int));
            lemma_trunc_div_props(na.mantissa as int, 1);
        };
        let s = a.mantissa - b.mantissa;
        lemma_norm_neg(s, a.exp as int);
    } else if a.exp > b.exp {
        let d = (a.exp - b.exp) as nat;
        lemma_pow10_pos(d);
        lemma_trunc_div_neg(b.mantissa as int, pow10(d));
        let s = a.mantissa + trunc_div(nb.mantissa as int, pow10(d));
        lemma_norm_neg(s, a.exp as int);
    } else {
        let d = (b.exp - a.exp) as nat;
        lemma_pow10_pos(d);
        lemma_trunc_div_neg(a.mantissa as int, pow10(d));
        let s = b.mantissa + trunc_div(na.mantissa as int, pow10(d));
        lemma_norm_neg(s, b.exp as int);
    }
}

/// Multiplying by one gives back exactly the same value.
pub proof fn lemma_mul_identity(a: SciFloat)
    requires
        a.wf(),
    ensures
        SciFloat::mul_spec(a, SciFloat { mantissa: SCALE, exp: 0 }) == (
            a.mantissa as int,
            a.exp as int,
        ),
{
    let p = a.mantissa * SCALE;
    lemma_abs_mul(a.mantissa as int, SCALE as int);
    lemma_trunc_div_props(p, SCALE as int);
    assert(abs_val(p) / (SCALE as int) == abs_val(a.mantissa as int)) by {
        vstd::arithmetic::div_mod::lemma_div_by_multiple(
            abs_val(a.mantissa as int),
            SCALE as int,
        );
    };
    assert((a.mantissa > 0 ==> p > 0) && (a.mantissa < 0 ==> p < 0))
        by (nonlinear_arith)
        requires
            (SCALE as int) > 0,
            p == a.mantissa * SCALE,
    ;
    assert(trunc_div(p, SCALE as int) == a.mantissa);
    if a.mantissa != 0 {
        lemma_norm_id(a.mantissa as int, a.exp as int);
    }
}

} // verus!
