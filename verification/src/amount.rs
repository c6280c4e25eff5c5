//! Fixed-point decimal amounts.
//!
//! An [`Amount`] holds a decimal number as an integer mantissa (`units`) and a
//! power-of-ten `scale`, the representation that `rust_decimal::Decimal` uses:
//! the value is `units / 10^scale`, with `scale <= 28` and the mantissa within
//! 96 bits. Arithmetic, rounding and rendering are delegated to `rust_decimal`
//! through thin wrappers; the contracts of those wrappers pin the mantissa and
//! scale of each result exactly, as the crate's source computes them.
use vstd::prelude::*;

verus! {

use vstd::math::abs;

/// Largest mantissa magnitude a decimal can carry: `2^96 - 1`.
pub const MAX_MANTISSA: i128 = 79228162514264337593543950335;

/// Largest admissible scale (fractional digits).
pub const MAX_SCALE: u32 = 28;

/// `10^n`.
pub open spec fn pow10(n: nat) -> int
    decreases n,
{
    if n == 0 {
        1
    } else {
        10 * pow10((n - 1) as nat)
    }
}

/// Mathematical model of a fixed-point decimal: `units / 10^scale`.
pub ghost struct DecVal {
    pub units: int,
    pub scale: nat,
}

/// A decimal that `rust_decimal::Decimal` can represent.
pub open spec fn dec_wf(d: DecVal) -> bool {
    d.scale <= MAX_SCALE && -(MAX_MANTISSA as int) <= d.units <= MAX_MANTISSA as int
}

/// The value of `d` as an integer count of `10^-28` units, the finest scale a
/// decimal can carry. Two decimals are numerically equal iff their values are.
pub open spec fn dec_value(d: DecVal) -> int {
    d.units * pow10((MAX_SCALE - d.scale) as nat)
}

/// The larger of the two scales: the scale that addition aligns to.
pub open spec fn scale_max(a: DecVal, b: DecVal) -> nat {
    if a.scale >= b.scale {
        a.scale
    } else {
        b.scale
    }
}

/// The mantissa of `d` rescaled to scale `s` (exact when `d.scale <= s`).
pub open spec fn rescaled(d: DecVal, s: nat) -> int {
    d.units * pow10((s - d.scale) as nat)
}

/// Both operands, aligned to the common scale, fit a 96-bit mantissa together:
/// under this bound `rust_decimal` adds or subtracts them exactly, with no
/// rescaling loss and no overflow.
pub open spec fn add_fits(a: DecVal, b: DecVal) -> bool {
    &&& dec_wf(a)
    &&& dec_wf(b)
    &&& abs(rescaled(a, scale_max(a, b))) + abs(rescaled(b, scale_max(a, b))) <= MAX_MANTISSA as int
}

/// The sum as `rust_decimal` computes it: a zero operand passes the other
/// through unchanged (scale included); otherwise both mantissas are aligned to
/// the larger scale and added.
pub open spec fn dec_add(a: DecVal, b: DecVal) -> DecVal {
    if a.units == 0 {
        b
    } else if b.units == 0 {
        a
    } else {
        DecVal { units: rescaled(a, scale_max(a, b)) + rescaled(b, scale_max(a, b)), scale: scale_max(a, b) }
    }
}

/// The difference as `rust_decimal` computes it: `a - 0` is `a`, `0 - b` is
/// `b` negated (scale kept), otherwise aligned subtraction at the larger scale.
pub open spec fn dec_sub(a: DecVal, b: DecVal) -> DecVal {
    if a.units == 0 {
        DecVal { units: -b.units, scale: b.scale }
    } else if b.units == 0 {
        a
    } else {
        DecVal { units: rescaled(a, scale_max(a, b)) - rescaled(b, scale_max(a, b)), scale: scale_max(a, b) }
    }
}

/// Round a non-negative mantissa `m` down by a factor `u`, half to even
/// (banker's rounding): the quotient, plus one when the remainder exceeds
/// half of `u`, or equals it and the quotient is odd.
pub open spec fn half_even_div(m: int, u: int) -> int {
    let q = m / u;
    let r = m % u;
    if 2 * r > u {
        q + 1
    } else if 2 * r < u {
        q
    } else if q % 2 == 1 {
        q + 1
    } else {
        q
    }
}

/// Rounding to four fractional digits as `rust_decimal::Decimal::round_dp(4)`
/// performs it: a decimal of scale at most four is returned unchanged, zero
/// becomes zero at scale four, and otherwise the magnitude is rounded half to
/// even with the sign reattached.
pub open spec fn dec_round4(d: DecVal) -> DecVal {
    if d.scale <= 4 {
        d
    } else if d.units == 0 {
        DecVal { units: 0, scale: 4 }
    } else {
        let u = pow10((d.scale - 4) as nat);
        let q = half_even_div(abs(d.units) as int, u);
        DecVal { units: if d.units < 0 { -q } else { q }, scale: 4 }
    }
}

/// Rounding as the ledger settles its balances: an exact zero collapses to
/// the canonical four-digit scale, and any other value is rounded as
/// [`dec_round4`] describes. Zero balances thereby always render as
/// `0.0000`, whatever scale the arithmetic left them at.
pub open spec fn dec_settle4(d: DecVal) -> DecVal {
    if d.units == 0 {
        DecVal { units: 0, scale: 4 }
    } else {
        dec_round4(d)
    }
}

/// Settling shares every property of rounding; on a zero it keeps the value
/// exactly.
pub proof fn lemma_settle4_props(d: DecVal)
    requires
        dec_wf(d),
    ensures
        dec_wf(dec_settle4(d)),
        dec_settle4(d).scale <= 4,
        2 * abs(dec_value(dec_settle4(d)) - dec_value(d)) <= pow10(24),
        dec_value(dec_settle4(d)) % pow10(24) == 0,
        d.units == 0 ==> dec_value(dec_settle4(d)) == 0 && dec_value(d) == 0,
{
    lemma_pow10_pos(24);
    if d.units == 0 {
        assert(dec_value(d) == 0) by (nonlinear_arith)
            requires d.units == 0;
        let r = dec_settle4(d);
        assert(dec_value(r) == 0) by (nonlinear_arith)
            requires r.units == 0;
        vstd::arithmetic::div_mod::lemma_mod_multiples_basic(0, pow10(24));
    } else {
        lemma_round4_props(d);
    }
}

/// A fixed-point decimal amount: `units / 10^scale`.
#[derive(Clone, Copy, Debug, PartialEq, Eq, Structural)]
pub struct Amount {
    /// Signed mantissa, within 96 bits.
    pub units: i128,
    /// Fractional digits, at most 28.
    pub scale: u32,
}

impl View for Amount {
    type V = DecVal;

    open spec fn view(&self) -> DecVal {
        DecVal { units: self.units as int, scale: self.scale as nat }
    }
}

/// The text that `rust_decimal` renders a decimal of the given mantissa and
/// scale to; a fixed function of the two.
pub uninterp spec fn decimal_string_of(units: int, scale: nat) -> Seq<char>;

/// Relies on `rust_decimal`'s `Add` for `Decimal`: with a zero operand the
/// other operand is returned unchanged, and otherwise, whenever the mantissas
/// aligned to the larger scale fit 96 bits together (`add_fits`), the result
/// is their exact sum at that scale (`src/ops/add.rs` of rust_decimal).
#[verifier::external_body]
pub(crate) fn raw_add(a: Amount, b: Amount) -> (r: Amount)
    requires
        add_fits(a@, b@),
    ensures
        r@ == dec_add(a@, b@),
{
    let x = rust_decimal::Decimal::from_i128_with_scale(a.units, a.scale);
    let y = rust_decimal::Decimal::from_i128_with_scale(b.units, b.scale);
    let s = x + y;
    Amount { units: s.mantissa(), scale: s.scale() }
}

/// Relies on `rust_decimal`'s `Sub` for `Decimal`: subtraction aligns and
/// subtracts the mantissas exactly under the same 96-bit bound as addition,
/// passing `a` through when `b` is zero and negating `b` when `a` is zero
/// (`src/ops/add.rs` of rust_decimal, subtract path).
#[verifier::external_body]
pub(crate) fn raw_sub(a: Amount, b: Amount) -> (r: Amount)
    requires
        add_fits(a@, b@),
    ensures
        r@ == dec_sub(a@, b@),
{
    let x = rust_decimal::Decimal::from_i128_with_scale(a.units, a.scale);
    let y = rust_decimal::Decimal::from_i128_with_scale(b.units, b.scale);
    let s = x - y;
    Amount { units: s.mantissa(), scale: s.scale() }
}

/// Relies on `rust_decimal::Decimal::round_dp(4)`: a scale of at most four is
/// returned unchanged, zero collapses to scale four, and otherwise the
/// magnitude is rounded half to even to four fractional digits
/// (`round_dp_with_strategy` in rust_decimal's `src/decimal.rs`).
#[verifier::external_body]
pub(crate) fn raw_round4(a: Amount) -> (r: Amount)
    requires
        dec_wf(a@),
    ensures
        r@ == dec_round4(a@),
{
    let x = rust_decimal::Decimal::from_i128_with_scale(a.units, a.scale);
    let s = x.round_dp(4);
    Amount { units: s.mantissa(), scale: s.scale() }
}

/// Relies on `rust_decimal`'s `Display` for `Decimal`: the rendered text is a
/// fixed function of mantissa and scale, named `decimal_string_of`.
#[verifier::external_body]
pub(crate) fn raw_to_string(a: Amount) -> (r: String)
    requires
        dec_wf(a@),
    ensures
        r@ == decimal_string_of(a@.units, a@.scale),
{
    let x = rust_decimal::Decimal::from_i128_with_scale(a.units, a.scale);
    x.to_string()
}

impl Amount {
    /// The amount `units / 10^scale`.
    pub fn new(units: i128, scale: u32) -> (r: Amount)
        requires
            scale <= MAX_SCALE,
            -MAX_MANTISSA <= units <= MAX_MANTISSA,
        ensures
            r@ == (DecVal { units: units as int, scale: scale as nat }),
            dec_wf(r@),
    {
        Amount { units, scale }
    }

    /// Zero at scale four, the state a fresh balance starts in.
    pub fn zero() -> (r: Amount)
        ensures
            r@ == (DecVal { units: 0, scale: 4 }),
            dec_value(r@) == 0,
            dec_wf(r@),
    {
        proof {
            lemma_pow10_pos(24);
        }
        Amount { units: 0, scale: 4 }
    }

    /// The decimal rendered as text, exactly as `rust_decimal` renders it.
    pub fn to_decimal_string(&self) -> (r: String)
        requires
            dec_wf(self@),
        ensures
            r@ == decimal_string_of(self@.units, self@.scale),
    {
        raw_to_string(*self)
    }
}

pub proof fn lemma_pow10_pos(n: nat)
    ensures
        pow10(n) >= 1,
    decreases n,
{
    if n > 0 {
        lemma_pow10_pos((n - 1) as nat);
    }
}

pub proof fn lemma_pow10_add(a: nat, b: nat)
    ensures
        pow10(a + b) == pow10(a) * pow10(b),
    decreases a,
{
    if a == 0 {
    } else {
        lemma_pow10_add((a - 1) as nat, b);
        assert(pow10(a + b) == 10 * pow10((a + b - 1) as nat));
        assert(10 * (pow10((a - 1) as nat) * pow10(b)) == (10 * pow10((a - 1) as nat)) * pow10(b))
            by (nonlinear_arith);
    }
}

/// Rescaling a mantissa to a coarser reference scale preserves the value.
pub proof fn lemma_rescaled_value(d: DecVal, s: nat)
    requires
        d.scale <= s <= MAX_SCALE,
    ensures
        rescaled(d, s) * pow10((MAX_SCALE - s) as nat) == dec_value(d),
{
    let k = (s - d.scale) as nat;
    let m = (MAX_SCALE - s) as nat;
    lemma_pow10_add(k, m);
    assert((d.units * pow10(k)) * pow10(m) == d.units * (pow10(k) * pow10(m))) by (nonlinear_arith);
}

/// A well-formed decimal's sign is its mantissa's sign.
pub proof fn lemma_value_sign(d: DecVal)
    requires
        dec_wf(d),
    ensures
        dec_value(d) > 0 <==> d.units > 0,
        dec_value(d) == 0 <==> d.units == 0,
        dec_value(d) < 0 <==> d.units < 0,
{
    let p = pow10((MAX_SCALE - d.scale) as nat);
    lemma_pow10_pos((MAX_SCALE - d.scale) as nat);
    assert(d.units > 0 ==> d.units * p > 0) by (nonlinear_arith)
        requires p >= 1;
    assert(d.units == 0 ==> d.units * p == 0) by (nonlinear_arith);
    assert(d.units < 0 ==> d.units * p < 0) by (nonlinear_arith)
        requires p >= 1;
}

/// Addition under `add_fits` is exact: the result is well formed, its value is
/// the sum of the operands' values, and its scale does not exceed the larger
/// operand scale.
pub proof fn lemma_add_exact(a: DecVal, b: DecVal)
    requires
        add_fits(a, b),
    ensures
        dec_wf(dec_add(a, b)),
        dec_value(dec_add(a, b)) == dec_value(a) + dec_value(b),
        dec_add(a, b).scale <= scale_max(a, b),
{
    let s = scale_max(a, b);
    lemma_pow10_pos((s - a.scale) as nat);
    lemma_pow10_pos((s - b.scale) as nat);
    if a.units == 0 {
        assert(rescaled(a, s) == 0) by (nonlinear_arith)
            requires a.units == 0;
        lemma_rescaled_value(a, s);
        lemma_pow10_pos((MAX_SCALE - s) as nat);
        assert(dec_value(a) == 0) by (nonlinear_arith)
            requires rescaled(a, s) == 0, dec_value(a) == rescaled(a, s) * pow10((MAX_SCALE - s) as nat);
    } else if b.units == 0 {
        assert(rescaled(b, s) == 0) by (nonlinear_arith)
            requires b.units == 0;
        lemma_rescaled_value(b, s);
        assert(dec_value(b) == 0) by (nonlinear_arith)
            requires rescaled(b, s) == 0, dec_value(b) == rescaled(b, s) * pow10((MAX_SCALE - s) as nat);
    } else {
        let r = dec_add(a, b);
        lemma_rescaled_value(a, s);
        lemma_rescaled_value(b, s);
        assert((rescaled(a, s) + rescaled(b, s)) * pow10((MAX_SCALE - s) as nat) == rescaled(a, s)
            * pow10((MAX_SCALE - s) as nat) + rescaled(b, s) * pow10((MAX_SCALE - s) as nat))
            by (nonlinear_arith);
    }
}

/// Subtraction under `add_fits` is exact, in the same way as addition.
pub proof fn lemma_sub_exact(a: DecVal, b: DecVal)
    requires
        add_fits(a, b),
    ensures
        dec_wf(dec_sub(a, b)),
        dec_value(dec_sub(a, b)) == dec_value(a) - dec_value(b),
        dec_sub(a, b).scale <= scale_max(a, b),
{
    let s = scale_max(a, b);
    lemma_pow10_pos((s - a.scale) as nat);
    lemma_pow10_pos((s - b.scale) as nat);
    if a.units == 0 {
        assert(rescaled(a, s) == 0) by (nonlinear_arith)
            requires a.units == 0;
        lemma_rescaled_value(a, s);
        assert(dec_value(a) == 0) by (nonlinear_arith)
            requires rescaled(a, s) == 0, dec_value(a) == rescaled(a, s) * pow10((MAX_SCALE - s) as nat);
        assert(dec_value(dec_sub(a, b)) == -dec_value(b)) by (nonlinear_arith)
            requires dec_sub(a, b).units == -b.units, dec_sub(a, b).scale == b.scale;
    } else if b.units == 0 {
        assert(rescaled(b, s) == 0) by (nonlinear_arith)
            requires b.units == 0;
        lemma_rescaled_value(b, s);
        assert(dec_value(b) == 0) by (nonlinear_arith)
            requires rescaled(b, s) == 0, dec_value(b) == rescaled(b, s) * pow10((MAX_SCALE - s) as nat);
    } else {
        lemma_rescaled_value(a, s);
        lemma_rescaled_value(b, s);
        assert((rescaled(a, s) - rescaled(b, s)) * pow10((MAX_SCALE - s) as nat) == rescaled(a, s)
            * pow10((MAX_SCALE - s) as nat) - rescaled(b, s) * pow10((MAX_SCALE - s) as nat))
            by (nonlinear_arith);
    }
}

/// Rounding to four digits is well formed, lands on a multiple of `10^-4`,
/// moves the value by at most half of `10^-4`, and is the identity on a
/// decimal whose scale is already at most four.
pub proof fn lemma_round4_props(d: DecVal)
    requires
        dec_wf(d),
    ensures
        dec_wf(dec_round4(d)),
        dec_round4(d).scale <= 4,
        2 * abs(dec_value(dec_round4(d)) - dec_value(d)) <= pow10(24),
        dec_value(dec_round4(d)) % pow10(24) == 0,
        d.scale <= 4 ==> dec_round4(d) == d,
{
    lemma_pow10_pos(24);
    if d.scale <= 4 {
        let k = (4 - d.scale) as nat;
        let p = pow10((MAX_SCALE - d.scale) as nat);
        lemma_pow10_add(24, k);
        assert(d.units * (pow10(24) * pow10(k)) == (d.units * pow10(k)) * pow10(24))
            by (nonlinear_arith);
        vstd::arithmetic::div_mod::lemma_mod_multiples_basic(d.units * pow10(k), pow10(24));
    } else if d.units == 0 {
        assert(dec_value(d) == 0) by (nonlinear_arith)
            requires d.units == 0;
        vstd::arithmetic::div_mod::lemma_mod_multiples_basic(0, pow10(24));
    } else {
        let sc = d.scale;
        let u = pow10((sc - 4) as nat);
        let p = pow10((MAX_SCALE - sc) as nat);
        let m = abs(d.units) as int;
        let q = m / u;
        let r = m % u;
        let qq = half_even_div(m, u);
        lemma_pow10_pos((MAX_SCALE - sc) as nat);
        assert(u == 10 * pow10((sc - 5) as nat));
        lemma_pow10_pos((sc - 5) as nat);
        vstd::arithmetic::div_mod::lemma_fundamental_div_mod(m, u);
        vstd::arithmetic::div_mod::lemma_mod_division_less_than_divisor(m, u);
        vstd::arithmetic::div_mod::lemma_div_pos_is_pos(m, u);
        // The rounded mantissa stays within 96 bits.
        assert(10 * q <= u * q) by (nonlinear_arith)
            requires q >= 0, u >= 10;
        assert(u * q <= m) by (nonlinear_arith)
            requires m == u * q + r, r >= 0;
        assert(qq <= q + 1 && q <= qq);
        // The rounded mantissa differs from the exact quotient point by at
        // most half a unit: 2 * |qq * u - m| <= u.
        let e = qq * u - m;
        assert((q + 1) * u == q * u + u) by (nonlinear_arith);
        assert(q * u == u * q) by (nonlinear_arith);
        assert(2 * r > u ==> 2 * e <= u && 2 * e >= 0) by {
            if 2 * r > u {
                assert(qq == q + 1);
                assert(e == u - r);
            }
        };
        assert(2 * r < u ==> 2 * (-e) <= u && e <= 0) by {
            if 2 * r < u {
                assert(qq == q || qq == q + 1);
                if qq == q {
                    assert(e == -r);
                } else {
                    assert(e == u - r);
                    assert(2 * r == u || 2 * r > u || 2 * r < u);
                }
            }
        };
        assert(2 * r == u ==> (e == u - r || e == -r));
        assert(2 * abs(e) <= u);
        // Relate the two reference scales: 10^24 == p * u.
        lemma_pow10_add((MAX_SCALE - sc) as nat, (sc - 4) as nat);
        assert(pow10(24) == p * u);
        let rv = dec_round4(d);
        assert(rv.units == if d.units < 0 { -qq } else { qq });
        // Value error: |value(round) - value(d)| == |e| * p.
        if d.units >= 0 {
            assert(d.units == m);
            assert(dec_value(rv) - dec_value(d) == qq * (p * u) - m * p == e * p)
                by (nonlinear_arith)
                requires e == qq * u - m, dec_value(rv) == qq * (p * u), dec_value(d) == m * p;
        } else {
            assert(d.units == -m);
            assert(dec_value(rv) - dec_value(d) == (-qq) * (p * u) + m * p == (-e) * p)
                by (nonlinear_arith)
                requires e == qq * u - m, dec_value(rv) == (-qq) * (p * u), dec_value(d) == (-m) * p;
        }
        assert(dec_value(rv) - dec_value(d) == e * p || dec_value(rv) - dec_value(d) == (-e) * p);
        assert(abs(e * p) == abs(e) * p && abs((-e) * p) == abs(e) * p) by (nonlinear_arith)
            requires p >= 1;
        assert(2 * (abs(e) * p) == (2 * abs(e)) * p) by (nonlinear_arith);
        assert((2 * abs(e)) * p <= u * p) by (nonlinear_arith)
            requires 2 * abs(e) <= u, p >= 1;
        assert(u * p == p * u) by (nonlinear_arith);
        // The result is a multiple of 10^24.
        assert(dec_value(rv) == rv.units * pow10(24));
        vstd::arithmetic::div_mod::lemma_mod_multiples_basic(rv.units, pow10(24));
        // Well-formedness of the rounded mantissa.
        assert(qq <= MAX_MANTISSA as int);
    }
}

} // verus!
