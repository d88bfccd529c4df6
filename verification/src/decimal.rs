//! Fixed-point decimal numbers in plain-data form, together with the value
//! model (`mantissa / 10^scale`) that every contract in this crate speaks of.

use vstd::prelude::*;

verus! {

/// Largest number of fractional digits a value can carry.
pub const MAX_SCALE: u32 = 28;

/// Exclusive bound on the magnitude of a mantissa: `2^96`.
pub const MANTISSA_LIMIT: i128 = 0x1_0000_0000_0000_0000_0000_0000;

/// A decimal number, the value `mantissa / 10^scale`.
///
/// This is the plain-data form of a 96-bit fixed-point decimal: a
/// well-formed value keeps `scale` at most [`MAX_SCALE`] and `mantissa`
/// strictly within 96 bits. Note that `==` on this type is structural;
/// two representations of the same numeric value (such as `1.0` and
/// `1.00`) differ structurally but are related by [`dec_eqv`].
#[derive(Clone, Copy, Debug, PartialEq, Eq, Structural, Hash)]
pub struct Decimal {
    pub mantissa: i128,
    pub scale: u32,
}

/// `10^e`.
pub open spec fn pow10(e: nat) -> int
    decreases e,
{
    if e == 0 {
        1
    } else {
        10 * pow10((e - 1) as nat)
    }
}

/// The two values are numerically equal: `a.m / 10^a.s == b.m / 10^b.s`,
/// stated by cross-multiplication.
pub open spec fn dec_eqv(a: Decimal, b: Decimal) -> bool {
    a.mantissa * pow10(b.scale as nat) == b.mantissa * pow10(a.scale as nat)
}

/// `a` is numerically less than `b`.
pub open spec fn dec_lt(a: Decimal, b: Decimal) -> bool {
    a.mantissa * pow10(b.scale as nat) < b.mantissa * pow10(a.scale as nat)
}

/// The larger of the two scales: the scale at which both values can be
/// written over a common denominator.
pub open spec fn common_scale(a: Decimal, b: Decimal) -> nat {
    if a.scale >= b.scale {
        a.scale as nat
    } else {
        b.scale as nat
    }
}

/// The mantissa of `d` rewritten at the larger scale `c`.
pub open spec fn scaled_mantissa(d: Decimal, c: nat) -> int {
    d.mantissa * pow10((c - d.scale) as nat)
}

/// The mantissa of the exact sum `a + b` at the common scale.
pub open spec fn sum_mantissa(a: Decimal, b: Decimal) -> int {
    scaled_mantissa(a, common_scale(a, b)) + scaled_mantissa(b, common_scale(a, b))
}

/// The mantissa of the exact difference `a - b` at the common scale.
pub open spec fn diff_mantissa(a: Decimal, b: Decimal) -> int {
    scaled_mantissa(a, common_scale(a, b)) - scaled_mantissa(b, common_scale(a, b))
}

/// The exact sum is representable: its mantissa at the common scale stays
/// within 96 bits, so decimal addition neither rounds nor overflows.
pub open spec fn add_fits(a: Decimal, b: Decimal) -> bool {
    -MANTISSA_LIMIT < sum_mantissa(a, b) < MANTISSA_LIMIT
}

/// The exact difference is representable.
pub open spec fn sub_fits(a: Decimal, b: Decimal) -> bool {
    -MANTISSA_LIMIT < diff_mantissa(a, b) < MANTISSA_LIMIT
}

/// The exact product is representable: the scales add up to at most
/// [`MAX_SCALE`] and the mantissa product stays within 96 bits.
pub open spec fn mul_fits(a: Decimal, b: Decimal) -> bool {
    &&& a.scale + b.scale <= MAX_SCALE
    &&& -MANTISSA_LIMIT < a.mantissa * b.mantissa < MANTISSA_LIMIT
}

/// The quotient magnitude `|a / b|` is below `2^95`, so decimal division
/// cannot overflow whatever scale it rounds to.
pub open spec fn div_fits(a: Decimal, b: Decimal) -> bool {
    vstd::math::abs(a.mantissa as int) * pow10(b.scale as nat) < vstd::math::abs(
        b.mantissa as int,
    ) * pow10(a.scale as nat) * 0x8000_0000_0000_0000_0000_0000
}

/// `r` is numerically the sum `a + b`, stated by cross-multiplication:
/// `r.m / 10^r.s == a.m / 10^a.s + b.m / 10^b.s`.
pub open spec fn is_sum(r: Decimal, a: Decimal, b: Decimal) -> bool {
    r.mantissa * (pow10(a.scale as nat) * pow10(b.scale as nat)) == (a.mantissa * pow10(
        b.scale as nat,
    ) + b.mantissa * pow10(a.scale as nat)) * pow10(r.scale as nat)
}

/// `r` is numerically the difference `a - b`.
pub open spec fn is_diff(r: Decimal, a: Decimal, b: Decimal) -> bool {
    r.mantissa * (pow10(a.scale as nat) * pow10(b.scale as nat)) == (a.mantissa * pow10(
        b.scale as nat,
    ) - b.mantissa * pow10(a.scale as nat)) * pow10(r.scale as nat)
}

/// `r` is numerically the product `a * b`.
pub open spec fn is_prod(r: Decimal, a: Decimal, b: Decimal) -> bool {
    r.mantissa * (pow10(a.scale as nat) * pow10(b.scale as nat)) == (a.mantissa * b.mantissa)
        * pow10(r.scale as nat)
}

/// The canonical representation of the exact sum: the common-scale mantissa
/// at the common scale. Meaningful when `add_fits(a, b)` holds.
pub open spec fn add_spec(a: Decimal, b: Decimal) -> Decimal {
    Decimal { mantissa: sum_mantissa(a, b) as i128, scale: common_scale(a, b) as u32 }
}

/// The canonical representation of the exact difference.
pub open spec fn sub_spec(a: Decimal, b: Decimal) -> Decimal {
    Decimal { mantissa: diff_mantissa(a, b) as i128, scale: common_scale(a, b) as u32 }
}

/// The canonical representation of the exact product.
pub open spec fn mul_spec(a: Decimal, b: Decimal) -> Decimal {
    Decimal { mantissa: (a.mantissa * b.mantissa) as i128, scale: (a.scale + b.scale) as u32 }
}

/// The rendering of `d` with `precision` fractional digits fits the
/// formatter's 32-byte buffer: the integral digits plus the point plus
/// the buffered fractional digits (the formatter keeps at most
/// [`MAX_SCALE`] of them in the buffer, appending further zeros outside
/// it) stay within 32. A zero precision always fits, and so does any
/// precision up to two, since a well-formed value has at most 29
/// integral digits.
pub open spec fn format_fits(d: Decimal, precision: nat) -> bool {
    precision == 0 || vstd::math::abs(d.mantissa as int) < pow10(
        (d.scale + 31 - (if precision >= 28 {
            28nat
        } else {
            precision
        })) as nat,
    )
}

/// What decimal division returns for the given operand representations.
pub uninterp spec fn div_result(am: int, ascale: nat, bm: int, bscale: nat) -> Decimal;

/// What decimal formatting returns: the value `m / 10^s` rendered with
/// exactly `precision` fractional digits.
pub uninterp spec fn format_result(m: int, s: nat, precision: nat) -> Seq<char>;

impl Decimal {
    /// The representation is within the 96-bit range and the scale limit.
    pub open spec fn well_formed(self) -> bool {
        self.scale <= MAX_SCALE && -MANTISSA_LIMIT < self.mantissa < MANTISSA_LIMIT
    }

    /// Builds the decimal `mantissa / 10^scale`.
    pub fn new(mantissa: i128, scale: u32) -> (r: Decimal)
        requires
            scale <= MAX_SCALE,
            -MANTISSA_LIMIT < mantissa < MANTISSA_LIMIT,
        ensures
            r == (Decimal { mantissa, scale }),
            r.well_formed(),
    {
        Decimal { mantissa, scale }
    }

    /// True exactly when the value is zero.
    pub fn is_zero(&self) -> (r: bool)
        ensures
            r == (self.mantissa == 0),
    {
        self.mantissa == 0
    }

    /// True exactly when the value is negative.
    pub fn is_sign_negative(&self) -> (r: bool)
        ensures
            r == (self.mantissa < 0),
    {
        self.mantissa < 0
    }

    /// The negated value, same scale.
    pub fn neg(&self) -> (r: Decimal)
        requires
            self.well_formed(),
        ensures
            r.mantissa == -self.mantissa,
            r.scale == self.scale,
            r.well_formed(),
    {
        Decimal { mantissa: -self.mantissa, scale: self.scale }
    }

    /// The absolute value, same scale.
    pub fn abs(&self) -> (r: Decimal)
        requires
            self.well_formed(),
        ensures
            r.scale == self.scale,
            r.mantissa == vstd::math::abs(self.mantissa as int),
            r.well_formed(),
    {
        if self.mantissa < 0 {
            Decimal { mantissa: -self.mantissa, scale: self.scale }
        } else {
            Decimal { mantissa: self.mantissa, scale: self.scale }
        }
    }
}

/// `10^e >= 1`.
pub proof fn lemma_pow10_pos(e: nat)
    ensures
        pow10(e) >= 1,
    decreases e,
{
    if e > 0 {
        lemma_pow10_pos((e - 1) as nat);
    }
}

/// `10^(a + b) == 10^a * 10^b`.
pub proof fn lemma_pow10_add(a: nat, b: nat)
    ensures
        pow10(a + b) == pow10(a) * pow10(b),
    decreases a,
{
    if a == 0 {
    } else {
        lemma_pow10_add((a - 1) as nat, b);
        assert(pow10(a + b) == 10 * pow10((a + b - 1) as nat));
        vstd::arithmetic::mul::lemma_mul_is_associative(10, pow10((a - 1) as nat), pow10(b));
    }
}

/// `10^e` does not shrink as `e` grows.
pub proof fn lemma_pow10_increases(a: nat, b: nat)
    requires
        a <= b,
    ensures
        pow10(a) <= pow10(b),
{
    lemma_pow10_add(a, (b - a) as nat);
    lemma_pow10_pos(a);
    lemma_pow10_pos((b - a) as nat);
    vstd::arithmetic::mul::lemma_mul_inequality(1, pow10((b - a) as nat), pow10(a));
}

/// `10^28` written out.
pub proof fn lemma_pow10_28()
    ensures
        pow10(28) == 10000000000000000000000000000,
{
    reveal_with_fuel(pow10, 29);
}

/// `10^38` still fits a 128-bit signed integer.
pub proof fn lemma_pow10_38()
    ensures
        pow10(38) == 100000000000000000000000000000000000000,
{
    reveal_with_fuel(pow10, 39);
}

/// `10^e` for `e` up to 38, the largest power of ten a 128-bit signed
/// integer can hold.
pub fn pow10_i128(e: u32) -> (r: i128)
    requires
        e <= 38,
    ensures
        r == pow10(e as nat),
{
    let mut r: i128 = 1;
    let mut i: u32 = 0;
    while i < e
        invariant
            i <= e,
            e <= 38,
            r == pow10(i as nat),
        decreases e - i,
    {
        proof {
            lemma_pow10_pos(i as nat);
            lemma_pow10_increases((i + 1) as nat, 38);
            lemma_pow10_38();
            assert(pow10((i + 1) as nat) == 10 * pow10(i as nat));
        }
        r = r * 10;
        i = i + 1;
    }
    r
}

impl Decimal {
    /// Numeric comparison of the two values, scale differences accounted
    /// for: the result orders `self.m / 10^self.s` against
    /// `other.m / 10^other.s`.
    pub fn cmp_value(&self, other: &Decimal) -> (r: core::cmp::Ordering)
        requires
            self.well_formed(),
            other.well_formed(),
        ensures
            (r == core::cmp::Ordering::Less) == dec_lt(*self, *other),
            (r == core::cmp::Ordering::Equal) == dec_eqv(*self, *other),
            (r == core::cmp::Ordering::Greater) == dec_lt(*other, *self),
    {
        proof {
            lemma_pow10_pos(self.scale as nat);
            lemma_pow10_pos(other.scale as nat);
        }
        if self.scale <= other.scale {
            let p = pow10_i128(other.scale - self.scale);
            let m2 = other.mantissa;
            proof {
                lemma_scale_up_compare(*self, *other);
            }
            match self.mantissa.checked_mul(p) {
                Some(x) => {
                    if x < m2 {
                        core::cmp::Ordering::Less
                    } else if x == m2 {
                        core::cmp::Ordering::Equal
                    } else {
                        core::cmp::Ordering::Greater
                    }
                },
                None => {
                    proof {
                        lemma_overflow_compare(*self, *other);
                    }
                    if self.mantissa > 0 {
                        core::cmp::Ordering::Greater
                    } else {
                        core::cmp::Ordering::Less
                    }
                },
            }
        } else {
            let p = pow10_i128(self.scale - other.scale);
            let m1 = self.mantissa;
            proof {
                lemma_scale_up_compare(*other, *self);
            }
            match other.mantissa.checked_mul(p) {
                Some(x) => {
                    if m1 < x {
                        core::cmp::Ordering::Less
                    } else if m1 == x {
                        core::cmp::Ordering::Equal
                    } else {
                        core::cmp::Ordering::Greater
                    }
                },
                None => {
                    proof {
                        lemma_overflow_compare(*other, *self);
                    }
                    if other.mantissa > 0 {
                        core::cmp::Ordering::Less
                    } else {
                        core::cmp::Ordering::Greater
                    }
                },
            }
        }
    }

    /// Numeric equality of the two values: `1.0` equals `1.00`. Total:
    /// no bound on scales or mantissas is assumed.
    pub fn eq_value(&self, other: &Decimal) -> (r: bool)
        ensures
            r == dec_eqv(*self, *other),
    {
        if self.mantissa == 0 || other.mantissa == 0 {
            proof {
                lemma_pow10_pos(self.scale as nat);
                lemma_pow10_pos(other.scale as nat);
                vstd::arithmetic::mul::lemma_mul_nonzero(
                    self.mantissa as int,
                    pow10(other.scale as nat),
                );
                vstd::arithmetic::mul::lemma_mul_nonzero(
                    other.mantissa as int,
                    pow10(self.scale as nat),
                );
            }
            self.mantissa == 0 && other.mantissa == 0
        } else if self.scale <= other.scale {
            eq_value_scaled(self, other)
        } else {
            eq_value_scaled(other, self)
        }
    }
}

/// Numeric equality where `a` carries the smaller scale and neither value
/// is zero.
fn eq_value_scaled(a: &Decimal, b: &Decimal) -> (r: bool)
    requires
        a.scale <= b.scale,
        a.mantissa != 0,
        b.mantissa != 0,
    ensures
        r == dec_eqv(*a, *b),
{
    let delta = b.scale - a.scale;
    proof {
        lemma_scale_up_compare(*a, *b);
    }
    if delta > 38 {
        proof {
            lemma_big_scale_gap(*a, *b);
        }
        false
    } else {
        let p = pow10_i128(delta);
        match a.mantissa.checked_mul(p) {
            Some(x) => x == b.mantissa,
            None => false,
        }
    }
}

/// With more than 38 scale digits between two nonzero values, the
/// rescaled mantissa of the smaller-scaled one is out of 128-bit range,
/// so the two cannot be equal.
proof fn lemma_big_scale_gap(a: Decimal, b: Decimal)
    requires
        a.scale <= b.scale,
        b.scale - a.scale > 38,
        a.mantissa != 0,
    ensures
        a.mantissa * pow10((b.scale - a.scale) as nat) > i128::MAX || a.mantissa * pow10(
            (b.scale - a.scale) as nat,
        ) < i128::MIN,
{
    let d = (b.scale - a.scale) as nat;
    let p = pow10(d);
    lemma_pow10_38();
    lemma_pow10_increases(39, d);
    assert(pow10(39) == 10 * pow10(38));
    lemma_pow10_pos(d);
    if a.mantissa > 0 {
        vstd::arithmetic::mul::lemma_mul_increases(a.mantissa as int, p);
    } else {
        vstd::arithmetic::mul::lemma_mul_increases(-(a.mantissa as int), p);
        vstd::arithmetic::mul::lemma_mul_unary_negation(a.mantissa as int, p);
    }
}

/// With `a.scale <= b.scale`, comparing `a` and `b` numerically is
/// comparing `a.mantissa * 10^(b.scale - a.scale)` against `b.mantissa`.
proof fn lemma_scale_up_compare(a: Decimal, b: Decimal)
    requires
        a.scale <= b.scale,
    ensures
        dec_lt(a, b) == (a.mantissa * pow10((b.scale - a.scale) as nat) < b.mantissa),
        dec_eqv(a, b) == (a.mantissa * pow10((b.scale - a.scale) as nat) == b.mantissa),
        dec_lt(b, a) == (a.mantissa * pow10((b.scale - a.scale) as nat) > b.mantissa),
{
    let sa = a.scale as nat;
    let sb = b.scale as nat;
    let d = (sb - sa) as nat;
    let x = a.mantissa * pow10(d);
    lemma_pow10_pos(sa);
    lemma_pow10_add(sa, d);
    assert(pow10(sb) == pow10(sa) * pow10(d));
    vstd::arithmetic::mul::lemma_mul_is_associative(a.mantissa as int, pow10(sa), pow10(d));
    vstd::arithmetic::mul::lemma_mul_is_commutative(pow10(sa), pow10(d));
    vstd::arithmetic::mul::lemma_mul_is_associative(a.mantissa as int, pow10(d), pow10(sa));
    assert(a.mantissa * pow10(sb) == x * pow10(sa));
    // x * 10^sa <?> b.mantissa * 10^sa mirrors x <?> b.mantissa, since 10^sa > 0
    if x < b.mantissa {
        vstd::arithmetic::mul::lemma_mul_strict_inequality(x, b.mantissa as int, pow10(sa));
    } else if x > b.mantissa {
        vstd::arithmetic::mul::lemma_mul_strict_inequality(b.mantissa as int, x, pow10(sa));
    }
}

/// With `a.scale <= b.scale` and the rescaled mantissa of `a` out of the
/// 128-bit range, the comparison is decided by the sign of `a.mantissa`.
proof fn lemma_overflow_compare(a: Decimal, b: Decimal)
    requires
        a.scale <= b.scale,
        b.well_formed(),
        a.mantissa * pow10((b.scale - a.scale) as nat) > i128::MAX || a.mantissa * pow10(
            (b.scale - a.scale) as nat,
        ) < i128::MIN,
    ensures
        a.mantissa > 0 ==> dec_lt(b, a),
        a.mantissa <= 0 ==> dec_lt(a, b),
{
    let d = (b.scale - a.scale) as nat;
    let x = a.mantissa * pow10(d);
    lemma_pow10_pos(d);
    lemma_scale_up_compare(a, b);
    if a.mantissa > 0 {
        vstd::arithmetic::mul::lemma_mul_strictly_positive(a.mantissa as int, pow10(d));
        assert(x > i128::MAX);
        assert(b.mantissa < MANTISSA_LIMIT);
    } else {
        if a.mantissa == 0 {
            assert(x == 0);
        } else {
            vstd::arithmetic::mul::lemma_mul_strict_inequality(a.mantissa as int, 0, pow10(d));
        }
        assert(x < i128::MIN);
        assert(b.mantissa > -MANTISSA_LIMIT);
    }
}

/// Cancellation on the right: from `x * m == y * m` with positive `m`,
/// conclude `x == y`.
proof fn lemma_cancel_right(x: int, y: int, m: int)
    by (nonlinear_arith)
    requires
        m > 0,
        x * m == y * m,
    ensures
        x == y,
{
}

/// From `rm * (pa * pb) == (s * pg) * pr` and `pa * pb == pc * pg` with
/// positive `pg`, conclude `rm * pc == s * pr`.
proof fn lemma_cancel_factor(rm: int, s: int, pa: int, pb: int, pc: int, pg: int, pr: int)
    by (nonlinear_arith)
    requires
        pg > 0,
        pa * pb == pc * pg,
        rm * (pa * pb) == (s * pg) * pr,
    ensures
        rm * pc == s * pr,
{
}

/// Scaling up by a factor of at least one cannot bring a value into a
/// symmetric range it was outside of.
proof fn lemma_scale_keeps_bound(x: int, p: int, y: int, lim: int)
    by (nonlinear_arith)
    requires
        p >= 1,
        x * p == y,
        -lim < y < lim,
    ensures
        -lim < x < lim,
{
}

/// The mantissa of `d` rescaled from the common scale to the full product
/// scale: `scaled_mantissa(a, common) * 10^gap` recovers the
/// cross-multiplied term.
proof fn lemma_scaled_term(m: int, low: nat, gap: nat, full: nat)
    requires
        low + gap == full,
    ensures
        (m * pow10(low)) * pow10(gap) == m * pow10(full),
{
    lemma_pow10_add(low, gap);
    vstd::arithmetic::mul::lemma_mul_is_associative(m, pow10(low), pow10(gap));
}

/// The exact-sum relation pins the canonical sum, up to value equality.
pub proof fn lemma_sum_canonical(r: Decimal, a: Decimal, b: Decimal)
    requires
        a.well_formed(),
        b.well_formed(),
        add_fits(a, b),
        is_sum(r, a, b),
    ensures
        dec_eqv(r, add_spec(a, b)),
        add_spec(a, b).well_formed(),
{
    let sa = a.scale as nat;
    let sb = b.scale as nat;
    let c = common_scale(a, b);
    let g = (sa + sb - c) as nat;
    let s = sum_mantissa(a, b);
    let t = a.mantissa * pow10(sb) + b.mantissa * pow10(sa);
    lemma_pow10_pos(g);
    // s * 10^g == t
    lemma_scaled_term(a.mantissa as int, (c - sa) as nat, g, sb);
    lemma_scaled_term(b.mantissa as int, (c - sb) as nat, g, sa);
    vstd::arithmetic::mul::lemma_mul_is_distributive_add_other_way(
        pow10(g),
        scaled_mantissa(a, c),
        scaled_mantissa(b, c),
    );
    assert(s * pow10(g) == t);
    // 10^sa * 10^sb == 10^c * 10^g
    lemma_pow10_add(sa, sb);
    lemma_pow10_add(c, g);
    lemma_cancel_factor(
        r.mantissa as int,
        s,
        pow10(sa),
        pow10(sb),
        pow10(c),
        pow10(g),
        pow10(r.scale as nat),
    );
}

/// The exact-difference relation pins the canonical difference, up to
/// value equality.
pub proof fn lemma_diff_canonical(r: Decimal, a: Decimal, b: Decimal)
    requires
        a.well_formed(),
        b.well_formed(),
        sub_fits(a, b),
        is_diff(r, a, b),
    ensures
        dec_eqv(r, sub_spec(a, b)),
        sub_spec(a, b).well_formed(),
{
    let sa = a.scale as nat;
    let sb = b.scale as nat;
    let c = common_scale(a, b);
    let g = (sa + sb - c) as nat;
    let s = diff_mantissa(a, b);
    let t = a.mantissa * pow10(sb) - b.mantissa * pow10(sa);
    lemma_pow10_pos(g);
    lemma_scaled_term(a.mantissa as int, (c - sa) as nat, g, sb);
    lemma_scaled_term(b.mantissa as int, (c - sb) as nat, g, sa);
    vstd::arithmetic::mul::lemma_mul_is_distributive_sub_other_way(
        pow10(g),
        scaled_mantissa(a, c),
        scaled_mantissa(b, c),
    );
    assert(s * pow10(g) == t);
    lemma_pow10_add(sa, sb);
    lemma_pow10_add(c, g);
    lemma_cancel_factor(
        r.mantissa as int,
        s,
        pow10(sa),
        pow10(sb),
        pow10(c),
        pow10(g),
        pow10(r.scale as nat),
    );
}

/// The exact-product relation pins the canonical product, up to value
/// equality.
pub proof fn lemma_prod_canonical(r: Decimal, a: Decimal, b: Decimal)
    requires
        a.well_formed(),
        b.well_formed(),
        mul_fits(a, b),
        is_prod(r, a, b),
    ensures
        dec_eqv(r, mul_spec(a, b)),
        mul_spec(a, b).well_formed(),
{
    let sa = a.scale as nat;
    let sb = b.scale as nat;
    lemma_pow10_add(sa, sb);
}

/// Replacing the left operand of an addition by a value-equal
/// representation with no more fractional digits keeps the sum
/// representable and value-equal.
pub proof fn lemma_add_transfer(a2: Decimal, a: Decimal, b: Decimal)
    requires
        a2.well_formed(),
        a.well_formed(),
        b.well_formed(),
        dec_eqv(a2, a),
        a2.scale <= a.scale,
        add_fits(a, b),
    ensures
        add_fits(a2, b),
        common_scale(a2, b) <= common_scale(a, b),
        dec_eqv(add_spec(a2, b), add_spec(a, b)),
{
    lemma_rescale_left(a2, a, b);
    let c2 = common_scale(a2, b);
    let c = common_scale(a, b);
    let d = (c - c2) as nat;
    let s2 = sum_mantissa(a2, b);
    let s = sum_mantissa(a, b);
    lemma_pow10_pos(d);
    lemma_scale_keeps_bound(s2, pow10(d), s, MANTISSA_LIMIT as int);
    // dec_eqv(add_spec(a2, b), add_spec(a, b)): s2 * 10^c == s * 10^c2
    lemma_scaled_term(s2, c2, d, c);
    assert(s2 * pow10(c) == (s2 * pow10(c2)) * pow10(d)) by {
        vstd::arithmetic::mul::lemma_mul_is_associative(s2, pow10(c2), pow10(d));
        vstd::arithmetic::mul::lemma_mul_is_associative(s2, pow10(d), pow10(c2));
        vstd::arithmetic::mul::lemma_mul_is_commutative(pow10(c2), pow10(d));
        lemma_pow10_add(c2, d);
    }
    assert((s2 * pow10(d)) * pow10(c2) == s * pow10(c2)) by {
        assert(s2 * pow10(d) == s);
    }
    assert(s2 * pow10(c) == s * pow10(c2)) by {
        vstd::arithmetic::mul::lemma_mul_is_associative(s2, pow10(c2), pow10(d));
        vstd::arithmetic::mul::lemma_mul_is_associative(s2, pow10(d), pow10(c2));
        vstd::arithmetic::mul::lemma_mul_is_commutative(pow10(c2), pow10(d));
        lemma_pow10_add(c2, d);
    }
}

/// The common-scale sum of `(a2, b)` rescaled up to the common scale of
/// `(a, b)` is the common-scale sum of `(a, b)`.
proof fn lemma_rescale_left(a2: Decimal, a: Decimal, b: Decimal)
    requires
        dec_eqv(a2, a),
        a2.scale <= a.scale,
    ensures
        sum_mantissa(a2, b) * pow10((common_scale(a, b) - common_scale(a2, b)) as nat)
            == sum_mantissa(a, b),
{
    let c2 = common_scale(a2, b);
    let c = common_scale(a, b);
    let d = (c - c2) as nat;
    lemma_left_term(a2, a, c2, c);
    lemma_scaled_term(b.mantissa as int, (c2 - b.scale) as nat, d, (c - b.scale) as nat);
    vstd::arithmetic::mul::lemma_mul_is_distributive_add_other_way(
        pow10(d),
        scaled_mantissa(a2, c2),
        scaled_mantissa(b, c2),
    );
}

/// The rescaled-left-operand term: `a2` written at scale `c2`, then
/// rescaled up by `c - c2`, equals `a` written at scale `c`.
proof fn lemma_left_term(a2: Decimal, a: Decimal, c2: nat, c: nat)
    requires
        dec_eqv(a2, a),
        a2.scale <= a.scale,
        a2.scale <= c2,
        a.scale <= c,
        c2 <= c,
    ensures
        scaled_mantissa(a2, c2) * pow10((c - c2) as nat) == scaled_mantissa(a, c),
{
    let d = (c - c2) as nat;
    // a2.m * 10^(a.s - a2.s) == a.m, by cancelling 10^(a2.s)
    lemma_scaled_term(
        a2.mantissa as int,
        (a.scale - a2.scale) as nat,
        a2.scale as nat,
        a.scale as nat,
    );
    lemma_pow10_pos(a2.scale as nat);
    lemma_cancel_right(
        a2.mantissa * pow10((a.scale - a2.scale) as nat),
        a.mantissa as int,
        pow10(a2.scale as nat),
    );
    // (a2.m * 10^(c2 - a2.s)) * 10^d == a2.m * 10^(c - a2.s)
    lemma_scaled_term(a2.mantissa as int, (c2 - a2.scale) as nat, d, (c - a2.scale) as nat);
    // a2.m * 10^(c - a2.s) == (a2.m * 10^(a.s - a2.s)) * 10^(c - a.s) == a.m * 10^(c - a.s)
    lemma_scaled_term(
        a2.mantissa as int,
        (a.scale - a2.scale) as nat,
        (c - a.scale) as nat,
        (c - a2.scale) as nat,
    );
}

/// From `rm * pc == s * pr` and `pa * pb == pc * pg`, conclude
/// `rm * (pa * pb) == (s * pg) * pr`: the reverse of
/// [`lemma_cancel_factor`], multiplying the common factor back in.
proof fn lemma_expand_factor(rm: int, s: int, pa: int, pb: int, pc: int, pg: int, pr: int)
    by (nonlinear_arith)
    requires
        pa * pb == pc * pg,
        rm * pc == s * pr,
    ensures
        rm * (pa * pb) == (s * pg) * pr,
{
}

/// A value equal to the canonical sum satisfies the exact-sum relation.
pub proof fn lemma_sum_canonical_converse(r: Decimal, a: Decimal, b: Decimal)
    requires
        a.well_formed(),
        b.well_formed(),
        add_fits(a, b),
        dec_eqv(r, add_spec(a, b)),
    ensures
        is_sum(r, a, b),
{
    let sa = a.scale as nat;
    let sb = b.scale as nat;
    let c = common_scale(a, b);
    let g = (sa + sb - c) as nat;
    let s = sum_mantissa(a, b);
    let t = a.mantissa * pow10(sb) + b.mantissa * pow10(sa);
    lemma_pow10_pos(g);
    lemma_scaled_term(a.mantissa as int, (c - sa) as nat, g, sb);
    lemma_scaled_term(b.mantissa as int, (c - sb) as nat, g, sa);
    vstd::arithmetic::mul::lemma_mul_is_distributive_add_other_way(
        pow10(g),
        scaled_mantissa(a, c),
        scaled_mantissa(b, c),
    );
    assert(s * pow10(g) == t);
    lemma_pow10_add(sa, sb);
    lemma_pow10_add(c, g);
    lemma_expand_factor(
        r.mantissa as int,
        s,
        pow10(sa),
        pow10(sb),
        pow10(c),
        pow10(g),
        pow10(r.scale as nat),
    );
}

/// A value equal to the canonical difference satisfies the
/// exact-difference relation.
pub proof fn lemma_diff_canonical_converse(r: Decimal, a: Decimal, b: Decimal)
    requires
        a.well_formed(),
        b.well_formed(),
        sub_fits(a, b),
        dec_eqv(r, sub_spec(a, b)),
    ensures
        is_diff(r, a, b),
{
    let sa = a.scale as nat;
    let sb = b.scale as nat;
    let c = common_scale(a, b);
    let g = (sa + sb - c) as nat;
    let s = diff_mantissa(a, b);
    let t = a.mantissa * pow10(sb) - b.mantissa * pow10(sa);
    lemma_pow10_pos(g);
    lemma_scaled_term(a.mantissa as int, (c - sa) as nat, g, sb);
    lemma_scaled_term(b.mantissa as int, (c - sb) as nat, g, sa);
    vstd::arithmetic::mul::lemma_mul_is_distributive_sub_other_way(
        pow10(g),
        scaled_mantissa(a, c),
        scaled_mantissa(b, c),
    );
    assert(s * pow10(g) == t);
    lemma_pow10_add(sa, sb);
    lemma_pow10_add(c, g);
    lemma_expand_factor(
        r.mantissa as int,
        s,
        pow10(sa),
        pow10(sb),
        pow10(c),
        pow10(g),
        pow10(r.scale as nat),
    );
}

/// The cancellation at the heart of `(a + b) - b == a`, over plain
/// integers: from the exact-sum and exact-difference relations conclude
/// the cross-multiplied equality of `u` and `a`.
proof fn lemma_add_sub_cancel_core(
    am: int,
    bm: int,
    tm: int,
    um: int,
    pa: int,
    pb: int,
    pt: int,
    pu: int,
)
    requires
        pa > 0,
        pb > 0,
        pt > 0,
        tm * (pa * pb) == (am * pb + bm * pa) * pt,
        um * (pt * pb) == (tm * pb - bm * pt) * pu,
    ensures
        um * pa == am * pu,
{
    // Expand both hypotheses into monomial form.
    assert(tm * pa * pb == am * pb * pt + bm * pa * pt) by (nonlinear_arith)
        requires
            tm * (pa * pb) == (am * pb + bm * pa) * pt,
    ;
    assert(um * pt * pb == tm * pb * pu - bm * pt * pu) by (nonlinear_arith)
        requires
            um * (pt * pb) == (tm * pb - bm * pt) * pu,
    ;
    // Multiply the first by pu, the second by pa, writing every monomial
    // with its factors in one fixed order.
    assert(tm * pa * pb * pu == am * pb * pt * pu + bm * pa * pt * pu) by (nonlinear_arith)
        requires
            tm * pa * pb == am * pb * pt + bm * pa * pt,
    ;
    assert((um * pt * pb) * pa == (tm * pb * pu) * pa - (bm * pt * pu) * pa) by {
        vstd::arithmetic::mul::lemma_mul_is_distributive_sub_other_way(
            pa,
            tm * pb * pu,
            bm * pt * pu,
        );
    }
    assert((um * pt * pb) * pa == um * pa * pb * pt) by (nonlinear_arith);
    assert((tm * pb * pu) * pa == tm * pa * pb * pu) by (nonlinear_arith);
    assert((bm * pt * pu) * pa == bm * pa * pt * pu) by (nonlinear_arith);
    // The `bm` terms cancel against each other.
    assert(um * pa * pb * pt == am * pb * pt * pu);
    // Cancel the positive common factor `pt * pb`.
    assert((um * pa) * (pt * pb) == um * pa * pb * pt) by (nonlinear_arith);
    assert((am * pu) * (pt * pb) == am * pb * pt * pu) by (nonlinear_arith);
    assert((um * pa) * (pt * pb) == (am * pu) * (pt * pb));
    assert(pt * pb > 0) by (nonlinear_arith)
        requires
            pt > 0,
            pb > 0,
    ;
    lemma_cancel_right(um * pa, am * pu, pt * pb);
}

/// Adding `b` and subtracting `b` again cancels, up to value equality:
/// from `is_sum(t, a, b)` and `is_diff(u, t, b)` conclude that `u` and
/// `a` are numerically equal.
pub proof fn lemma_add_sub_cancel_dec(a: Decimal, b: Decimal, t: Decimal, u: Decimal)
    requires
        is_sum(t, a, b),
        is_diff(u, t, b),
    ensures
        dec_eqv(u, a),
{
    lemma_pow10_pos(a.scale as nat);
    lemma_pow10_pos(b.scale as nat);
    lemma_pow10_pos(t.scale as nat);
    lemma_add_sub_cancel_core(
        a.mantissa as int,
        b.mantissa as int,
        t.mantissa as int,
        u.mantissa as int,
        pow10(a.scale as nat),
        pow10(b.scale as nat),
        pow10(t.scale as nat),
        pow10(u.scale as nat),
    );
}

/// Value equality is transitive.
pub proof fn lemma_eqv_trans(a: Decimal, b: Decimal, c: Decimal)
    requires
        dec_eqv(a, b),
        dec_eqv(b, c),
    ensures
        dec_eqv(a, c),
{
    lemma_pow10_pos(a.scale as nat);
    lemma_pow10_pos(b.scale as nat);
    lemma_pow10_pos(c.scale as nat);
    lemma_eqv_trans_helper(
        a.mantissa as int,
        b.mantissa as int,
        c.mantissa as int,
        pow10(a.scale as nat),
        pow10(b.scale as nat),
        pow10(c.scale as nat),
    );
}

/// Transitivity of cross-multiplied equality, over plain integers.
proof fn lemma_eqv_trans_helper(am: int, bm: int, cm: int, pa: int, pb: int, pc: int)
    by (nonlinear_arith)
    requires
        pb > 0,
        am * pb == bm * pa,
        bm * pc == cm * pb,
    ensures
        am * pc == cm * pa,
{
}

/// Relies on `rust_decimal` addition: for well-formed operands whose exact
/// sum still fits in 96 bits at the common scale, the sum is computed
/// exactly (possibly with trailing zeros normalised away, never at a scale
/// above the common scale).
#[verifier::external_body]
pub fn dec_add(a: &Decimal, b: &Decimal) -> (r: Decimal)
    requires
        a.well_formed(),
        b.well_formed(),
        add_fits(*a, *b),
    ensures
        r.well_formed(),
        is_sum(r, *a, *b),
        r.scale <= common_scale(*a, *b),
{
    let x = rust_decimal::Decimal::from_i128_with_scale(a.mantissa, a.scale);
    let y = rust_decimal::Decimal::from_i128_with_scale(b.mantissa, b.scale);
    let s = x + y;
    Decimal { mantissa: s.mantissa(), scale: s.scale() }
}

/// Relies on `rust_decimal` subtraction: the same exactness guarantee as
/// addition, for the exact difference.
#[verifier::external_body]
pub fn dec_sub(a: &Decimal, b: &Decimal) -> (r: Decimal)
    requires
        a.well_formed(),
        b.well_formed(),
        sub_fits(*a, *b),
    ensures
        r.well_formed(),
        is_diff(r, *a, *b),
        r.scale <= common_scale(*a, *b),
{
    let x = rust_decimal::Decimal::from_i128_with_scale(a.mantissa, a.scale);
    let y = rust_decimal::Decimal::from_i128_with_scale(b.mantissa, b.scale);
    let s = x - y;
    Decimal { mantissa: s.mantissa(), scale: s.scale() }
}

/// Relies on `rust_decimal` multiplication: for well-formed operands whose
/// exact product is representable, the product is computed exactly, never
/// at a scale above the sum of the scales.
#[verifier::external_body]
pub fn dec_mul(a: &Decimal, b: &Decimal) -> (r: Decimal)
    requires
        a.well_formed(),
        b.well_formed(),
        mul_fits(*a, *b),
    ensures
        r.well_formed(),
        is_prod(r, *a, *b),
        r.scale <= a.scale + b.scale,
{
    let x = rust_decimal::Decimal::from_i128_with_scale(a.mantissa, a.scale);
    let y = rust_decimal::Decimal::from_i128_with_scale(b.mantissa, b.scale);
    let s = x * y;
    Decimal { mantissa: s.mantissa(), scale: s.scale() }
}

/// Relies on `rust_decimal` division: for a nonzero divisor and a quotient
/// magnitude below `2^95` the division cannot overflow; the rounded result
/// is a function of the two operand representations alone.
#[verifier::external_body]
pub fn dec_div(a: &Decimal, b: &Decimal) -> (r: Decimal)
    requires
        a.well_formed(),
        b.well_formed(),
        b.mantissa != 0,
        div_fits(*a, *b),
    ensures
        r.well_formed(),
        r == div_result(a.mantissa as int, a.scale as nat, b.mantissa as int, b.scale as nat),
{
    let x = rust_decimal::Decimal::from_i128_with_scale(a.mantissa, a.scale);
    let y = rust_decimal::Decimal::from_i128_with_scale(b.mantissa, b.scale);
    let s = x / y;
    Decimal { mantissa: s.mantissa(), scale: s.scale() }
}

/// Relies on `rust_decimal`'s `Display` with an explicit precision:
/// fixed-point rendering of the value, its digits truncated or
/// zero-padded to exactly `precision` fractional digits; a function of
/// the representation and the precision alone. The formatter builds the
/// digits in a 32-byte buffer and panics past it, which [`format_fits`]
/// excludes.
#[verifier::external_body]
pub fn dec_format(d: &Decimal, precision: usize) -> (r: String)
    requires
        d.well_formed(),
        format_fits(*d, precision as nat),
    ensures
        r@ == format_result(d.mantissa as int, d.scale as nat, precision as nat),
{
    let x = rust_decimal::Decimal::from_i128_with_scale(d.mantissa, d.scale);
    format!("{:.*}", precision, x)
}

/// Any precision up to two fits the formatter's buffer for every
/// well-formed value: at most 29 integral digits, a point and two
/// fractional digits.
pub proof fn lemma_format_fits_small(d: Decimal, precision: nat)
    requires
        d.well_formed(),
        precision <= 2,
    ensures
        format_fits(d, precision),
{
    if precision > 0 {
        lemma_pow10_28();
        assert(pow10(29) == 10 * pow10(28));
        lemma_pow10_increases(29, (d.scale + 31 - precision) as nat);
    }
}

} // verus!
