//! Fixed-point scalars: the number type of the whole engine.
//!
//! A `Fixed` is a signed 64-bit count of units of 2^-32. Every operation
//! computes the exact result, rounds it toward zero onto that grid and
//! saturates at the ends of the 64-bit range, so no operation can overflow.

use core::ops::Neg;
use vstd::prelude::*;

verus! {

/// Number of raw units that make up the scalar one (2^32).
pub const SCALE: i64 = 4294967296;

/// The nearest 64-bit value to `x`: `x` itself when it fits, else the end of
/// the range on `x`'s side.
pub open spec fn saturate(x: int) -> i64 {
    if x < i64::MIN {
        i64::MIN
    } else if x > i64::MAX {
        i64::MAX
    } else {
        x as i64
    }
}

/// The quotient of `a` by `b` rounded toward zero (`b` nonzero).
pub open spec fn trunc_div(a: int, b: int) -> int
    recommends
        b != 0,
{
    if a >= 0 && b > 0 {
        a / b
    } else if a >= 0 {
        -(a / (-b))
    } else if b > 0 {
        -((-a) / b)
    } else {
        (-a) / (-b)
    }
}

/// Whether `r` is the integer square root of `n`: the largest `r >= 0` with
/// `r * r <= n`.
pub open spec fn is_isqrt(n: int, r: int) -> bool {
    r >= 0 && r * r <= n && n < (r + 1) * (r + 1)
}

/// The integer square root of `n` (`n >= 0`).
pub open spec fn isqrt(n: int) -> int
    recommends
        n >= 0,
{
    choose|r: int| is_isqrt(n, r)
}

/// The integer square root is unique: whatever satisfies `is_isqrt` is `isqrt`.
pub proof fn lemma_isqrt_unique(n: int, r: int)
    requires
        is_isqrt(n, r),
    ensures
        isqrt(n) == r,
{
    let s = isqrt(n);
    assert(is_isqrt(n, s));
    if s < r {
        assert((s + 1) * (s + 1) <= r * r) by (nonlinear_arith)
            requires
                0 <= s + 1 <= r,
        ;
    } else if r < s {
        assert((r + 1) * (r + 1) <= s * s) by (nonlinear_arith)
            requires
                0 <= r + 1 <= s,
        ;
    }
}

/// Every number that is not negative has an integer square root.
pub proof fn lemma_isqrt_is_root(n: int)
    requires
        n >= 0,
    ensures
        is_isqrt(n, isqrt(n)),
    decreases n,
{
    if n == 0 {
        assert(is_isqrt(0, 0));
    } else {
        lemma_isqrt_is_root(n - 1);
        let r = isqrt(n - 1);
        assert((r + 2) * (r + 2) > (r + 1) * (r + 1)) by (nonlinear_arith)
            requires
                r >= 0,
        ;
        if (r + 1) * (r + 1) <= n {
            assert(is_isqrt(n, r + 1));
        } else {
            assert(r * r <= n);
            assert(is_isqrt(n, r));
        }
    }
}

/// Euclidean division by a negative divisor is the negated division by its
/// magnitude, whenever the dividend is not negative.
proof fn lemma_div_by_negative(a: int, b: int)
    requires
        a >= 0,
        b < 0,
    ensures
        a / b == -(a / (-b)),
{
    let q = a / (-b);
    let r = a % (-b);
    assert(a == (-b) * q + r && 0 <= r < -b) by (nonlinear_arith)
        requires
            q == a / (-b),
            r == a % (-b),
            -b > 0,
    ;
    assert(a == b * (-q) + r) by (nonlinear_arith)
        requires
            a == (-b) * q + r,
    ;
    assert(a / b == -q) by (nonlinear_arith)
        requires
            a == b * (-q) + r,
            0 <= r < -b,
            b < 0,
    ;
}

/// Dividing an exact multiple gives the multiplier back, whatever the signs.
pub proof fn lemma_trunc_div_exact(c: int, b: int)
    requires
        b != 0,
    ensures
        trunc_div(c * b, b) == c,
{
    if b > 0 {
        if c >= 0 {
            assert(c * b >= 0) by (nonlinear_arith)
                requires
                    c >= 0,
                    b > 0,
            ;
            assert((c * b) / b == c) by (nonlinear_arith)
                requires
                    b > 0,
            ;
        } else {
            assert(c * b < 0 && -(c * b) == (-c) * b) by (nonlinear_arith)
                requires
                    c < 0,
                    b > 0,
            ;
            assert(((-c) * b) / b == -c) by (nonlinear_arith)
                requires
                    b > 0,
            ;
        }
    } else {
        if c > 0 {
            assert(c * b < 0 && -(c * b) == c * (-b)) by (nonlinear_arith)
                requires
                    c > 0,
                    b < 0,
            ;
            assert((c * (-b)) / (-b) == c) by (nonlinear_arith)
                requires
                    -b > 0,
            ;
        } else {
            assert(c * b >= 0 && c * b == (-c) * (-b)) by (nonlinear_arith)
                requires
                    c <= 0,
                    b < 0,
            ;
            assert(((-c) * (-b)) / (-b) == -c) by (nonlinear_arith)
                requires
                    -b > 0,
            ;
        }
    }
}

/// A fixed-point number: `raw` counts units of 2^-32.
#[derive(Clone, Copy, Debug, PartialEq, Eq, PartialOrd, Ord, Hash, Structural)]
pub struct Fixed {
    pub raw: i64,
}

/// Narrows a wide intermediate result to 64 bits, saturating.
fn narrow(x: i128) -> (r: i64)
    ensures
        r == saturate(x as int),
{
    if x < i64::MIN as i128 {
        i64::MIN
    } else if x > i64::MAX as i128 {
        i64::MAX
    } else {
        x as i64
    }
}

/// Floor of the square root of `n`, by bisection.
pub fn isqrt_u128(n: u128) -> (r: u128)
    ensures
        is_isqrt(n as int, r as int),
        r < 0x1_0000_0000_0000_0000u128,
{
    let mut lo: u128 = 0;
    let mut hi: u128 = 0x1_0000_0000_0000_0000u128;
    assert(0x1_0000_0000_0000_0000int * 0x1_0000_0000_0000_0000int
        == 0x1_0000_0000_0000_0000_0000_0000_0000_0000int);
    while hi - lo > 1
        invariant
            lo < hi <= 0x1_0000_0000_0000_0000u128,
            lo * lo <= n,
            n < hi * hi,
        decreases hi - lo,
    {
        let mid: u128 = lo + (hi - lo) / 2;
        assert(mid * mid <= 0xffff_ffff_ffff_ffffint * 0xffff_ffff_ffff_ffffint) by (nonlinear_arith)
            requires
                mid <= 0xffff_ffff_ffff_ffffu128,
        ;
        assert(0xffff_ffff_ffff_ffffint * 0xffff_ffff_ffff_ffffint
            == 0xffff_ffff_ffff_fffe_0000_0000_0000_0001int);
        if mid * mid <= n {
            lo = mid;
        } else {
            hi = mid;
        }
    }
    lo
}

impl Fixed {
    /// `self + other`, saturated.
    pub open spec fn spec_add(self, other: Fixed) -> Fixed {
        Fixed { raw: saturate(self.raw + other.raw) }
    }

    /// `self - other`, saturated.
    pub open spec fn spec_sub(self, other: Fixed) -> Fixed {
        Fixed { raw: saturate(self.raw - other.raw) }
    }

    /// `self * other`, rounded toward zero and saturated.
    #[verifier::opaque]
    pub open spec fn spec_mul(self, other: Fixed) -> Fixed {
        Fixed { raw: saturate(trunc_div(self.raw * other.raw, SCALE as int)) }
    }

    /// `self / other`, rounded toward zero and saturated (`other` nonzero).
    #[verifier::opaque]
    pub open spec fn spec_div(self, other: Fixed) -> Fixed
        recommends
            other.raw != 0,
    {
        Fixed { raw: saturate(trunc_div(self.raw * SCALE, other.raw as int)) }
    }

    /// `-self`, saturated.
    pub open spec fn spec_neg(self) -> Fixed {
        Fixed { raw: saturate(-self.raw) }
    }

    /// Whether `self + other` fits: the sum is exact, nothing is cut off.
    pub open spec fn spec_sum_fits(self, other: Fixed) -> bool {
        i64::MIN <= self.raw + other.raw <= i64::MAX
    }

    /// Whether `self * other` is exact: the product falls on the grid and
    /// fits, so nothing is rounded away and nothing is cut off.
    pub open spec fn spec_product_exact(self, other: Fixed) -> bool {
        &&& (self.raw * other.raw) % (SCALE as int) == 0
        &&& i64::MIN <= (self.raw * other.raw) / (SCALE as int) <= i64::MAX
    }

    /// Whether `self * other` fits: the product may be rounded, but is not
    /// cut off.
    pub open spec fn spec_product_fits(self, other: Fixed) -> bool {
        i64::MIN <= trunc_div(self.raw * other.raw, SCALE as int) <= i64::MAX
    }

    /// The magnitude of `self`, saturated.
    pub open spec fn spec_abs(self) -> Fixed {
        if self.raw < 0 {
            self.spec_neg()
        } else {
            self
        }
    }

    /// The square root of `self`, rounded down (`self` not negative).
    #[verifier::opaque]
    pub open spec fn spec_sqrt(self) -> Fixed
        recommends
            self.raw >= 0,
    {
        Fixed { raw: isqrt(self.raw * SCALE) as i64 }
    }

    /// The scalar one half.
    pub open spec fn spec_half() -> Fixed {
        Fixed { raw: 0x8000_0000 }
    }

    /// The whole number `n` as a scalar (`n` within 32 bits).
    pub open spec fn spec_from_int(n: int) -> Fixed
        recommends
            -0x8000_0000 <= n <= 0x7fff_ffff,
    {
        Fixed { raw: (n * SCALE) as i64 }
    }

    /// The count `n` as a scalar, saturated.
    pub open spec fn spec_from_count(n: nat) -> Fixed {
        Fixed { raw: saturate(n * SCALE) }
    }

    /// The whole part of the scalar as a byte: zero for what is below zero,
    /// 255 for what is above 255.
    pub open spec fn spec_to_byte(self) -> u8 {
        if self.raw <= 0 {
            0
        } else if self.raw >= 255 * SCALE {
            255
        } else {
            (self.raw / SCALE) as u8
        }
    }

    /// The count `n` as a scalar; a count too large for a scalar gives the
    /// largest scalar.
    pub fn from_count(n: usize) -> (r: Fixed)
        ensures
            r == Fixed::spec_from_count(n as nat),
    {
        if n >= 0x8000_0000 {
            assert(n * SCALE > i64::MAX) by (nonlinear_arith)
                requires
                    n >= 0x8000_0000,
                    SCALE == 0x1_0000_0000,
            ;
            Fixed { raw: i64::MAX }
        } else {
            assert(0 <= n * SCALE <= i64::MAX) by (nonlinear_arith)
                requires
                    0 <= n < 0x8000_0000,
                    SCALE == 0x1_0000_0000,
            ;
            Fixed { raw: n as i64 * SCALE }
        }
    }

    /// The whole part of the scalar, kept within the range of a byte.
    pub fn to_byte(self) -> (b: u8)
        ensures
            b == self.spec_to_byte(),
    {
        if self.raw <= 0 {
            0
        } else if self.raw >= 255 * SCALE {
            255
        } else {
            (self.raw / SCALE) as u8
        }
    }

    /// The scalar with the given raw count of units of 2^-32.
    pub fn from_raw(raw: i64) -> (r: Fixed)
        ensures
            r.raw == raw,
    {
        Fixed { raw }
    }

    /// The whole number `n` as a scalar; exact for every `n`.
    pub fn from_int(n: i32) -> (r: Fixed)
        ensures
            r == Fixed::spec_from_int(n as int),
            r.raw == n * SCALE,
    {
        assert(i64::MIN <= n * SCALE <= i64::MAX) by (nonlinear_arith)
            requires
                -0x8000_0000 <= n <= 0x7fff_ffff,
                SCALE == 0x1_0000_0000,
        ;
        Fixed { raw: n as i64 * SCALE }
    }

    /// The scalar zero.
    pub fn zero() -> (r: Fixed)
        ensures
            r.raw == 0,
    {
        Fixed { raw: 0 }
    }

    /// The scalar one.
    pub fn one() -> (r: Fixed)
        ensures
            r.raw == SCALE,
    {
        Fixed { raw: SCALE }
    }

    /// The scalar one half.
    pub fn half() -> (r: Fixed)
        ensures
            r == Fixed::spec_half(),
            r.raw * 2 == SCALE,
    {
        Fixed { raw: SCALE / 2 }
    }

    /// The magnitude of the scalar.
    pub fn abs(self) -> (r: Fixed)
        ensures
            r == self.spec_abs(),
            r.raw >= 0,
    {
        if self.raw < 0 {
            self.neg()
        } else {
            self
        }
    }

    /// The square root of a scalar that is not negative, rounded down to the
    /// grid: the result `r` is the largest with `r * r <= self`.
    pub fn sqrt(self) -> (r: Fixed)
        requires
            self.raw >= 0,
        ensures
            r == self.spec_sqrt(),
            is_isqrt(self.raw * SCALE, r.raw as int),
    {
        assert(0 <= self.raw * SCALE < 0x1_0000_0000_0000_0000_0000_0000) by (nonlinear_arith)
            requires
                0 <= self.raw <= 0x7fff_ffff_ffff_ffff,
                SCALE == 0x1_0000_0000,
        ;
        let n: u128 = self.raw as u128 * (SCALE as u128);
        let root: u128 = isqrt_u128(n);
        proof {
            reveal(Fixed::spec_sqrt);
            lemma_isqrt_unique(self.raw * SCALE, root as int);
            if root >= 0x1_0000_0000_0000u128 {
                assert(root * root >= 0x1_0000_0000_0000int * 0x1_0000_0000_0000int)
                    by (nonlinear_arith)
                    requires
                        root >= 0x1_0000_0000_0000u128,
                ;
            }
        }
        Fixed { raw: root as i64 }
    }
}

impl core::ops::Add<Fixed> for Fixed {
    type Output = Fixed;

    /// The sum, cut off at the ends of the range.
    fn add(self, other: Fixed) -> (r: Fixed)
        ensures
            r == self.spec_add(other),
    {
        Fixed { raw: narrow(self.raw as i128 + other.raw as i128) }
    }
}

impl vstd::std_specs::ops::AddSpecImpl<Fixed> for Fixed {
    open spec fn obeys_add_spec() -> bool {
        true
    }

    open spec fn add_req(self, other: Fixed) -> bool {
        true
    }

    open spec fn add_spec(self, other: Fixed) -> Fixed {
        self.spec_add(other)
    }
}

impl core::ops::Sub<Fixed> for Fixed {
    type Output = Fixed;

    /// The difference, cut off at the ends of the range.
    fn sub(self, other: Fixed) -> (r: Fixed)
        ensures
            r == self.spec_sub(other),
    {
        Fixed { raw: narrow(self.raw as i128 - other.raw as i128) }
    }
}

impl vstd::std_specs::ops::SubSpecImpl<Fixed> for Fixed {
    open spec fn obeys_sub_spec() -> bool {
        true
    }

    open spec fn sub_req(self, other: Fixed) -> bool {
        true
    }

    open spec fn sub_spec(self, other: Fixed) -> Fixed {
        self.spec_sub(other)
    }
}

impl core::ops::Mul<Fixed> for Fixed {
    type Output = Fixed;

    /// The product, rounded toward zero and cut off at the ends of the
    /// range.
    fn mul(self, other: Fixed) -> (r: Fixed)
        ensures
            r == self.spec_mul(other),
    {
        assert(-0x4000_0000_0000_0000_0000_0000_0000_0000 <= self.raw * other.raw
            <= 0x4000_0000_0000_0000_0000_0000_0000_0000) by (nonlinear_arith)
            requires
                -0x8000_0000_0000_0000 <= self.raw <= 0x7fff_ffff_ffff_ffff,
                -0x8000_0000_0000_0000 <= other.raw <= 0x7fff_ffff_ffff_ffff,
        ;
        let wide: i128 = self.raw as i128 * other.raw as i128;
        proof {
            reveal(Fixed::spec_mul);
        }
        Fixed { raw: narrow(wide / (SCALE as i128)) }
    }
}

impl vstd::std_specs::ops::MulSpecImpl<Fixed> for Fixed {
    open spec fn obeys_mul_spec() -> bool {
        true
    }

    open spec fn mul_req(self, other: Fixed) -> bool {
        true
    }

    open spec fn mul_spec(self, other: Fixed) -> Fixed {
        self.spec_mul(other)
    }
}

impl core::ops::Div<Fixed> for Fixed {
    type Output = Fixed;

    /// The quotient by a scalar that is not zero, rounded toward zero and
    /// cut off at the ends of the range.
    fn div(self, other: Fixed) -> (r: Fixed)
        ensures
            r == self.spec_div(other),
    {
        assert(-0x8000_0000_0000_0000_0000_0000 <= self.raw * SCALE
            <= 0x8000_0000_0000_0000_0000_0000) by (nonlinear_arith)
            requires
                -0x8000_0000_0000_0000 <= self.raw <= 0x7fff_ffff_ffff_ffff,
                SCALE == 0x1_0000_0000,
        ;
        let wide: i128 = self.raw as i128 * (SCALE as i128);
        proof {
            reveal(Fixed::spec_div);
            if other.raw < 0 {
                if wide >= 0 {
                    lemma_div_by_negative(wide as int, other.raw as int);
                } else {
                    lemma_div_by_negative(-wide, other.raw as int);
                }
            }
        }
        Fixed { raw: narrow(wide / (other.raw as i128)) }
    }
}

impl vstd::std_specs::ops::DivSpecImpl<Fixed> for Fixed {
    open spec fn obeys_div_spec() -> bool {
        true
    }

    open spec fn div_req(self, other: Fixed) -> bool {
        other.raw != 0
    }

    open spec fn div_spec(self, other: Fixed) -> Fixed {
        self.spec_div(other)
    }
}

impl Neg for Fixed {
    type Output = Fixed;

    /// The negation; that of the least scalar is the greatest.
    fn neg(self) -> (r: Fixed)
        ensures
            r == self.spec_neg(),
    {
        Fixed { raw: narrow(-(self.raw as i128)) }
    }
}

impl vstd::std_specs::ops::NegSpecImpl for Fixed {
    open spec fn obeys_neg_spec() -> bool {
        true
    }

    open spec fn neg_req(self) -> bool {
        true
    }

    open spec fn neg_spec(self) -> Fixed {
        self.spec_neg()
    }
}

/// A product that falls on the grid and fits is exact: nothing is rounded
/// away and nothing is cut off.
pub proof fn lemma_mul_exact(a: Fixed, b: Fixed, c: int)
    requires
        a.raw * b.raw == c * SCALE,
        i64::MIN <= c <= i64::MAX,
    ensures
        a.spec_mul(b).raw == c,
{
    reveal(Fixed::spec_mul);
    lemma_trunc_div_exact(c, SCALE as int);
}

/// A quotient that falls on the grid and fits is exact.
pub proof fn lemma_div_exact(a: Fixed, b: Fixed, c: int)
    requires
        b.raw != 0,
        a.raw * SCALE == c * b.raw,
        i64::MIN <= c <= i64::MAX,
    ensures
        a.spec_div(b).raw == c,
{
    reveal(Fixed::spec_div);
    lemma_trunc_div_exact(c, b.raw as int);
}

/// The square root of a perfect square is exact.
pub proof fn lemma_sqrt_exact(a: Fixed, r: int)
    requires
        0 <= r <= i64::MAX,
        a.raw * SCALE == r * r,
    ensures
        a.spec_sqrt().raw == r,
{
    reveal(Fixed::spec_sqrt);
    assert(r * r < (r + 1) * (r + 1)) by (nonlinear_arith)
        requires
            r >= 0,
    ;
    lemma_isqrt_unique(a.raw * SCALE, r);
}

/// Multiplication distributes over a sum that fits when both products are
/// exact.
pub proof fn lemma_mul_distributes(s: Fixed, a: Fixed, b: Fixed)
    requires
        a.spec_sum_fits(b),
        s.spec_product_exact(a),
        s.spec_product_exact(b),
    ensures
        s.spec_mul(a.spec_add(b)) == s.spec_mul(a).spec_add(s.spec_mul(b)),
{
    let scale = SCALE as int;
    let qa = (s.raw * a.raw) / scale;
    let qb = (s.raw * b.raw) / scale;
    assert(s.raw * a.raw == qa * scale) by (nonlinear_arith)
        requires
            (s.raw * a.raw) % scale == 0,
            qa == (s.raw * a.raw) / scale,
            scale > 0,
    ;
    assert(s.raw * b.raw == qb * scale) by (nonlinear_arith)
        requires
            (s.raw * b.raw) % scale == 0,
            qb == (s.raw * b.raw) / scale,
            scale > 0,
    ;
    lemma_mul_exact(s, a, qa);
    lemma_mul_exact(s, b, qb);
    assert(s.raw * (a.raw + b.raw) == (qa + qb) * scale) by (nonlinear_arith)
        requires
            s.raw * a.raw == qa * scale,
            s.raw * b.raw == qb * scale,
    ;
    reveal(Fixed::spec_mul);
    lemma_trunc_div_exact(qa + qb, scale);
}

/// Whatever the factors, multiplication distributes over a sum up to one
/// unit, as long as the sum and the three products fit: rounding each
/// product by itself loses less than one unit each.
pub proof fn lemma_mul_nearly_distributes(s: Fixed, a: Fixed, b: Fixed)
    requires
        a.spec_sum_fits(b),
        s.spec_product_fits(a),
        s.spec_product_fits(b),
        s.spec_product_fits(a.spec_add(b)),
    ensures
        -1 <= s.spec_mul(a.spec_add(b)).raw - (s.spec_mul(a).raw + s.spec_mul(b).raw) <= 1,
{
    reveal(Fixed::spec_mul);
    let p = s.raw * a.raw;
    let q = s.raw * b.raw;
    assert(s.raw * (a.raw + b.raw) == p + q) by (nonlinear_arith)
        requires
            p == s.raw * a.raw,
            q == s.raw * b.raw,
    ;
    lemma_trunc_div_nearly_adds(p, q);
}

/// The quotients of two numbers by the scale, each rounded toward zero, add
/// up to the rounded quotient of their sum, up to one.
pub proof fn lemma_trunc_div_nearly_adds(p: int, q: int)
    ensures
        -1 <= trunc_div(p + q, SCALE as int) - (trunc_div(p, SCALE as int) + trunc_div(
            q,
            SCALE as int,
        )) <= 1,
{
}

} // verus!
