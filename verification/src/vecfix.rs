//! Fixed-point three-component vectors. One world unit is `MICRO`
//! micro-units, every coordinate is an `i64`, and every operation the
//! mover needs — scaled multiplication rounded toward zero, dot
//! products, the floor of a Euclidean norm — is exact integer
//! arithmetic with a spec-level definition.

use vstd::prelude::*;
use vstd::arithmetic::div_mod::{
    lemma_div_is_ordered, lemma_div_multiples_vanish, lemma_div_pos_is_pos,
};
use vstd::arithmetic::mul::lemma_mul_upper_bound;

verus! {

/// One world unit, in micro-units.
pub const MICRO: i64 = 1_000_000;

/// A vector in fixed-point micro-units.
#[derive(Clone, Copy, PartialEq, Eq, Structural, Debug)]
pub struct Vec3Fix {
    pub x: i64,
    pub y: i64,
    pub z: i64,
}

/// The mathematical value of a `Vec3Fix`: its components as unbounded
/// integers.
pub struct Vec3Model {
    pub x: int,
    pub y: int,
    pub z: int,
}

impl View for Vec3Fix {
    type V = Vec3Model;

    open spec fn view(&self) -> Vec3Model {
        Vec3Model { x: self.x as int, y: self.y as int, z: self.z as int }
    }
}

pub open spec fn v_zero() -> Vec3Model {
    Vec3Model { x: 0, y: 0, z: 0 }
}

pub open spec fn v_add(a: Vec3Model, b: Vec3Model) -> Vec3Model {
    Vec3Model { x: a.x + b.x, y: a.y + b.y, z: a.z + b.z }
}

pub open spec fn v_sub(a: Vec3Model, b: Vec3Model) -> Vec3Model {
    Vec3Model { x: a.x - b.x, y: a.y - b.y, z: a.z - b.z }
}

/// Every component within `b` of zero.
pub open spec fn v_bounded(a: Vec3Model, b: int) -> bool {
    &&& -b <= a.x <= b
    &&& -b <= a.y <= b
    &&& -b <= a.z <= b
}

pub open spec fn dot3(a: Vec3Model, b: Vec3Model) -> int {
    a.x * b.x + a.y * b.y + a.z * b.z
}

pub open spec fn norm_sq(a: Vec3Model) -> int {
    dot3(a, a)
}

/// Integer division rounded toward zero, as the machine divides.
pub open spec fn div_tz(a: int, den: int) -> int {
    if a >= 0 {
        a / den
    } else {
        -((-a) / den)
    }
}

/// `x * num / den` rounded toward zero.
pub open spec fn mul_div_tz(x: int, num: int, den: int) -> int {
    div_tz(x * num, den)
}

/// Each component scaled by `num / den`, rounded toward zero.
pub open spec fn v_scale_div(a: Vec3Model, num: int, den: int) -> Vec3Model {
    Vec3Model {
        x: mul_div_tz(a.x, num, den),
        y: mul_div_tz(a.y, num, den),
        z: mul_div_tz(a.z, num, den),
    }
}

/// The floor of the square root of a non-negative integer.
pub open spec fn sqrt_floor(n: int) -> int
    decreases n,
{
    if n < 1 {
        0
    } else {
        let p = sqrt_floor(n - 1);
        if (p + 1) * (p + 1) <= n {
            p + 1
        } else {
            p
        }
    }
}

/// The length of a vector, rounded down to whole micro-units.
pub open spec fn v_norm(a: Vec3Model) -> int {
    sqrt_floor(norm_sq(a))
}

pub proof fn lemma_sqrt_floor_bounds(n: int)
    requires
        n >= 0,
    ensures
        sqrt_floor(n) >= 0,
        sqrt_floor(n) * sqrt_floor(n) <= n,
        n < (sqrt_floor(n) + 1) * (sqrt_floor(n) + 1),
    decreases n,
{
    if n >= 1 {
        lemma_sqrt_floor_bounds(n - 1);
        let p = sqrt_floor(n - 1);
        if (p + 1) * (p + 1) <= n {
            assert(n < (p + 2) * (p + 2)) by (nonlinear_arith)
                requires
                    p >= 0,
                    n - 1 < (p + 1) * (p + 1),
            ;
        }
    }
}

pub proof fn lemma_sqrt_floor_unique(n: int, r: int)
    requires
        0 <= r,
        r * r <= n,
        n < (r + 1) * (r + 1),
    ensures
        r == sqrt_floor(n),
{
    lemma_sqrt_floor_bounds(n);
    let s = sqrt_floor(n);
    assert(r == s) by (nonlinear_arith)
        requires
            0 <= r,
            0 <= s,
            r * r <= n,
            s * s <= n,
            n < (r + 1) * (r + 1),
            n < (s + 1) * (s + 1),
    ;
}

pub proof fn lemma_sqrt_floor_le(n: int, b: int)
    requires
        0 <= n,
        0 <= b,
        n < (b + 1) * (b + 1),
    ensures
        sqrt_floor(n) <= b,
{
    lemma_sqrt_floor_bounds(n);
    let s = sqrt_floor(n);
    assert(s <= b) by (nonlinear_arith)
        requires
            0 <= s,
            0 <= b,
            s * s <= n,
            n < (b + 1) * (b + 1),
    ;
}

pub proof fn lemma_sqrt_floor_pos(n: int)
    requires
        n >= 1,
    ensures
        sqrt_floor(n) >= 1,
{
    lemma_sqrt_floor_bounds(n);
    let s = sqrt_floor(n);
    if s == 0 {
        assert((s + 1) * (s + 1) == 1) by (nonlinear_arith)
            requires
                s == 0,
        ;
    }
}

pub proof fn lemma_norm_sq_nonneg(a: Vec3Model)
    ensures
        norm_sq(a) >= 0,
        a == v_zero() ==> norm_sq(a) == 0,
        a != v_zero() ==> norm_sq(a) >= 1,
{
    assert(a.x * a.x >= 0 && a.y * a.y >= 0 && a.z * a.z >= 0) by (nonlinear_arith);
    if a != v_zero() {
        assert(norm_sq(a) >= 1) by (nonlinear_arith)
            requires
                !(a.x == 0 && a.y == 0 && a.z == 0),
        ;
    }
}

/// A component never exceeds the floored norm: components are whole
/// micro-units, so each is at most the vector's length rounded down.
pub proof fn lemma_component_le_norm(a: Vec3Model)
    ensures
        v_bounded(a, v_norm(a)),
{
    lemma_norm_sq_nonneg(a);
    lemma_sqrt_floor_bounds(norm_sq(a));
    let s = v_norm(a);
    assert(-s <= a.x <= s && -s <= a.y <= s && -s <= a.z <= s) by (nonlinear_arith)
        requires
            s >= 0,
            s * s <= norm_sq(a),
            norm_sq(a) == a.x * a.x + a.y * a.y + a.z * a.z,
            norm_sq(a) < (s + 1) * (s + 1),
    ;
}

/// If every component fits in `b`, the floored norm fits in `2 * b`.
pub proof fn lemma_norm_le(a: Vec3Model, b: int)
    requires
        v_bounded(a, b),
        b >= 0,
    ensures
        0 <= v_norm(a) <= 2 * b,
{
    lemma_norm_sq_nonneg(a);
    assert(norm_sq(a) < (2 * b + 1) * (2 * b + 1)) by (nonlinear_arith)
        requires
            v_bounded(a, b),
            b >= 0,
            norm_sq(a) == a.x * a.x + a.y * a.y + a.z * a.z,
    ;
    lemma_sqrt_floor_le(norm_sq(a), 2 * b);
    lemma_sqrt_floor_bounds(norm_sq(a));
}

/// Truncating division shrinks: `|a| <= q * den` gives `|a / den| <= q`.
pub proof fn lemma_div_tz_bound(a: int, den: int, q: int)
    requires
        den >= 1,
        q >= 0,
        -(q * den) <= a <= q * den,
    ensures
        -q <= div_tz(a, den) <= q,
{
    assert(q * den == den * q) by (nonlinear_arith);
    if a >= 0 {
        lemma_div_is_ordered(a, q * den, den);
        lemma_div_multiples_vanish(q, den);
        lemma_div_pos_is_pos(a, den);
    } else {
        lemma_div_is_ordered(-a, q * den, den);
        lemma_div_multiples_vanish(q, den);
        lemma_div_pos_is_pos(-a, den);
    }
}

/// `|x| <= bx` and `0 <= num <= bn` bound `x * num / den` by
/// `bx * bn / den`.
pub proof fn lemma_mul_div_tz_bound(x: int, num: int, den: int, bx: int, bn: int)
    requires
        den >= 1,
        0 <= num <= bn,
        0 <= bx,
        -bx <= x <= bx,
    ensures
        -((bx * bn) / den) <= mul_div_tz(x, num, den) <= (bx * bn) / den,
{
    let q = (bx * bn) / den;
    assert(bx * bn >= 0) by (nonlinear_arith)
        requires
            bx >= 0,
            bn >= 0,
    ;
    lemma_div_pos_is_pos(bx * bn, den);
    if x >= 0 {
        lemma_mul_upper_bound(x, bx, num, bn);
        assert(x * num >= 0) by (nonlinear_arith)
            requires
                x >= 0,
                num >= 0,
        ;
        lemma_div_is_ordered(x * num, bx * bn, den);
        lemma_div_pos_is_pos(x * num, den);
        assert((x * num) / den <= (bx * bn) / den);
        assert(q * den <= bx * bn || q * den > bx * bn);
        assert(mul_div_tz(x, num, den) == (x * num) / den);
        assert(-q <= 0);
    } else {
        lemma_mul_upper_bound(-x, bx, num, bn);
        assert((-x) * num >= 0) by (nonlinear_arith)
            requires
                -x >= 0,
                num >= 0,
        ;
        assert(x * num == -((-x) * num)) by (nonlinear_arith);
        lemma_div_is_ordered((-x) * num, bx * bn, den);
        lemma_div_pos_is_pos((-x) * num, den);
    }
}

/// Scaling by `num / den` with `num <= den` never grows a component.
pub proof fn lemma_mul_div_tz_le(x: int, num: int, den: int, bx: int)
    requires
        den >= 1,
        0 <= num <= den,
        0 <= bx,
        -bx <= x <= bx,
    ensures
        -bx <= mul_div_tz(x, num, den) <= bx,
{
    lemma_mul_div_tz_bound(x, num, den, bx, den);
    lemma_div_multiples_vanish(bx, den);
    assert(bx * den == den * bx) by (nonlinear_arith);
}

/// Scaling a vector no longer than `den` by `num / den` never moves a
/// component farther than `num`.
pub proof fn lemma_mul_div_tz_num_bound(x: int, num: int, den: int)
    requires
        den >= 1,
        num >= 0,
        -den <= x <= den,
    ensures
        -num <= mul_div_tz(x, num, den) <= num,
{
    lemma_mul_div_tz_bound(x, num, den, den, num);
    lemma_div_multiples_vanish(num, den);
    assert(den * num == num * den) by (nonlinear_arith);
}

/// Scaling by `den / den` is the identity.
pub proof fn lemma_mul_div_tz_exact(x: int, den: int)
    requires
        den >= 1,
    ensures
        mul_div_tz(x, den, den) == x,
{
    if x >= 0 {
        lemma_div_multiples_vanish(x, den);
        assert(x * den == den * x) by (nonlinear_arith);
    } else {
        lemma_div_multiples_vanish(-x, den);
        assert((-x) * den == den * -x) by (nonlinear_arith);
        assert(x * den == -((-x) * den)) by (nonlinear_arith);
    }
}

pub proof fn lemma_dot3_bound(a: Vec3Model, b: Vec3Model, ba: int, bb: int)
    requires
        v_bounded(a, ba),
        v_bounded(b, bb),
        ba >= 0,
        bb >= 0,
    ensures
        -(3 * (ba * bb)) <= dot3(a, b) <= 3 * (ba * bb),
{
    assert(-(ba * bb) <= a.x * b.x <= ba * bb) by (nonlinear_arith)
        requires
            -ba <= a.x <= ba,
            -bb <= b.x <= bb,
            ba >= 0,
            bb >= 0,
    ;
    assert(-(ba * bb) <= a.y * b.y <= ba * bb) by (nonlinear_arith)
        requires
            -ba <= a.y <= ba,
            -bb <= b.y <= bb,
            ba >= 0,
            bb >= 0,
    ;
    assert(-(ba * bb) <= a.z * b.z <= ba * bb) by (nonlinear_arith)
        requires
            -ba <= a.z <= ba,
            -bb <= b.z <= bb,
            ba >= 0,
            bb >= 0,
    ;
}

impl Vec3Fix {
    pub fn new(x: i64, y: i64, z: i64) -> (v: Vec3Fix)
        ensures
            v@ == (Vec3Model { x: x as int, y: y as int, z: z as int }),
    {
        Vec3Fix { x, y, z }
    }

    pub fn zero() -> (v: Vec3Fix)
        ensures
            v@ == v_zero(),
    {
        Vec3Fix { x: 0, y: 0, z: 0 }
    }

    pub fn is_zero(&self) -> (z: bool)
        ensures
            z == (self@ == v_zero()),
    {
        self.x == 0 && self.y == 0 && self.z == 0
    }

    pub fn plus(&self, other: &Vec3Fix) -> (v: Vec3Fix)
        requires
            -0x4000_0000_0000_0000 <= self@.x + other@.x <= 0x4000_0000_0000_0000,
            -0x4000_0000_0000_0000 <= self@.y + other@.y <= 0x4000_0000_0000_0000,
            -0x4000_0000_0000_0000 <= self@.z + other@.z <= 0x4000_0000_0000_0000,
        ensures
            v@ == v_add(self@, other@),
    {
        Vec3Fix { x: self.x + other.x, y: self.y + other.y, z: self.z + other.z }
    }
}

/// `x * num / den` rounded toward zero, computed without overflow in
/// 128-bit magnitudes.
pub fn mul_div(x: i64, num: i64, den: i64) -> (r: i64)
    requires
        den >= 1,
        num >= 0,
        x > i64::MIN,
        -0x7fff_ffff_ffff_ffff <= mul_div_tz(x as int, num as int, den as int)
            <= 0x7fff_ffff_ffff_ffff,
    ensures
        r as int == mul_div_tz(x as int, num as int, den as int),
{
    if x >= 0 {
        proof {
            assert((x as int) * (num as int) < 0x1_0000_0000_0000_0000_0000_0000_0000_0000)
                by (nonlinear_arith)
                requires
                    0 <= (x as int) < 0x8000_0000_0000_0000,
                    0 <= (num as int) < 0x8000_0000_0000_0000,
            ;
            assert((x as int) * (num as int) >= 0) by (nonlinear_arith)
                requires
                    x as int >= 0,
                    num as int >= 0,
            ;
        }
        let p: u128 = (x as u128) * (num as u128);
        let q: u128 = p / (den as u128);
        q as i64
    } else {
        let nx: i64 = -x;
        proof {
            assert((nx as int) * (num as int) < 0x1_0000_0000_0000_0000_0000_0000_0000_0000)
                by (nonlinear_arith)
                requires
                    0 <= (nx as int) < 0x8000_0000_0000_0000,
                    0 <= (num as int) < 0x8000_0000_0000_0000,
            ;
            assert((nx as int) * (num as int) >= 0) by (nonlinear_arith)
                requires
                    nx as int >= 0,
                    num as int >= 0,
            ;
            assert((x as int) * (num as int) == -((nx as int) * (num as int)))
                by (nonlinear_arith)
                requires
                    nx as int == -(x as int),
            ;
        }
        let p: u128 = (nx as u128) * (num as u128);
        let q: u128 = p / (den as u128);
        proof {
            assert(mul_div_tz(x as int, num as int, den as int) == -(q as int));
        }
        -(q as i64)
    }
}

/// Truncating division of a wide intermediate by a positive divisor.
pub fn div_trunc(a: i128, den: u64) -> (r: i128)
    requires
        den >= 1,
        a > i128::MIN,
    ensures
        r as int == div_tz(a as int, den as int),
{
    if a >= 0 {
        proof {
            vstd::arithmetic::div_mod::lemma_div_is_ordered_by_denominator(
                a as int, 1, den as int);
            lemma_div_pos_is_pos(a as int, den as int);
        }
        let q: u128 = (a as u128) / (den as u128);
        q as i128
    } else {
        let na: i128 = -a;
        proof {
            vstd::arithmetic::div_mod::lemma_div_is_ordered_by_denominator(
                na as int, 1, den as int);
            lemma_div_pos_is_pos(na as int, den as int);
        }
        let q: u128 = (na as u128) / (den as u128);
        -(q as i128)
    }
}

/// The dot product, exact in a 128-bit accumulator.
pub fn dot(a: &Vec3Fix, b: &Vec3Fix) -> (r: i128)
    requires
        v_bounded(a@, 0x4000_0000_0000_0000),
        v_bounded(b@, 0x4000_0000_0000_0000),
    ensures
        r as int == dot3(a@, b@),
{
    proof {
        lemma_dot3_bound(a@, b@, 0x4000_0000_0000_0000, 0x4000_0000_0000_0000);
        assert(-(a.x as int) * (b.x as int) <= 0x4000_0000_0000_0000 * 0x4000_0000_0000_0000
            && (a.x as int) * (b.x as int) <= 0x4000_0000_0000_0000 * 0x4000_0000_0000_0000)
            by (nonlinear_arith)
            requires
                -0x4000_0000_0000_0000 <= a.x as int <= 0x4000_0000_0000_0000,
                -0x4000_0000_0000_0000 <= b.x as int <= 0x4000_0000_0000_0000,
        ;
        assert(-(a.y as int) * (b.y as int) <= 0x4000_0000_0000_0000 * 0x4000_0000_0000_0000
            && (a.y as int) * (b.y as int) <= 0x4000_0000_0000_0000 * 0x4000_0000_0000_0000)
            by (nonlinear_arith)
            requires
                -0x4000_0000_0000_0000 <= a.y as int <= 0x4000_0000_0000_0000,
                -0x4000_0000_0000_0000 <= b.y as int <= 0x4000_0000_0000_0000,
        ;
        assert(-(a.z as int) * (b.z as int) <= 0x4000_0000_0000_0000 * 0x4000_0000_0000_0000
            && (a.z as int) * (b.z as int) <= 0x4000_0000_0000_0000 * 0x4000_0000_0000_0000)
            by (nonlinear_arith)
            requires
                -0x4000_0000_0000_0000 <= a.z as int <= 0x4000_0000_0000_0000,
                -0x4000_0000_0000_0000 <= b.z as int <= 0x4000_0000_0000_0000,
        ;
    }
    (a.x as i128) * (b.x as i128) + (a.y as i128) * (b.y as i128) + (a.z as i128) * (b.z as i128)
}

/// The floor of the square root, by binary search on the answer.
pub fn isqrt(n: u128) -> (r: u64)
    ensures
        r as int == sqrt_floor(n as int),
        (r as int) * (r as int) <= n as int,
        (n as int) < (r as int + 1) * (r as int + 1),
{
    let mut lo: u128 = 0;
    let mut hi: u128 = if n < 0x1_0000_0000_0000_0000u128 {
        n + 1
    } else {
        0x1_0000_0000_0000_0000u128
    };
    proof {
        if n < 0x1_0000_0000_0000_0000u128 {
            assert((n as int + 1) * (n as int + 1) > n as int) by (nonlinear_arith)
                requires
                    n as int >= 0,
            ;
        }
    }
    while lo + 1 < hi
        invariant
            (lo as int) * (lo as int) <= n as int,
            (hi as int) * (hi as int) > n as int,
            lo < hi,
            hi <= 0x1_0000_0000_0000_0000u128,
        decreases hi - lo,
    {
        let mid: u128 = lo + (hi - lo) / 2;
        proof {
            assert(lo < mid < hi);
            assert((mid as int) * (mid as int) < 0x1_0000_0000_0000_0000_0000_0000_0000_0000)
                by (nonlinear_arith)
                requires
                    0 <= mid as int <= 0xffff_ffff_ffff_ffff,
            ;
        }
        if mid * mid <= n {
            lo = mid;
        } else {
            hi = mid;
        }
    }
    proof {
        assert(hi == lo + 1);
        lemma_sqrt_floor_unique(n as int, lo as int);
    }
    lo as u64
}

/// The floored length of a vector.
pub fn norm(v: &Vec3Fix) -> (r: i64)
    requires
        v_bounded(v@, 0x4_0000_0000_0000),
    ensures
        r as int == v_norm(v@),
        0 <= r,
    {
    proof {
        lemma_norm_sq_nonneg(v@);
        lemma_norm_le(v@, 0x4_0000_0000_0000);
        assert((v.x as int) * (v.x as int) <= 0x4_0000_0000_0000 * 0x4_0000_0000_0000)
            by (nonlinear_arith)
            requires
                -0x4_0000_0000_0000 <= v.x as int <= 0x4_0000_0000_0000,
        ;
        assert((v.y as int) * (v.y as int) <= 0x4_0000_0000_0000 * 0x4_0000_0000_0000)
            by (nonlinear_arith)
            requires
                -0x4_0000_0000_0000 <= v.y as int <= 0x4_0000_0000_0000,
        ;
        assert((v.z as int) * (v.z as int) <= 0x4_0000_0000_0000 * 0x4_0000_0000_0000)
            by (nonlinear_arith)
            requires
                -0x4_0000_0000_0000 <= v.z as int <= 0x4_0000_0000_0000,
        ;
    }
    let sq: i128 = (v.x as i128) * (v.x as i128) + (v.y as i128) * (v.y as i128)
        + (v.z as i128) * (v.z as i128);
    let r: u64 = isqrt(sq as u128);
    proof {
        lemma_sqrt_floor_le(norm_sq(v@), (2 * 0x4_0000_0000_0000) as int);
    }
    r as i64
}

} // verus!
