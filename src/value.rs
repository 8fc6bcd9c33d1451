//! Value types that curves blend: integer scalars and vectors. Linear blending
//! of integers rounds to the nearest integer, so results stay exact values of
//! the type and never overflow.
use vstd::arithmetic::div_mod::{lemma_basic_div, lemma_fundamental_div_mod, lemma_mod_pos_bound};
use vstd::prelude::*;

verus! {

/// A sample of a curve: a value stored at a position.
#[derive(Clone, Copy, Debug)]
pub struct Keyframe<T> {
    pub position: i64,
    pub value: T,
}

/// `a / n` rounded to the nearest integer, halves away from zero.
pub open spec fn div_round(a: int, n: int) -> int
    recommends
        n > 0,
{
    if a >= 0 {
        (a + n / 2) / n
    } else {
        -((-a + n / 2) / n)
    }
}

/// The scalar on the straight line through `(p1, v1)` and `(p2, v2)` at `q`,
/// rounded to the nearest integer; `v1` when the two positions coincide.
pub open spec fn lerp(p1: int, v1: int, p2: int, v2: int, q: int) -> int {
    if p1 == p2 {
        v1
    } else {
        v1 + div_round((v2 - v1) * (q - p1), p2 - p1)
    }
}

/// A value type that a curve can blend between two keyframes.
pub trait Interpolatable: Copy + Sized {
    /// The value between `pre` (at `p1`) and `post` (at `p2`) at position `q`.
    spec fn blend(p1: int, pre: Self, p2: int, post: Self, q: int) -> Self;

    /// Blends `pre` and `post` at `time`, which lies between their positions.
    fn interpolate(pre: &Keyframe<Self>, post: &Keyframe<Self>, time: i64) -> (r: Self)
        requires
            pre.position <= time <= post.position,
        ensures
            r == Self::blend(pre.position as int, pre.value, post.position as int, post.value, time as int),
    ;
}

/// Rounding zero gives zero: `(0 + n / 2) / n == 0`.
proof fn lemma_half_div_is_zero(n: int)
    requires
        n > 0,
    ensures
        (n / 2) / n == 0,
{
    lemma_basic_div(n / 2, n);
}

/// Rounding the product of a magnitude `d` and a fraction `t / n` of the
/// bracket never goes past `d`.
proof fn lemma_scaled_bound(d: int, t: int, n: int)
    requires
        0 <= d,
        0 <= t <= n,
        0 < n,
    ensures
        0 <= d * t <= d * n,
        0 <= (d * t + n / 2) / n <= d,
{
    assert(0 <= d * t <= d * n) by (nonlinear_arith)
        requires
            0 <= d,
            0 <= t <= n,
    ;
    assert(0 <= (d * t + n / 2) / n <= d) by (nonlinear_arith)
        requires
            0 <= d * t <= d * n,
            0 < n,
            0 <= n / 2 < n,
    ;
}

/// Rounding misses the exact quotient by at most half: `|div_round(a, n) * n - a| <= n / 2`,
/// stated doubled so that it stays in integers.
pub proof fn lemma_div_round_close(a: int, n: int)
    requires
        n > 0,
    ensures
        2 * (div_round(a, n) * n - a) <= n,
        2 * (a - div_round(a, n) * n) <= n,
{
    let h = n / 2;
    if a >= 0 {
        let x = a + h;
        lemma_fundamental_div_mod(x, n);
        lemma_mod_pos_bound(x, n);
        let d = x / n;
        assert(d * n == n * d) by (nonlinear_arith);
    } else {
        let x = -a + h;
        lemma_fundamental_div_mod(x, n);
        lemma_mod_pos_bound(x, n);
        let d = x / n;
        assert((-d) * n == -(n * d)) by (nonlinear_arith);
    }
}

/// The rounded line through `(p1, v1)` and `(p2, v2)` stays within half a unit
/// of the exact weighted sum `v1 * (1 - alpha) + v2 * alpha`, with
/// `alpha = (q - p1) / (p2 - p1)`, and between `v1` and `v2`.
pub proof fn lemma_lerp_close(p1: int, v1: int, p2: int, v2: int, q: int)
    requires
        p1 < p2,
        p1 <= q <= p2,
    ensures
        2 * (lerp(p1, v1, p2, v2, q) * (p2 - p1) - (v1 * (p2 - q) + v2 * (q - p1))) <= p2 - p1,
        2 * ((v1 * (p2 - q) + v2 * (q - p1)) - lerp(p1, v1, p2, v2, q) * (p2 - p1)) <= p2 - p1,
        v1 <= v2 ==> v1 <= lerp(p1, v1, p2, v2, q) <= v2,
        v2 < v1 ==> v2 <= lerp(p1, v1, p2, v2, q) <= v1,
{
    let n = p2 - p1;
    let t = q - p1;
    let a = (v2 - v1) * t;
    let d = div_round(a, n);
    let l = lerp(p1, v1, p2, v2, q);
    lemma_div_round_close(a, n);
    assert(l * n - (v1 * (p2 - q) + v2 * (q - p1)) == d * n - a) by (nonlinear_arith)
        requires
            l == v1 + d,
            n == p2 - p1,
            t == q - p1,
            a == (v2 - v1) * t,
    ;
    if v1 <= v2 {
        lemma_scaled_bound(v2 - v1, t, n);
    } else {
        lemma_scaled_bound(v1 - v2, t, n);
        assert(a == -((v1 - v2) * t)) by (nonlinear_arith)
            requires
                a == (v2 - v1) * t,
        ;
        if a == 0 {
            lemma_half_div_is_zero(n);
        }
    }
}

impl Interpolatable for i64 {
    open spec fn blend(p1: int, pre: i64, p2: int, post: i64, q: int) -> i64 {
        lerp(p1, pre as int, p2, post as int, q) as i64
    }

    fn interpolate(pre: &Keyframe<i64>, post: &Keyframe<i64>, time: i64) -> (r: i64) {
        if pre.position == post.position {
            return pre.value;
        }
        let span: i128 = post.position as i128 - pre.position as i128;
        let offset: i128 = time as i128 - pre.position as i128;
        let n: u128 = span as u128;
        let t: u128 = offset as u128;
        let diff: i128 = post.value as i128 - pre.value as i128;
        let d: u128 = if diff >= 0 {
            diff as u128
        } else {
            (-diff) as u128
        };
        proof {
            lemma_scaled_bound(d as int, t as int, n as int);
            assert(d * t <= 0xffff_ffff_ffff_ffff * 0xffff_ffff_ffff_ffffu128) by (nonlinear_arith)
                requires
                    d * t <= d * n,
                    d <= 0xffff_ffff_ffff_ffff,
                    n <= 0xffff_ffff_ffff_ffff,
            ;
        }
        let m: u128 = (d * t + n / 2) / n;
        proof {
            if diff >= 0 {
                assert(diff * t == d * t);
            } else if t == 0 {
                assert(diff * t == 0 && d * t == 0) by (nonlinear_arith)
                    requires
                        t == 0,
                ;
                lemma_half_div_is_zero(n as int);
            } else {
                assert(diff * t == -(d * t)) by (nonlinear_arith)
                    requires
                        diff < 0,
                        d == -diff,
                ;
                assert(d * t > 0) by (nonlinear_arith)
                    requires
                        d > 0,
                        t > 0,
                ;
            }
        }
        if diff >= 0 {
            (pre.value as i128 + m as i128) as i64
        } else {
            (pre.value as i128 - m as i128) as i64
        }
    }
}

/// A three-component vector, blended and summed componentwise.
#[derive(Clone, Copy, Debug, PartialEq, Eq, Structural)]
pub struct Vector {
    pub x: i64,
    pub y: i64,
    pub z: i64,
}

impl Vector {
    /// The componentwise sum.
    pub fn add(self, rhs: Vector) -> (r: Vector)
        requires
            i64::MIN <= self.x + rhs.x <= i64::MAX,
            i64::MIN <= self.y + rhs.y <= i64::MAX,
            i64::MIN <= self.z + rhs.z <= i64::MAX,
        ensures
            r.x == self.x + rhs.x,
            r.y == self.y + rhs.y,
            r.z == self.z + rhs.z,
    {
        Vector { x: self.x + rhs.x, y: self.y + rhs.y, z: self.z + rhs.z }
    }
}

impl Interpolatable for Vector {
    open spec fn blend(p1: int, pre: Vector, p2: int, post: Vector, q: int) -> Vector {
        Vector {
            x: i64::blend(p1, pre.x, p2, post.x, q),
            y: i64::blend(p1, pre.y, p2, post.y, q),
            z: i64::blend(p1, pre.z, p2, post.z, q),
        }
    }

    fn interpolate(pre: &Keyframe<Vector>, post: &Keyframe<Vector>, time: i64) -> (r: Vector) {
        let x = i64::interpolate(
            &Keyframe { position: pre.position, value: pre.value.x },
            &Keyframe { position: post.position, value: post.value.x },
            time,
        );
        let y = i64::interpolate(
            &Keyframe { position: pre.position, value: pre.value.y },
            &Keyframe { position: post.position, value: post.value.y },
            time,
        );
        let z = i64::interpolate(
            &Keyframe { position: pre.position, value: pre.value.z },
            &Keyframe { position: post.position, value: post.value.z },
            time,
        );
        Vector { x, y, z }
    }
}

} // verus!
