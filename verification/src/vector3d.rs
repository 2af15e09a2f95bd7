//! Integer 3-vectors for surface normals and directions.
//!
//! Components are plain `i64` values; a direction of unit length is carried
//! in fixed point, each component in `-FP_ONE ..= FP_ONE`. Normalization
//! divides by the integer square root of the squared length, and a
//! zero-length vector normalizes to the zero vector.
use vstd::prelude::*;
use crate::fixed::FP_ONE;
use crate::fixed::div_fp;
use crate::fixed::div_trunc128;
use crate::fixed::lemma_div_fp_bound;
use crate::fixed::isqrt128;
use crate::fixed::isqrt_of;
use crate::fixed::spec_isqrt;

verus! {

/// Largest component magnitude accepted by the bilinear operations
/// (`dot`, `cross`, `scale`), so products fit in a machine word.
pub const VEC_BOUND: i64 = 0x4000_0000;

/// Largest component magnitude `normalize` accepts: the squared length
/// must fit the wide integer square root.
pub const NORM_BOUND: i64 = 0x2000_0000_0000_0000;

#[derive(Clone, Copy, Debug, PartialEq, Eq, Structural)]
pub struct Vector3D {
    pub x: i64,
    pub y: i64,
    pub z: i64,
}

/// The squared length of `(x, y, z)`.
pub open spec fn norm_sq_spec(x: int, y: int, z: int) -> int {
    x * x + y * y + z * z
}

/// One component of the normalized vector: the component, scaled to fixed
/// point, divided by the integer square root of the squared length; zero
/// when the length is zero.
pub open spec fn normalized_comp(c: int, x: int, y: int, z: int) -> int {
    let m = spec_isqrt(norm_sq_spec(x, y, z));
    if m == 0 {
        0
    } else {
        div_fp(c * (FP_ONE as int), m)
    }
}

/// `v` holds components no larger in magnitude than `b`.
pub open spec fn vec_bounded(v: Vector3D, b: int) -> bool {
    -b <= v.x <= b && -b <= v.y <= b && -b <= v.z <= b
}

impl Vector3D {
    pub fn new(x: i64, y: i64, z: i64) -> (v: Self)
        ensures
            v == (Vector3D { x, y, z }),
    {
        Self { x, y, z }
    }

    pub fn from_point(p: (i64, i64, i64)) -> (v: Self)
        ensures
            v == (Vector3D { x: p.0, y: p.1, z: p.2 }),
    {
        Self { x: p.0, y: p.1, z: p.2 }
    }

    /// The displacement from `p0` to `p1`.
    pub fn from_points(p0: (i64, i64, i64), p1: (i64, i64, i64)) -> (v: Self)
        requires
            -NORM_BOUND <= p0.0 <= NORM_BOUND,
            -NORM_BOUND <= p0.1 <= NORM_BOUND,
            -NORM_BOUND <= p0.2 <= NORM_BOUND,
            -NORM_BOUND <= p1.0 <= NORM_BOUND,
            -NORM_BOUND <= p1.1 <= NORM_BOUND,
            -NORM_BOUND <= p1.2 <= NORM_BOUND,
        ensures
            v.x == p1.0 - p0.0,
            v.y == p1.1 - p0.1,
            v.z == p1.2 - p0.2,
    {
        Self { x: p1.0 - p0.0, y: p1.1 - p0.1, z: p1.2 - p0.2 }
    }

    /// Component-wise sum.
    pub fn plus(&self, other: &Self) -> (v: Self)
        requires
            vec_bounded(*self, NORM_BOUND as int),
            vec_bounded(*other, NORM_BOUND as int),
        ensures
            v.x == self.x + other.x,
            v.y == self.y + other.y,
            v.z == self.z + other.z,
    {
        Self { x: self.x + other.x, y: self.y + other.y, z: self.z + other.z }
    }

    /// Component-wise difference.
    pub fn minus(&self, other: &Self) -> (v: Self)
        requires
            vec_bounded(*self, NORM_BOUND as int),
            vec_bounded(*other, NORM_BOUND as int),
        ensures
            v.x == self.x - other.x,
            v.y == self.y - other.y,
            v.z == self.z - other.z,
    {
        Self { x: self.x - other.x, y: self.y - other.y, z: self.z - other.z }
    }

    /// The dot product.
    pub fn dot(&self, other: &Self) -> (r: i64)
        requires
            vec_bounded(*self, VEC_BOUND as int),
            vec_bounded(*other, VEC_BOUND as int),
        ensures
            r == self.x * other.x + self.y * other.y + self.z * other.z,
    {
        proof {
            lemma_prod_bound(self.x as int, other.x as int, VEC_BOUND as int);
            lemma_prod_bound(self.y as int, other.y as int, VEC_BOUND as int);
            lemma_prod_bound(self.z as int, other.z as int, VEC_BOUND as int);
        }
        self.x * other.x + self.y * other.y + self.z * other.z
    }

    /// The cross product, whose sign encodes the winding of the two
    /// arguments.
    pub fn cross(&self, other: &Self) -> (v: Self)
        requires
            vec_bounded(*self, VEC_BOUND as int),
            vec_bounded(*other, VEC_BOUND as int),
        ensures
            v.x == self.y * other.z - self.z * other.y,
            v.y == self.z * other.x - self.x * other.z,
            v.z == self.x * other.y - self.y * other.x,
    {
        proof {
            lemma_prod_bound(self.y as int, other.z as int, VEC_BOUND as int);
            lemma_prod_bound(self.z as int, other.y as int, VEC_BOUND as int);
            lemma_prod_bound(self.z as int, other.x as int, VEC_BOUND as int);
            lemma_prod_bound(self.x as int, other.z as int, VEC_BOUND as int);
            lemma_prod_bound(self.x as int, other.y as int, VEC_BOUND as int);
            lemma_prod_bound(self.y as int, other.x as int, VEC_BOUND as int);
        }
        Self {
            x: self.y * other.z - self.z * other.y,
            y: self.z * other.x - self.x * other.z,
            z: self.x * other.y - self.y * other.x,
        }
    }

    /// Scale every component by an integer factor.
    pub fn scale(&self, factor: i64) -> (v: Self)
        requires
            vec_bounded(*self, VEC_BOUND as int),
            -VEC_BOUND <= factor <= VEC_BOUND,
        ensures
            v.x == self.x * factor,
            v.y == self.y * factor,
            v.z == self.z * factor,
    {
        proof {
            lemma_prod_bound(self.x as int, factor as int, VEC_BOUND as int);
            lemma_prod_bound(self.y as int, factor as int, VEC_BOUND as int);
            lemma_prod_bound(self.z as int, factor as int, VEC_BOUND as int);
        }
        Self { x: self.x * factor, y: self.y * factor, z: self.z * factor }
    }

    /// The direction of this vector as a fixed-point unit vector; the zero
    /// vector stays zero. Every result component lies in
    /// `-FP_ONE ..= FP_ONE`.
    pub fn normalize(&self) -> (v: Self)
        requires
            vec_bounded(*self, NORM_BOUND as int),
        ensures
            v.x == normalized_comp(self.x as int, self.x as int, self.y as int, self.z as int),
            v.y == normalized_comp(self.y as int, self.x as int, self.y as int, self.z as int),
            v.z == normalized_comp(self.z as int, self.x as int, self.y as int, self.z as int),
            vec_bounded(v, FP_ONE as int),
    {
        let nx = self.x as i128;
        let ny = self.y as i128;
        let nz = self.z as i128;
        proof {
            lemma_sq_bound(nx as int, NORM_BOUND as int);
            lemma_sq_bound(ny as int, NORM_BOUND as int);
            lemma_sq_bound(nz as int, NORM_BOUND as int);
        }
        let sq = nx * nx + ny * ny + nz * nz;
        let mag = isqrt128(sq);
        if mag == 0 {
            Self { x: 0, y: 0, z: 0 }
        } else {
            proof {
                lemma_comp_le_mag(nx as int, sq as int, mag as int);
                lemma_comp_le_mag(ny as int, sq as int, mag as int);
                lemma_comp_le_mag(nz as int, sq as int, mag as int);
                lemma_scaled_div_bound(nx as int, mag as int);
                lemma_scaled_div_bound(ny as int, mag as int);
                lemma_scaled_div_bound(nz as int, mag as int);
            }
            let rx = div_trunc128(nx * (FP_ONE as i128), mag);
            let ry = div_trunc128(ny * (FP_ONE as i128), mag);
            let rz = div_trunc128(nz * (FP_ONE as i128), mag);
            Self { x: rx as i64, y: ry as i64, z: rz as i64 }
        }
    }

    /// The normalized mean of a non-empty family of vectors: the direction
    /// of their sum.
    pub fn average(vectors: &Vec<Vector3D>) -> (v: Self)
        requires
            vectors@.len() > 0,
            forall|i: int|
                0 <= i < vectors@.len() ==> vec_bounded(#[trigger] vectors@[i], NORM_BOUND as int),
        ensures
            ({
                let mx = div_fp(sum_x(vectors@), vectors@.len() as int);
                let my = div_fp(sum_y(vectors@), vectors@.len() as int);
                let mz = div_fp(sum_z(vectors@), vectors@.len() as int);
                v.x == normalized_comp(mx, mx, my, mz) && v.y == normalized_comp(my, mx, my, mz)
                    && v.z == normalized_comp(mz, mx, my, mz)
            }),
            vec_bounded(v, FP_ONE as int),
    {
        let n = vectors.len();
        let mut sx: i128 = 0;
        let mut sy: i128 = 0;
        let mut sz: i128 = 0;
        for i in 0..n
            invariant
                n == vectors@.len(),
                forall|k: int|
                    0 <= k < vectors@.len() ==> vec_bounded(
                        #[trigger] vectors@[k],
                        NORM_BOUND as int,
                    ),
                sx == sum_x(vectors@.take(i as int)),
                sy == sum_y(vectors@.take(i as int)),
                sz == sum_z(vectors@.take(i as int)),
                -(i as int) * (NORM_BOUND as int) <= sx <= (i as int) * (NORM_BOUND as int),
                -(i as int) * (NORM_BOUND as int) <= sy <= (i as int) * (NORM_BOUND as int),
                -(i as int) * (NORM_BOUND as int) <= sz <= (i as int) * (NORM_BOUND as int),
        {
            let vi = vectors[i];
            proof {
                assert(vectors@.take(i + 1).drop_last() =~= vectors@.take(i as int));
                lemma_sum_step_bound(i as int, NORM_BOUND as int);
            }
            sx = sx + vi.x as i128;
            sy = sy + vi.y as i128;
            sz = sz + vi.z as i128;
        }
        proof {
            assert(vectors@.take(n as int) =~= vectors@);
            lemma_mean_bound(sx as int, n as int, NORM_BOUND as int);
            lemma_mean_bound(sy as int, n as int, NORM_BOUND as int);
            lemma_mean_bound(sz as int, n as int, NORM_BOUND as int);
        }
        let mx = div_trunc128(sx, n as i128);
        let my = div_trunc128(sy, n as i128);
        let mz = div_trunc128(sz, n as i128);
        let mean = Vector3D { x: mx as i64, y: my as i64, z: mz as i64 };
        mean.normalize()
    }

    /// A direction between weighted directions: scale each vector by its
    /// weight, sum, and renormalize. Weights are plain integers (larger
    /// weight pulls the result toward that vector).
    pub fn interpolate(pairs: &Vec<(Vector3D, i64)>) -> (v: Self)
        requires
            pairs@.len() <= 4,
            forall|i: int|
                0 <= i < pairs@.len() ==> vec_bounded(
                    (#[trigger] pairs@[i]).0,
                    0x10_0000int,
                ) && -0x1_0000_0000i64 <= pairs@[i].1 <= 0x1_0000_0000i64,
        ensures
            ({
                let wx = wsum_x(pairs@);
                let wy = wsum_y(pairs@);
                let wz = wsum_z(pairs@);
                v.x == normalized_comp(wx, wx, wy, wz) && v.y == normalized_comp(wy, wx, wy, wz)
                    && v.z == normalized_comp(wz, wx, wy, wz)
            }),
            vec_bounded(v, FP_ONE as int),
    {
        let n = pairs.len();
        let mut sx: i64 = 0;
        let mut sy: i64 = 0;
        let mut sz: i64 = 0;
        for i in 0..n
            invariant
                n == pairs@.len(),
                n <= 4,
                forall|k: int|
                    0 <= k < pairs@.len() ==> vec_bounded(
                        (#[trigger] pairs@[k]).0,
                        0x10_0000int,
                    ) && -0x1_0000_0000i64 <= pairs@[k].1 <= 0x1_0000_0000i64,
                sx == wsum_x(pairs@.take(i as int)),
                sy == wsum_y(pairs@.take(i as int)),
                sz == wsum_z(pairs@.take(i as int)),
                -(i as int) * 0x10_0000_0000_0000int <= sx <= (i as int) * 0x10_0000_0000_0000int,
                -(i as int) * 0x10_0000_0000_0000int <= sy <= (i as int) * 0x10_0000_0000_0000int,
                -(i as int) * 0x10_0000_0000_0000int <= sz <= (i as int) * 0x10_0000_0000_0000int,
        {
            let (vi, wi) = pairs[i];
            proof {
                assert(pairs@.take(i + 1).drop_last() =~= pairs@.take(i as int));
                lemma_prod_bound_gen(vi.x as int, wi as int, 0x10_0000int, 0x1_0000_0000int);
                lemma_prod_bound_gen(vi.y as int, wi as int, 0x10_0000int, 0x1_0000_0000int);
                lemma_prod_bound_gen(vi.z as int, wi as int, 0x10_0000int, 0x1_0000_0000int);
                lemma_wsum_step_bound(i as int);
            }
            sx = sx + vi.x * wi;
            sy = sy + vi.y * wi;
            sz = sz + vi.z * wi;
        }
        proof {
            assert(pairs@.take(n as int) =~= pairs@);
        }
        let sum = Vector3D { x: sx, y: sy, z: sz };
        sum.normalize()
    }
}

/// Sum of the `x` components.
pub open spec fn sum_x(s: Seq<Vector3D>) -> int
    decreases s.len(),
{
    if s.len() == 0 {
        0
    } else {
        sum_x(s.drop_last()) + s.last().x
    }
}

/// Sum of the `y` components.
pub open spec fn sum_y(s: Seq<Vector3D>) -> int
    decreases s.len(),
{
    if s.len() == 0 {
        0
    } else {
        sum_y(s.drop_last()) + s.last().y
    }
}

/// Sum of the `z` components.
pub open spec fn sum_z(s: Seq<Vector3D>) -> int
    decreases s.len(),
{
    if s.len() == 0 {
        0
    } else {
        sum_z(s.drop_last()) + s.last().z
    }
}

/// Weighted sum of the `x` components.
pub open spec fn wsum_x(s: Seq<(Vector3D, i64)>) -> int
    decreases s.len(),
{
    if s.len() == 0 {
        0
    } else {
        wsum_x(s.drop_last()) + s.last().0.x * s.last().1
    }
}

/// Weighted sum of the `y` components.
pub open spec fn wsum_y(s: Seq<(Vector3D, i64)>) -> int
    decreases s.len(),
{
    if s.len() == 0 {
        0
    } else {
        wsum_y(s.drop_last()) + s.last().0.y * s.last().1
    }
}

/// Weighted sum of the `z` components.
pub open spec fn wsum_z(s: Seq<(Vector3D, i64)>) -> int
    decreases s.len(),
{
    if s.len() == 0 {
        0
    } else {
        wsum_z(s.drop_last()) + s.last().0.z * s.last().1
    }
}

proof fn lemma_prod_bound(a: int, b: int, bound: int)
    requires
        -bound <= a <= bound,
        -bound <= b <= bound,
        0 <= bound,
    ensures
        -(bound * bound) <= a * b <= bound * bound,
{
    assert(-(bound * bound) <= a * b <= bound * bound) by (nonlinear_arith)
        requires
            -bound <= a <= bound,
            -bound <= b <= bound,
            0 <= bound,
    ;
}

proof fn lemma_prod_bound_gen(a: int, b: int, ba: int, bb: int)
    requires
        -ba <= a <= ba,
        -bb <= b <= bb,
        0 <= ba,
        0 <= bb,
    ensures
        -(ba * bb) <= a * b <= ba * bb,
{
    assert(-(ba * bb) <= a * b <= ba * bb) by (nonlinear_arith)
        requires
            -ba <= a <= ba,
            -bb <= b <= bb,
            0 <= ba,
            0 <= bb,
    ;
}

proof fn lemma_sq_bound(a: int, bound: int)
    requires
        -bound <= a <= bound,
        0 <= bound,
    ensures
        0 <= a * a <= bound * bound,
{
    assert(0 <= a * a <= bound * bound) by (nonlinear_arith)
        requires
            -bound <= a <= bound,
            0 <= bound,
    ;
}

/// A component is no larger in magnitude than the integer square root of
/// the squared length.
proof fn lemma_comp_le_mag(c: int, sq: int, mag: int)
    requires
        c * c <= sq,
        isqrt_of(sq, mag),
    ensures
        -mag <= c <= mag,
{
    assert(-mag <= c <= mag) by (nonlinear_arith)
        requires
            c * c <= sq,
            0 <= mag,
            sq < (mag + 1) * (mag + 1),
    ;
}

/// A component scaled to fixed point and divided by the magnitude stays
/// within one fixed-point unit.
proof fn lemma_scaled_div_bound(c: int, mag: int)
    requires
        0 < mag,
        -mag <= c <= mag,
    ensures
        -(FP_ONE as int) <= div_fp(c * (FP_ONE as int), mag) <= FP_ONE as int,
{
    assert(-(mag * (FP_ONE as int)) <= c * (FP_ONE as int) <= mag * (FP_ONE as int))
        by (nonlinear_arith)
        requires
            -mag <= c <= mag,
            0 < mag,
    ;
    lemma_div_fp_bound(c * (FP_ONE as int), mag, FP_ONE as int);
}

proof fn lemma_sum_step_bound(i: int, bound: int)
    requires
        0 <= i,
        0 <= bound,
    ensures
        (i + 1) * bound == i * bound + bound,
        -(i + 1) * bound == -(i * bound) - bound,
{
    assert((i + 1) * bound == i * bound + bound) by (nonlinear_arith);
    assert(-(i + 1) * bound == -(i * bound) - bound) by (nonlinear_arith);
}

proof fn lemma_wsum_step_bound(i: int)
    requires
        0 <= i,
    ensures
        (i + 1) * 0x10_0000_0000_0000int == i * 0x10_0000_0000_0000int + 0x10_0000_0000_0000int,
        -(i + 1) * 0x10_0000_0000_0000int == -(i * 0x10_0000_0000_0000int)
            - 0x10_0000_0000_0000int,
{
    assert((i + 1) * 0x10_0000_0000_0000int == i * 0x10_0000_0000_0000int
        + 0x10_0000_0000_0000int) by (nonlinear_arith);
    assert(-(i + 1) * 0x10_0000_0000_0000int == -(i * 0x10_0000_0000_0000int)
        - 0x10_0000_0000_0000int) by (nonlinear_arith);
}

/// The truncated mean of `n` values bounded by `b` is bounded by `b`.
proof fn lemma_mean_bound(s: int, n: int, b: int)
    requires
        0 < n,
        0 <= b,
        -(n * b) <= s <= n * b,
    ensures
        -b <= div_fp(s, n) <= b,
{
    lemma_div_fp_bound(s, n, b);
}

} // verus!
