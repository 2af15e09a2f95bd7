//! The Phong illumination model over directional light sources.
//!
//! All fractions are fixed point: reflectance coefficients and unit-vector
//! components are scaled by `FP_ONE`, and every product is rescaled by a
//! truncating division before the next step, so each per-channel
//! contribution is truncated to a whole channel step and then added
//! saturating — fractional light is discarded, never rounded up.
//!
//! The diffuse and specular dot products are not clamped at zero before
//! scaling; a negative factor zeroes every channel of that source's
//! contribution when the color is scaled, so back-lit surfaces gain
//! nothing.
use vstd::prelude::*;
use crate::color::Color;
use crate::color::sat_add_channel;
use crate::color::scale_channel;
use crate::fixed::FP_ONE;
use crate::fixed::div64;
use crate::fixed::div_fp;
use crate::fixed::lemma_div_fp_bound;
use crate::vector3d::Vector3D;
use crate::vector3d::NORM_BOUND;
use crate::vector3d::normalized_comp;
use crate::vector3d::vec_bounded;

verus! {

/// The fixed specular exponent: reflection terms are cubed.
pub const SPEC_POWER: u32 = 3;

/// Reflectance coefficient triples (ambient, diffuse, specular), each
/// channel a fixed-point fraction.
#[derive(Clone, Copy, Debug)]
pub struct LightingConfig {
    pub ka: (i64, i64, i64),
    pub kd: (i64, i64, i64),
    pub ks: (i64, i64, i64),
}

/// Every coefficient is a fraction in `0 ..= 1`, in fixed point.
pub open spec fn config_wf(conf: LightingConfig) -> bool {
    &&& 0 <= conf.ka.0 <= FP_ONE && 0 <= conf.ka.1 <= FP_ONE && 0 <= conf.ka.2 <= FP_ONE
    &&& 0 <= conf.kd.0 <= FP_ONE && 0 <= conf.kd.1 <= FP_ONE && 0 <= conf.kd.2 <= FP_ONE
    &&& 0 <= conf.ks.0 <= FP_ONE && 0 <= conf.ks.1 <= FP_ONE && 0 <= conf.ks.2 <= FP_ONE
}

/// Saturating sum of two colors, channel by channel.
pub open spec fn color_plus(a: Color, b: Color) -> Color {
    Color {
        red: sat_add_channel(a.red, b.red),
        green: sat_add_channel(a.green, b.green),
        blue: sat_add_channel(a.blue, b.blue),
    }
}

/// A color scaled by a fixed-point triple, truncating then clamping.
pub open spec fn color_scaled(c: Color, kr: int, kg: int, kb: int) -> Color {
    Color {
        red: scale_channel(c.red, kr as i64),
        green: scale_channel(c.green, kg as i64),
        blue: scale_channel(c.blue, kb as i64),
    }
}

/// One unit-vector component of `v`, in fixed point.
pub open spec fn unit_x(v: Vector3D) -> int {
    normalized_comp(v.x as int, v.x as int, v.y as int, v.z as int)
}

pub open spec fn unit_y(v: Vector3D) -> int {
    normalized_comp(v.y as int, v.x as int, v.y as int, v.z as int)
}

pub open spec fn unit_z(v: Vector3D) -> int {
    normalized_comp(v.z as int, v.x as int, v.y as int, v.z as int)
}

/// The dot product of the unit directions of `n` and `l`, a fixed-point
/// square (scaled by `FP_ONE * FP_ONE`).
pub open spec fn unit_dot(n: Vector3D, l: Vector3D) -> int {
    unit_x(n) * unit_x(l) + unit_y(n) * unit_y(l) + unit_z(n) * unit_z(l)
}

/// The diffuse factor of one source: the unit dot product scaled by one
/// diffuse coefficient, brought back to a plain fixed-point fraction.
pub open spec fn diffuse_factor(n: Vector3D, l: Vector3D, k: int) -> int {
    div_fp(div_fp(unit_dot(n, l) * k, FP_ONE as int), FP_ONE as int)
}

/// The specular reflection term of one source against the fixed view
/// direction `(0, 0, 1)`: `dot(2 * dot(N, L) * N - L, view)`, in fixed
/// point.
pub open spec fn reflect_term(n: Vector3D, l: Vector3D) -> int {
    let t = div_fp(2 * unit_dot(n, l), FP_ONE as int);
    div_fp(unit_z(n) * t - unit_z(l) * (FP_ONE as int), FP_ONE as int)
}

/// The reflection term cubed, step by step in fixed point.
pub open spec fn reflect_cubed(n: Vector3D, l: Vector3D) -> int {
    let r = reflect_term(n, l);
    let r2 = div_fp(r * r, FP_ONE as int);
    div_fp(r2 * r, FP_ONE as int)
}

/// The specular factor of one source: the cubed reflection term scaled by
/// one specular coefficient.
pub open spec fn specular_factor(n: Vector3D, l: Vector3D, k: int) -> int {
    div_fp(reflect_cubed(n, l) * k, FP_ONE as int)
}

/// The diffuse contributions of the first `i` sources, folded with
/// saturating addition onto `acc`.
pub open spec fn diffuse_acc(
    sources: Seq<(Vector3D, Color)>,
    normal: Vector3D,
    kd: (i64, i64, i64),
    i: int,
) -> Color
    decreases i,
{
    if i <= 0 {
        Color { red: 0, green: 0, blue: 0 }
    } else {
        let prev = diffuse_acc(sources, normal, kd, i - 1);
        let (l, c) = sources[i - 1];
        color_plus(
            prev,
            color_scaled(
                c,
                diffuse_factor(normal, l, kd.0 as int),
                diffuse_factor(normal, l, kd.1 as int),
                diffuse_factor(normal, l, kd.2 as int),
            ),
        )
    }
}

/// The specular contributions of the first `i` sources, folded with
/// saturating addition onto black.
pub open spec fn specular_acc(
    sources: Seq<(Vector3D, Color)>,
    normal: Vector3D,
    ks: (i64, i64, i64),
    i: int,
) -> Color
    decreases i,
{
    if i <= 0 {
        Color { red: 0, green: 0, blue: 0 }
    } else {
        let prev = specular_acc(sources, normal, ks, i - 1);
        let (l, c) = sources[i - 1];
        color_plus(
            prev,
            color_scaled(
                c,
                specular_factor(normal, l, ks.0 as int),
                specular_factor(normal, l, ks.1 as int),
                specular_factor(normal, l, ks.2 as int),
            ),
        )
    }
}

/// The full Phong evaluation: ambient, diffuse and specular parts computed
/// independently and folded with saturating addition.
pub open spec fn phong(
    sources: Seq<(Vector3D, Color)>,
    ambient: Color,
    normal: Vector3D,
    conf: LightingConfig,
) -> Color {
    let amb = color_scaled(ambient, conf.ka.0 as int, conf.ka.1 as int, conf.ka.2 as int);
    let dif = diffuse_acc(sources, normal, conf.kd, sources.len() as int);
    let spc = specular_acc(sources, normal, conf.ks, sources.len() as int);
    color_plus(color_plus(color_plus(Color { red: 0, green: 0, blue: 0 }, amb), dif), spc)
}

/// The lighting setup a fresh frame starts with: one white source shining
/// from `(1, 1, 1)` over a white ambient base.
pub open spec fn is_default_lighter(lt: Lighter) -> bool {
    &&& lt.wf()
    &&& lt.sources_seq().len() == 1
    &&& lt.sources_seq()[0] == (
        Vector3D { x: 1, y: 1, z: 1 },
        Color { red: 255, green: 255, blue: 255 },
    )
    &&& lt.ambient() == (Color { red: 255, green: 255, blue: 255 })
}

/// An ordered list of directional light sources plus an ambient base
/// color; the camera always looks down the positive `z` axis.
#[derive(Clone, Debug)]
pub struct Lighter {
    sources: Vec<(Vector3D, Color)>,
    ambient_color: Color,
}

impl Lighter {
    pub closed spec fn sources_seq(&self) -> Seq<(Vector3D, Color)> {
        self.sources@
    }

    pub closed spec fn ambient(&self) -> Color {
        self.ambient_color
    }

    /// Source directions stay in the range the lighting arithmetic
    /// accepts.
    pub open spec fn wf(&self) -> bool {
        forall|i: int|
            0 <= i < self.sources_seq().len() ==> vec_bounded(
                (#[trigger] self.sources_seq()[i]).0,
                NORM_BOUND as int,
            )
    }

    /// A lighter with the given sources and a white ambient base.
    pub fn from_sources(sources: Vec<(Vector3D, Color)>) -> (lt: Self)
        requires
            forall|i: int|
                0 <= i < sources@.len() ==> vec_bounded(
                    (#[trigger] sources@[i]).0,
                    NORM_BOUND as int,
                ),
        ensures
            lt.wf(),
            lt.sources_seq() == sources@,
            lt.ambient() == (Color { red: 255, green: 255, blue: 255 }),
    {
        Lighter { sources, ambient_color: Color { red: 255, green: 255, blue: 255 } }
    }

    /// A lighter with the given sources and ambient base color.
    pub fn from_sources_ambient(sources: Vec<(Vector3D, Color)>, ambient_color: Color) -> (lt:
        Self)
        requires
            forall|i: int|
                0 <= i < sources@.len() ==> vec_bounded(
                    (#[trigger] sources@[i]).0,
                    NORM_BOUND as int,
                ),
        ensures
            lt.wf(),
            lt.sources_seq() == sources@,
            lt.ambient() == ambient_color,
    {
        Lighter { sources, ambient_color }
    }

    /// Append one directional source.
    pub fn add_source(&mut self, direction: Vector3D, color: Color)
        requires
            old(self).wf(),
            vec_bounded(direction, NORM_BOUND as int),
        ensures
            final(self).wf(),
            final(self).sources_seq() == old(self).sources_seq().push((direction, color)),
            final(self).ambient() == old(self).ambient(),
    {
        self.sources.push((direction, color));
        proof {
            assert forall|i: int| 0 <= i < self.sources@.len() implies vec_bounded(
                (#[trigger] self.sources@[i]).0,
                NORM_BOUND as int,
            ) by {
                if i < old(self).sources_seq().len() {
                    assert(self.sources@[i] == old(self).sources_seq()[i]);
                }
            }
        }
    }

    /// Replace the ambient base color.
    pub fn set_ambient(&mut self, color: Color)
        ensures
            old(self).wf() ==> final(self).wf(),
            final(self).sources_seq() == old(self).sources_seq(),
            final(self).ambient() == color,
    {
        self.ambient_color = color;
        proof {
            if old(self).wf() {
                assert forall|i: int| 0 <= i < self.sources@.len() implies vec_bounded(
                    (#[trigger] self.sources@[i]).0,
                    NORM_BOUND as int,
                ) by {
                    assert(self.sources@[i] == old(self).sources_seq()[i]);
                }
            }
        }
    }

    /// Evaluate the Phong model at a surface normal.
    pub fn calculate(&self, normal: &Vector3D, conf: &LightingConfig) -> (c: Color)
        requires
            self.wf(),
            vec_bounded(*normal, NORM_BOUND as int),
            config_wf(*conf),
        ensures
            c == phong(self.sources_seq(), self.ambient(), *normal, *conf),
    {
        let mut result = Color { red: 0, green: 0, blue: 0 };
        result = result.plus(self.calc_ambient(conf));
        result = result.plus(self.calc_diffuse(normal, conf));
        result = result.plus(self.calc_specular(normal, conf));
        result
    }

    /// The ambient part: the base color scaled by the ambient
    /// reflectances.
    fn calc_ambient(&self, conf: &LightingConfig) -> (c: Color)
        requires
            config_wf(*conf),
        ensures
            c == color_scaled(
                self.ambient(),
                conf.ka.0 as int,
                conf.ka.1 as int,
                conf.ka.2 as int,
            ),
    {
        self.ambient_color.scaled(conf.ka.0, conf.ka.1, conf.ka.2)
    }

    /// The diffuse part: each source's color scaled by the unit dot
    /// product against the surface normal and the diffuse reflectances.
    fn calc_diffuse(&self, normal: &Vector3D, conf: &LightingConfig) -> (c: Color)
        requires
            self.wf(),
            vec_bounded(*normal, NORM_BOUND as int),
            config_wf(*conf),
        ensures
            c == diffuse_acc(
                self.sources_seq(),
                *normal,
                conf.kd,
                self.sources_seq().len() as int,
            ),
    {
        let normalized = normal.normalize();
        let n = self.sources.len();
        let mut result = Color { red: 0, green: 0, blue: 0 };
        for i in 0..n
            invariant
                n == self.sources_seq().len(),
                self.wf(),
                vec_bounded(*normal, NORM_BOUND as int),
                config_wf(*conf),
                normalized.x == unit_x(*normal),
                normalized.y == unit_y(*normal),
                normalized.z == unit_z(*normal),
                vec_bounded(normalized, FP_ONE as int),
                result == diffuse_acc(self.sources_seq(), *normal, conf.kd, i as int),
        {
            let (source_vec, color) = self.sources[i];
            let normalized_source = source_vec.normalize();
            let dotprod = normalized.dot(&normalized_source);
            proof {
                lemma_unit_dot_bound(normalized, normalized_source, dotprod as int);
            }
            proof {
                lemma_factor_fits(dotprod as int, conf.kd.0 as int);
                lemma_factor_fits(dotprod as int, conf.kd.1 as int);
                lemma_factor_fits(dotprod as int, conf.kd.2 as int);
                lemma_div_fp_bound(dotprod as int * conf.kd.0 as int, FP_ONE as int, 0x3_0000_0000int);
                lemma_div_fp_bound(dotprod as int * conf.kd.1 as int, FP_ONE as int, 0x3_0000_0000int);
                lemma_div_fp_bound(dotprod as int * conf.kd.2 as int, FP_ONE as int, 0x3_0000_0000int);
                lemma_div_fp_bound(div_fp(dotprod as int * conf.kd.0 as int, FP_ONE as int), FP_ONE as int, 0x3_0000_0000int);
                lemma_div_fp_bound(div_fp(dotprod as int * conf.kd.1 as int, FP_ONE as int), FP_ONE as int, 0x3_0000_0000int);
                lemma_div_fp_bound(div_fp(dotprod as int * conf.kd.2 as int, FP_ONE as int), FP_ONE as int, 0x3_0000_0000int);
            }
            let fr = div64(div64(dotprod * conf.kd.0, FP_ONE), FP_ONE);
            let fg = div64(div64(dotprod * conf.kd.1, FP_ONE), FP_ONE);
            let fb = div64(div64(dotprod * conf.kd.2, FP_ONE), FP_ONE);
            result = result.plus(color.scaled(fr, fg, fb));
        }
        result
    }

    /// The specular part: each source's color scaled by the cubed
    /// reflection term against the view direction and the specular
    /// reflectances.
    fn calc_specular(&self, normal: &Vector3D, conf: &LightingConfig) -> (c: Color)
        requires
            self.wf(),
            vec_bounded(*normal, NORM_BOUND as int),
            config_wf(*conf),
        ensures
            c == specular_acc(
                self.sources_seq(),
                *normal,
                conf.ks,
                self.sources_seq().len() as int,
            ),
    {
        let normalized = normal.normalize();
        let n = self.sources.len();
        let mut result = Color { red: 0, green: 0, blue: 0 };
        for i in 0..n
            invariant
                n == self.sources_seq().len(),
                self.wf(),
                vec_bounded(*normal, NORM_BOUND as int),
                config_wf(*conf),
                normalized.x == unit_x(*normal),
                normalized.y == unit_y(*normal),
                normalized.z == unit_z(*normal),
                vec_bounded(normalized, FP_ONE as int),
                result == specular_acc(self.sources_seq(), *normal, conf.ks, i as int),
        {
            let (source_vec, color) = self.sources[i];
            let normalized_source = source_vec.normalize();
            let dotprod = normalized.dot(&normalized_source);
            proof {
                lemma_unit_dot_bound(normalized, normalized_source, dotprod as int);
            }
            proof {
                lemma_div_fp_bound(2 * (dotprod as int), FP_ONE as int, 0x6_0001int);
            }
            let t = div64(2 * dotprod, FP_ONE);
            proof {
                lemma_reflect_products(normalized.z as int, normalized_source.z as int, t as int);
            }
            let rz_wide = normalized.z * t - normalized_source.z * FP_ONE;
            proof {
                lemma_div_fp_bound(rz_wide as int, FP_ONE as int, 0x7_0002int);
            }
            let r = div64(rz_wide, FP_ONE);
            proof {
                assert(r as int == reflect_term(*normal, source_vec));
                lemma_square_fits(r as int);
            }
            let r2 = div64(r * r, FP_ONE);
            proof {
                lemma_cube_step_fits(r as int, r2 as int);
            }
            let r3 = div64(r2 * r, FP_ONE);
            proof {
                assert(r3 as int == reflect_cubed(*normal, source_vec));
                lemma_spec_factor_fits(r3 as int, conf.ks.0 as int);
                lemma_spec_factor_fits(r3 as int, conf.ks.1 as int);
                lemma_spec_factor_fits(r3 as int, conf.ks.2 as int);
            }
            let fr = div64(r3 * conf.ks.0, FP_ONE);
            let fg = div64(r3 * conf.ks.1, FP_ONE);
            let fb = div64(r3 * conf.ks.2, FP_ONE);
            result = result.plus(color.scaled(fr, fg, fb));
        }
        result
    }
}

impl Default for Lighter {
    /// One white source from `(1, 1, 1)` over a white ambient base.
    fn default() -> (lt: Self)
        ensures
            is_default_lighter(lt),
    {
        let mut sources: Vec<(Vector3D, Color)> = Vec::new();
        sources.push((Vector3D { x: 1, y: 1, z: 1 }, Color { red: 255, green: 255, blue: 255 }));
        Lighter { sources, ambient_color: Color { red: 255, green: 255, blue: 255 } }
    }
}

/// The dot product of two fixed-point unit vectors stays within three
/// fixed-point squares.
proof fn lemma_unit_dot_bound(a: Vector3D, b: Vector3D, d: int)
    requires
        vec_bounded(a, FP_ONE as int),
        vec_bounded(b, FP_ONE as int),
        d == (a.x as int) * (b.x as int) + (a.y as int) * (b.y as int) + (a.z as int) * (
        b.z as int),
    ensures
        -0x3_0000_0000 * 1 <= d <= 0x3_0000_0000 * 1,
{
    assert(-0x1_0000_0000 <= (a.x as int) * (b.x as int) <= 0x1_0000_0000) by (nonlinear_arith)
        requires
            -0x1_0000 <= a.x as int <= 0x1_0000,
            -0x1_0000 <= b.x as int <= 0x1_0000,
    ;
    assert(-0x1_0000_0000 <= (a.y as int) * (b.y as int) <= 0x1_0000_0000) by (nonlinear_arith)
        requires
            -0x1_0000 <= a.y as int <= 0x1_0000,
            -0x1_0000 <= b.y as int <= 0x1_0000,
    ;
    assert(-0x1_0000_0000 <= (a.z as int) * (b.z as int) <= 0x1_0000_0000) by (nonlinear_arith)
        requires
            -0x1_0000 <= a.z as int <= 0x1_0000,
            -0x1_0000 <= b.z as int <= 0x1_0000,
    ;
}

/// A diffuse scale product fits comfortably in a machine word.
proof fn lemma_factor_fits(d: int, k: int)
    requires
        -0x3_0000_0000 <= d <= 0x3_0000_0000,
        0 <= k <= FP_ONE,
    ensures
        -0x3_0000_0000_0000 <= d * k <= 0x3_0000_0000_0000,
{
    assert(-0x3_0000_0000_0000 <= d * k <= 0x3_0000_0000_0000) by (nonlinear_arith)
        requires
            -0x3_0000_0000 <= d <= 0x3_0000_0000,
            0 <= k <= 0x1_0000,
    ;
}

/// Bounds for the reflection vector products.
proof fn lemma_reflect_products(nz: int, lz: int, t: int)
    requires
        -0x1_0000 <= nz <= 0x1_0000,
        -0x1_0000 <= lz <= 0x1_0000,
        -0x6_0001 <= t <= 0x6_0001,
    ensures
        -0x6_0001_0000 <= nz * t <= 0x6_0001_0000,
        -0x1_0000_0000 <= lz * 0x1_0000 <= 0x1_0000_0000,
        -0x7_0002_0000 <= nz * t - lz * 0x1_0000 <= 0x7_0002_0000,
{
    assert(-0x6_0001_0000 <= nz * t <= 0x6_0001_0000) by (nonlinear_arith)
        requires
            -0x1_0000 <= nz <= 0x1_0000,
            -0x6_0001 <= t <= 0x6_0001,
    ;
    assert(-0x1_0000_0000 <= lz * 0x1_0000 <= 0x1_0000_0000) by (nonlinear_arith)
        requires
            -0x1_0000 <= lz <= 0x1_0000,
    ;
}

/// Squaring the reflection term stays within machine range.
proof fn lemma_square_fits(r: int)
    requires
        -0x7_0002 <= r <= 0x7_0002,
    ensures
        -0x32_0000_0000 <= r * r <= 0x32_0000_0000,
        -0x32_0000 <= div_fp(r * r, FP_ONE as int) <= 0x32_0000,
{
    assert(-0x32_0000_0000 <= r * r <= 0x32_0000_0000) by (nonlinear_arith)
        requires
            -0x7_0002 <= r <= 0x7_0002,
    ;
    lemma_div_fp_bound(r * r, FP_ONE as int, 0x32_0000);
}

/// Cubing the reflection term stays within machine range.
proof fn lemma_cube_step_fits(r: int, r2: int)
    requires
        -0x7_0002 <= r <= 0x7_0002,
        -0x32_0000 <= r2 <= 0x32_0000,
    ensures
        -0x160_0000_0000 <= r2 * r <= 0x160_0000_0000,
        -0x160_0000 <= div_fp(r2 * r, FP_ONE as int) <= 0x160_0000,
{
    assert(-0x160_0000_0000 <= r2 * r <= 0x160_0000_0000) by (nonlinear_arith)
        requires
            -0x7_0002 <= r <= 0x7_0002,
            -0x32_0000 <= r2 <= 0x32_0000,
    ;
    lemma_div_fp_bound(r2 * r, FP_ONE as int, 0x160_0000);
}

/// A specular scale product fits comfortably in a machine word.
proof fn lemma_spec_factor_fits(r3: int, k: int)
    requires
        -0x160_0000 <= r3 <= 0x160_0000,
        0 <= k <= FP_ONE,
    ensures
        -0x160_0000_0000 <= r3 * k <= 0x160_0000_0000,
        -0x160_0000 <= div_fp(r3 * k, FP_ONE as int) <= 0x160_0000,
{
    assert(-0x160_0000_0000 <= r3 * k <= 0x160_0000_0000) by (nonlinear_arith)
        requires
            -0x160_0000 <= r3 <= 0x160_0000,
            0 <= k <= 0x1_0000,
    ;
    lemma_div_fp_bound(r3 * k, FP_ONE as int, 0x160_0000);
}

} // verus!
