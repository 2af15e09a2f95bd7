//! The library's stated laws, proved once over the specification
//! functions that the executable contracts are written in.
use vstd::prelude::*;
use crate::color::Color;
use crate::fixed::FP_ONE;
use crate::fixed::div_fp;
use crate::fixed::lemma_div_fp_exact;
use crate::grid::dot_prefix;
use crate::grid::mat_entry;
use crate::image::LineParams;
use crate::image::line_params;
use crate::image::line_points;
use crate::image::plot_spec;
use crate::image::walk_f;
use crate::image::walk_state;
use crate::image::walk_x;
use crate::image::walk_y;
use crate::transform::is_fp_ident;
use crate::transform::mat4_wf;

verus! {

/// Applying the identity transform returns every coordinate unchanged:
/// each output entry of the rescaled product with the fixed-point identity
/// is the input entry.
pub proof fn lemma_identity_transform_fixes_points(
    t: Seq<Seq<i64>>,
    g: Seq<Seq<i64>>,
    i: int,
    j: int,
)
    requires
        is_fp_ident(t),
        g.len() == 4,
        0 <= i < 4,
        0 <= j,
        forall|r: int| 0 <= r < 4 ==> j < (#[trigger] g[r]).len(),
    ensures
        div_fp(mat_entry(t, g, i, j), FP_ONE as int) == g[i][j],
{
    reveal_with_fuel(dot_prefix, 5);
    assert(mat_entry(t, g, i, j) == (t[i][0] as int) * (g[0][j] as int) + (t[i][1] as int) * (
    g[1][j] as int) + (t[i][2] as int) * (g[2][j] as int) + (t[i][3] as int) * (g[3][j] as int));
    assert(0int * (g[0][j] as int) == 0) by (nonlinear_arith);
    assert(0int * (g[1][j] as int) == 0) by (nonlinear_arith);
    assert(0int * (g[2][j] as int) == 0) by (nonlinear_arith);
    assert(0int * (g[3][j] as int) == 0) by (nonlinear_arith);
    assert(mat_entry(t, g, i, j) == (FP_ONE as int) * (g[i][j] as int));
    lemma_div_fp_exact(g[i][j] as int, FP_ONE as int);
}

/// Composing two transforms and applying the product to a point column is
/// the same as applying them one after the other, before fixed-point
/// rescaling: the two ways of summing the triple products agree.
pub proof fn lemma_compose_matches_sequential_apply(
    a: Seq<Seq<i64>>,
    b: Seq<Seq<i64>>,
    g: Seq<Seq<i64>>,
    i: int,
    j: int,
)
    requires
        mat4_wf(a),
        mat4_wf(b),
        g.len() == 4,
        0 <= i < 4,
        0 <= j,
        forall|r: int| 0 <= r < 4 ==> j < (#[trigger] g[r]).len(),
    ensures
        mat_entry(a, b, i, 0) * g[0][j] + mat_entry(a, b, i, 1) * g[1][j] + mat_entry(a, b, i, 2)
            * g[2][j] + mat_entry(a, b, i, 3) * g[3][j] == a[i][0] * mat_entry(b, g, 0, j)
            + a[i][1] * mat_entry(b, g, 1, j) + a[i][2] * mat_entry(b, g, 2, j) + a[i][3]
            * mat_entry(b, g, 3, j),
{
    reveal_with_fuel(dot_prefix, 5);
    let a0 = a[i][0] as int;
    let a1 = a[i][1] as int;
    let a2 = a[i][2] as int;
    let a3 = a[i][3] as int;
    let g0 = g[0][j] as int;
    let g1 = g[1][j] as int;
    let g2 = g[2][j] as int;
    let g3 = g[3][j] as int;
    assert(mat_entry(a, b, i, 0) == a0 * b[0][0] + a1 * b[1][0] + a2 * b[2][0] + a3 * b[3][0]);
    assert(mat_entry(a, b, i, 1) == a0 * b[0][1] + a1 * b[1][1] + a2 * b[2][1] + a3 * b[3][1]);
    assert(mat_entry(a, b, i, 2) == a0 * b[0][2] + a1 * b[1][2] + a2 * b[2][2] + a3 * b[3][2]);
    assert(mat_entry(a, b, i, 3) == a0 * b[0][3] + a1 * b[1][3] + a2 * b[2][3] + a3 * b[3][3]);
    assert(mat_entry(b, g, 0, j) == b[0][0] * g0 + b[0][1] * g1 + b[0][2] * g2 + b[0][3] * g3);
    assert(mat_entry(b, g, 1, j) == b[1][0] * g0 + b[1][1] * g1 + b[1][2] * g2 + b[1][3] * g3);
    assert(mat_entry(b, g, 2, j) == b[2][0] * g0 + b[2][1] * g1 + b[2][2] * g2 + b[2][3] * g3);
    assert(mat_entry(b, g, 3, j) == b[3][0] * g0 + b[3][1] * g1 + b[3][2] * g2 + b[3][3] * g3);
    let b00 = b[0][0] as int;
    let b01 = b[0][1] as int;
    let b02 = b[0][2] as int;
    let b03 = b[0][3] as int;
    let b10 = b[1][0] as int;
    let b11 = b[1][1] as int;
    let b12 = b[1][2] as int;
    let b13 = b[1][3] as int;
    let b20 = b[2][0] as int;
    let b21 = b[2][1] as int;
    let b22 = b[2][2] as int;
    let b23 = b[2][3] as int;
    let b30 = b[3][0] as int;
    let b31 = b[3][1] as int;
    let b32 = b[3][2] as int;
    let b33 = b[3][3] as int;
    lemma_dist_over_sum(a0, a1, a2, a3, b00, b10, b20, b30, g0);
    lemma_dist_over_sum(a0, a1, a2, a3, b01, b11, b21, b31, g1);
    lemma_dist_over_sum(a0, a1, a2, a3, b02, b12, b22, b32, g2);
    lemma_dist_over_sum(a0, a1, a2, a3, b03, b13, b23, b33, g3);
    lemma_left_dist(a0, b00 * g0, b01 * g1, b02 * g2, b03 * g3);
    lemma_left_dist(a1, b10 * g0, b11 * g1, b12 * g2, b13 * g3);
    lemma_left_dist(a2, b20 * g0, b21 * g1, b22 * g2, b23 * g3);
    lemma_left_dist(a3, b30 * g0, b31 * g1, b32 * g2, b33 * g3);
}

/// Multiplying a four-term linear combination by a common factor
/// distributes over the terms.
proof fn lemma_dist_over_sum(
    a0: int,
    a1: int,
    a2: int,
    a3: int,
    x0: int,
    x1: int,
    x2: int,
    x3: int,
    g: int,
)
    ensures
        (a0 * x0 + a1 * x1 + a2 * x2 + a3 * x3) * g == a0 * (x0 * g) + a1 * (x1 * g) + a2 * (x2
            * g) + a3 * (x3 * g),
{
    vstd::arithmetic::mul::lemma_mul_is_distributive_add_other_way(
        g,
        a0 * x0 + a1 * x1 + a2 * x2,
        a3 * x3,
    );
    vstd::arithmetic::mul::lemma_mul_is_distributive_add_other_way(g, a0 * x0 + a1 * x1, a2 * x2);
    vstd::arithmetic::mul::lemma_mul_is_distributive_add_other_way(g, a0 * x0, a1 * x1);
    vstd::arithmetic::mul::lemma_mul_is_associative(a0, x0, g);
    vstd::arithmetic::mul::lemma_mul_is_associative(a1, x1, g);
    vstd::arithmetic::mul::lemma_mul_is_associative(a2, x2, g);
    vstd::arithmetic::mul::lemma_mul_is_associative(a3, x3, g);
}

/// A factor distributes over a four-term sum.
proof fn lemma_left_dist(a: int, t0: int, t1: int, t2: int, t3: int)
    ensures
        a * (t0 + t1 + t2 + t3) == a * t0 + a * t1 + a * t2 + a * t3,
{
    vstd::arithmetic::mul::lemma_mul_is_distributive_add(a, t0 + t1 + t2, t3);
    vstd::arithmetic::mul::lemma_mul_is_distributive_add(a, t0 + t1, t2);
    vstd::arithmetic::mul::lemma_mul_is_distributive_add(a, t0, t1);
}

/// After two depth-tested writes to one pixel at different depths, the
/// pixel shows the color of the closer write, whichever order they came
/// in.
pub proof fn lemma_depth_resolves_by_nearness(
    pix: Seq<Seq<Color>>,
    dep: Seq<Seq<i64>>,
    x: int,
    y: int,
    z1: i64,
    c1: Color,
    z2: i64,
    c2: Color,
)
    requires
        0 <= y < dep.len(),
        0 <= x < dep[y].len(),
        pix.len() == dep.len(),
        pix[y].len() == dep[y].len(),
        dep[y][x] < z1 < z2,
    ensures
        ({
            let (p1, d1) = plot_spec(pix, dep, x, y, z1, c1);
            let (p2, d2) = plot_spec(p1, d1, x, y, z2, c2);
            p2[y][x] == c2 && d2[y][x] == z2
        }),
        ({
            let (q1, e1) = plot_spec(pix, dep, x, y, z2, c2);
            let (q2, e2) = plot_spec(q1, e1, x, y, z1, c1);
            q2[y][x] == c2 && e2[y][x] == z2
        }),
{
}

/// In a walk whose error term starts on the non-moving side and never
/// accumulates, the slower coordinate never moves.
proof fn lemma_vertical_walk(p: LineParams, k: int)
    requires
        0 <= k,
        p.accum == 0,
        p.cmp_ge ==> p.err0 < 0,
        !p.cmp_ge ==> p.err0 > 0,
    ensures
        walk_state(p, k) == (p.s0, p.err0),
    decreases k,
{
    if k > 0 {
        lemma_vertical_walk(p, k - 1);
    }
}

/// Drawing a line between two endpoints touches the same pixels in either
/// direction.
pub proof fn lemma_line_pixels_symmetric(p0: (i32, i32, i64), p1: (i32, i32, i64))
    ensures
        line_points(p0, p1) == line_points(p1, p0),
{
    if p0.0 != p1.0 {
        assert(line_params(p0, p1) == line_params(p1, p0));
        assert(line_points(p0, p1) =~= line_points(p1, p0));
    } else if p0.1 == p1.1 {
        let pa = line_params(p0, p1);
        let pb = line_params(p1, p0);
        assert(pa.n == 1 && pb.n == 1);
        assert(walk_x(pa, 0) == p0.0 as int && walk_y(pa, 0) == p0.1 as int);
        assert(walk_x(pb, 0) == p0.0 as int && walk_y(pb, 0) == p0.1 as int);
        assert forall|q: (int, int)| #[trigger] line_points(p0, p1).contains(q) implies line_points(
            p1,
            p0,
        ).contains(q) by {
            assert(q == (walk_x(pb, 0), walk_y(pb, 0)));
        }
        assert forall|q: (int, int)| #[trigger] line_points(p1, p0).contains(q) implies line_points(
            p0,
            p1,
        ).contains(q) by {
            assert(q == (walk_x(pa, 0), walk_y(pa, 0)));
        }
        assert(line_points(p0, p1) =~= line_points(p1, p0));
    } else {
        let pa = line_params(p0, p1);
        let pb = line_params(p1, p0);
        let dy = p1.1 as int - p0.1 as int;
        let ady = if dy < 0 {
            -dy
        } else {
            dy
        };
        let n = ady + 1;
        assert(pa.n == n && pb.n == n);
        assert(pa.steep && pb.steep);
        assert(pa.accum == 0 && pb.accum == 0);
        assert(pa.s0 == p0.0 as int && pb.s0 == p0.0 as int);
        assert(pa.fdir == -pb.fdir);
        assert forall|k: int| 0 <= k < n implies walk_state(pa, k) == (pa.s0, pa.err0)
            && walk_state(pb, k) == (pb.s0, pb.err0) by {
            lemma_vertical_walk(pa, k);
            lemma_vertical_walk(pb, k);
        }
        assert forall|q: (int, int)| #[trigger] line_points(p0, p1).contains(q) implies line_points(
            p1,
            p0,
        ).contains(q) by {
            let k = choose|k: int| 0 <= k < pa.n && q == (walk_x(pa, k), walk_y(pa, k));
            lemma_vertical_walk(pa, k);
            let k2 = n - 1 - k;
            lemma_vertical_walk(pb, k2);
            assert(walk_f(pb, k2) == walk_f(pa, k));
            assert(q == (walk_x(pb, k2), walk_y(pb, k2)));
        }
        assert forall|q: (int, int)| #[trigger] line_points(p1, p0).contains(q) implies line_points(
            p0,
            p1,
        ).contains(q) by {
            let k = choose|k: int| 0 <= k < pb.n && q == (walk_x(pb, k), walk_y(pb, k));
            lemma_vertical_walk(pb, k);
            let k2 = n - 1 - k;
            lemma_vertical_walk(pa, k2);
            assert(walk_f(pa, k2) == walk_f(pb, k));
            assert(q == (walk_x(pa, k2), walk_y(pa, k2)));
        }
        assert(line_points(p0, p1) =~= line_points(p1, p0));
    }
}

} // verus!
