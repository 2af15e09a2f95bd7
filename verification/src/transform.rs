//! The affine transform pipeline: one composable 4x4 matrix and a stack of
//! them for hierarchical scene composition.
//!
//! A `Transformer` owns a 4x4 matrix of fixed-point entries: the entry at
//! `(r, c)` stores `round(m * FP_ONE)` for the mathematical coefficient `m`.
//! Points are columns `(x, y, z, 1)` of plain integers, so applying the
//! matrix multiplies and then divides each output by `FP_ONE`, truncating.
//! Every operation that could push an entry or a coordinate outside the
//! representable range reports that instead of wrapping: `compose` and the
//! single-purpose mutators return `false` and leave the state unchanged,
//! and `apply_to_grid` returns `None`.
use vstd::prelude::*;
use crate::fixed::COORD_BOUND;
use crate::fixed::FP_ONE;
use crate::fixed::div_fp;
use crate::fixed::div_trunc128;
use crate::grid::Const2D;
use crate::grid::Dynamic2D;
use crate::grid::ParallelGrid;
use crate::grid::bounded_grid;
use crate::grid::dot_prefix;
use crate::grid::mat_entry;

verus! {

/// Largest magnitude a transform entry may reach: mathematical
/// coefficients up to `TRANS_BOUND / FP_ONE` in magnitude.
pub const TRANS_BOUND: i64 = 0x0400_0000_0000;

/// The rotation axes.
#[derive(Clone, Copy, Debug, PartialEq, Eq, Structural)]
pub enum Axis {
    X,
    Y,
    Z,
}

/// The negation of a fixed-point entry, kept within `i64`.
pub open spec fn neg64(s: i64) -> i64 {
    (-(s as int)) as i64
}

/// `g` is a 4x4 matrix.
pub open spec fn mat4_wf(g: Seq<Seq<i64>>) -> bool {
    g.len() == 4 && (forall|r: int| 0 <= r < 4 ==> (#[trigger] g[r]).len() == 4)
}

/// `g` is the fixed-point identity: `FP_ONE` on the diagonal, 0 elsewhere.
pub open spec fn is_fp_ident(g: Seq<Seq<i64>>) -> bool {
    mat4_wf(g) && forall|r: int, c: int|
        0 <= r < 4 && 0 <= c < 4 ==> #[trigger] g[r][c] == (if r == c {
            FP_ONE
        } else {
            0i64
        })
}

/// The fixed-point scaling matrix with diagonal `sx, sy, sz`.
pub open spec fn scale_mat_q(sx: i64, sy: i64, sz: i64) -> Seq<Seq<i64>> {
    seq![
        seq![sx, 0i64, 0i64, 0i64],
        seq![0i64, sy, 0i64, 0i64],
        seq![0i64, 0i64, sz, 0i64],
        seq![0i64, 0i64, 0i64, FP_ONE],
    ]
}

/// The fixed-point translation matrix moving by `tx, ty, tz`.
pub open spec fn translate_mat_q(tx: i64, ty: i64, tz: i64) -> Seq<Seq<i64>> {
    seq![
        seq![FP_ONE, 0i64, 0i64, tx],
        seq![0i64, FP_ONE, 0i64, ty],
        seq![0i64, 0i64, FP_ONE, tz],
        seq![0i64, 0i64, 0i64, FP_ONE],
    ]
}

/// The fixed-point rotation matrix about `axis` with cosine `c` and sine
/// `s` (both in fixed point).
pub open spec fn rotate_mat_q(axis: Axis, c: i64, s: i64) -> Seq<Seq<i64>> {
    match axis {
        Axis::X => seq![
            seq![FP_ONE, 0i64, 0i64, 0i64],
            seq![0i64, c, neg64(s), 0i64],
            seq![0i64, s, c, 0i64],
            seq![0i64, 0i64, 0i64, FP_ONE],
        ],
        Axis::Y => seq![
            seq![c, 0i64, s, 0i64],
            seq![0i64, FP_ONE, 0i64, 0i64],
            seq![neg64(s), 0i64, c, 0i64],
            seq![0i64, 0i64, 0i64, FP_ONE],
        ],
        Axis::Z => seq![
            seq![c, neg64(s), 0i64, 0i64],
            seq![s, c, 0i64, 0i64],
            seq![0i64, 0i64, FP_ONE, 0i64],
            seq![0i64, 0i64, 0i64, FP_ONE],
        ],
    }
}

/// The fixed-point identity as a `Const2D`.
fn fp_ident_matrix() -> (g: Const2D<i64, 4, 4>)
    ensures
        is_fp_ident(g.gview()),
        bounded_grid(g.gview(), TRANS_BOUND as int),
{
    let mut g = Const2D::<i64, 4, 4>::fill(0i64);
    proof {
        g.lemma_wf();
    }
    g.set(0, 0, FP_ONE);
    g.set(1, 1, FP_ONE);
    g.set(2, 2, FP_ONE);
    g.set(3, 3, FP_ONE);
    proof {
        g.lemma_wf();
    }
    g
}

/// The dot product of row `i` of `a` with column `j` of `b`, both of
/// height/width 4, in wide arithmetic; entry bounds flow to the result.
fn dot4_128<GA: ParallelGrid<Item = i64>, GB: ParallelGrid<Item = i64>>(
    a: &GA,
    b: &GB,
    i: usize,
    j: usize,
    ba: i64,
    bb: i64,
) -> (acc: i128)
    requires
        a.wf(),
        b.wf(),
        a.spec_width() == 4,
        b.spec_height() == 4,
        i < a.spec_height(),
        j < b.spec_width(),
        0 < ba <= 0x4000_0000_0000i64,
        0 < bb <= 0x4000_0000_0000i64,
        bounded_grid(a.gview(), ba as int),
        bounded_grid(b.gview(), bb as int),
    ensures
        acc == mat_entry(a.gview(), b.gview(), i as int, j as int),
{
    proof {
        a.lemma_wf();
        b.lemma_wf();
        assert(0 < (ba as int) * (bb as int) <= 0x1000_0000_0000_0000_0000_0000int)
            by (nonlinear_arith)
            requires
                0 < ba as int <= 0x4000_0000_0000int,
                0 < bb as int <= 0x4000_0000_0000int,
        ;
    }
    let mut acc: i128 = 0;
    for k in 0..4usize
        invariant
            0 < (ba as int) * (bb as int) <= 0x1000_0000_0000_0000_0000_0000int,
            a.wf(),
            b.wf(),
            a.spec_width() == 4,
            b.spec_height() == 4,
            i < a.spec_height(),
            j < b.spec_width(),
            0 < ba <= 0x4000_0000_0000i64,
            0 < bb <= 0x4000_0000_0000i64,
            bounded_grid(a.gview(), ba as int),
            bounded_grid(b.gview(), bb as int),
            a.gview().len() == a.spec_height(),
            b.gview().len() == b.spec_height(),
            forall|r: int|
                0 <= r < a.gview().len() ==> (#[trigger] a.gview()[r]).len() == a.spec_width(),
            forall|r: int|
                0 <= r < b.gview().len() ==> (#[trigger] b.gview()[r]).len() == b.spec_width(),
            acc == dot_prefix(a.gview(), b.gview(), i as int, j as int, k as int),
            -(k as int) * 0x1000_0000_0000_0000_0000_0000int <= acc <= (k as int)
                * 0x1000_0000_0000_0000_0000_0000int,
    {
        let av = *a.at(i, k);
        let bv = *b.at(k, j);
        proof {
            assert(-((ba as int) * (bb as int)) <= (av as int) * (bv as int) <= (ba as int) * (
            bb as int)) by (nonlinear_arith)
                requires
                    -(ba as int) <= av as int <= ba as int,
                    -(bb as int) <= bv as int <= bb as int,
                    0 < ba as int,
                    0 < bb as int,
            ;
        }
        acc = acc + (av as i128) * (bv as i128);
    }
    acc
}

/// The fixed-point product of two 4x4 transform matrices: multiply, then
/// rescale each entry by `FP_ONE`, truncating. `None` when an entry of the
/// product would exceed `TRANS_BOUND`.
fn fp_mul_checked(a: &Const2D<i64, 4, 4>, b: &Const2D<i64, 4, 4>) -> (res: Option<
    Const2D<i64, 4, 4>,
>)
    requires
        bounded_grid(a.gview(), TRANS_BOUND as int),
        bounded_grid(b.gview(), TRANS_BOUND as int),
    ensures
        match res {
            Some(g) => {
                &&& bounded_grid(g.gview(), TRANS_BOUND as int)
                &&& forall|i: int, j: int|
                    0 <= i < 4 && 0 <= j < 4 ==> #[trigger] g.gview()[i][j] == div_fp(
                        mat_entry(a.gview(), b.gview(), i, j),
                        FP_ONE as int,
                    )
            },
            None => exists|i: int, j: int|
                0 <= i < 4 && 0 <= j < 4 && !(-TRANS_BOUND <= #[trigger] div_fp(
                    mat_entry(a.gview(), b.gview(), i, j),
                    FP_ONE as int,
                ) <= TRANS_BOUND),
        },
{
    let mut g = Const2D::<i64, 4, 4>::fill(0i64);
    for i in 0..4usize
        invariant
            bounded_grid(a.gview(), TRANS_BOUND as int),
            bounded_grid(b.gview(), TRANS_BOUND as int),
            forall|ii: int, jj: int|
                0 <= ii < i && 0 <= jj < 4 ==> #[trigger] g.gview()[ii][jj] == div_fp(
                    mat_entry(a.gview(), b.gview(), ii, jj),
                    FP_ONE as int,
                ) && -TRANS_BOUND <= g.gview()[ii][jj] <= TRANS_BOUND,
    {
        for j in 0..4usize
            invariant
                i < 4,
                bounded_grid(a.gview(), TRANS_BOUND as int),
                bounded_grid(b.gview(), TRANS_BOUND as int),
                forall|ii: int, jj: int|
                    0 <= ii < i && 0 <= jj < 4 ==> #[trigger] g.gview()[ii][jj] == div_fp(
                        mat_entry(a.gview(), b.gview(), ii, jj),
                        FP_ONE as int,
                    ) && -TRANS_BOUND <= g.gview()[ii][jj] <= TRANS_BOUND,
                forall|jj: int|
                    0 <= jj < j ==> #[trigger] g.gview()[i as int][jj] == div_fp(
                        mat_entry(a.gview(), b.gview(), i as int, jj),
                        FP_ONE as int,
                    ) && -TRANS_BOUND <= g.gview()[i as int][jj] <= TRANS_BOUND,
        {
            let acc = dot4_128(a, b, i, j, TRANS_BOUND, TRANS_BOUND);
            let e = div_trunc128(acc, FP_ONE as i128);
            if e > TRANS_BOUND as i128 || e < -(TRANS_BOUND as i128) {
                return None;
            }
            g.set(i, j, e as i64);
        }
    }
    proof {
        g.lemma_wf();
    }
    Some(g)
}

/// One composable affine transform. The default state is the identity.
#[derive(Clone, Copy, Debug)]
pub struct Transformer {
    m: Const2D<i64, 4, 4>,
}

impl Transformer {
    /// Transform entries always stay within `TRANS_BOUND`.
    #[verifier::type_invariant]
    closed spec fn inv(&self) -> bool {
        bounded_grid(self.m.gview(), TRANS_BOUND as int) && mat4_wf(self.m.gview())
    }

    /// The fixed-point entries of this transform.
    pub closed spec fn tview(&self) -> Seq<Seq<i64>> {
        self.m.gview()
    }

    /// Forget all accumulated operations: back to the identity.
    pub fn reset(&mut self)
        ensures
            is_fp_ident(final(self).tview()),
    {
        self.m = fp_ident_matrix();
    }

    /// Left-multiply a fixed-point matrix `b` into the state, rescaling.
    /// On overflow the state is unchanged and the result is `false`.
    fn prepend(&mut self, b: &Const2D<i64, 4, 4>) -> (ok: bool)
        requires
            bounded_grid(b.gview(), TRANS_BOUND as int),
        ensures
            ok ==> forall|i: int, j: int|
                0 <= i < 4 && 0 <= j < 4 ==> #[trigger] final(self).tview()[i][j] == div_fp(
                    mat_entry(b.gview(), old(self).tview(), i, j),
                    FP_ONE as int,
                ),
            !ok ==> final(self).tview() == old(self).tview() && exists|i: int, j: int|
                0 <= i < 4 && 0 <= j < 4 && !(-TRANS_BOUND <= #[trigger] div_fp(
                    mat_entry(b.gview(), old(self).tview(), i, j),
                    FP_ONE as int,
                ) <= TRANS_BOUND),
    {
        proof {
            use_type_invariant(&*self);
        }
        match fp_mul_checked(b, &self.m) {
            Some(g) => {
                proof {
                    let tmp = g;
                    tmp.lemma_wf();
                }
                self.m = g;
                true
            },
            None => false,
        }
    }

    /// Prepend a scaling by the fixed-point factors `sx, sy, sz`.
    pub fn scale(&mut self, sx: i64, sy: i64, sz: i64) -> (ok: bool)
        requires
            -TRANS_BOUND <= sx <= TRANS_BOUND,
            -TRANS_BOUND <= sy <= TRANS_BOUND,
            -TRANS_BOUND <= sz <= TRANS_BOUND,
        ensures
            ok ==> forall|i: int, j: int|
                0 <= i < 4 && 0 <= j < 4 ==> #[trigger] final(self).tview()[i][j] == div_fp(
                    mat_entry(scale_mat_q(sx, sy, sz), old(self).tview(), i, j),
                    FP_ONE as int,
                ),
            !ok ==> final(self).tview() == old(self).tview() && exists|i: int, j: int|
                0 <= i < 4 && 0 <= j < 4 && !(-TRANS_BOUND <= #[trigger] div_fp(
                    mat_entry(scale_mat_q(sx, sy, sz), old(self).tview(), i, j),
                    FP_ONE as int,
                ) <= TRANS_BOUND),
    {
        let mut b = fp_ident_matrix();
        b.set(0, 0, sx);
        b.set(1, 1, sy);
        b.set(2, 2, sz);
        proof {
            b.lemma_wf();
            assert(b.gview() =~~= scale_mat_q(sx, sy, sz));
        }
        let ok = self.prepend(&b);
        proof {
            if !ok {
                let (i, j): (int, int) = choose|i: int, j: int|
                    0 <= i < 4 && 0 <= j < 4 && !(-TRANS_BOUND <= #[trigger] div_fp(
                        mat_entry(b.gview(), old(self).tview(), i, j),
                        FP_ONE as int,
                    ) <= TRANS_BOUND);
                assert(0 <= i < 4 && 0 <= j < 4 && !(-TRANS_BOUND <= div_fp(
                    mat_entry(scale_mat_q(sx, sy, sz), old(self).tview(), i, j),
                    FP_ONE as int,
                ) <= TRANS_BOUND));
            }
        }
        ok
    }

    /// Prepend a translation by the fixed-point offsets `tx, ty, tz`.
    pub fn translate(&mut self, tx: i64, ty: i64, tz: i64) -> (ok: bool)
        requires
            -TRANS_BOUND <= tx <= TRANS_BOUND,
            -TRANS_BOUND <= ty <= TRANS_BOUND,
            -TRANS_BOUND <= tz <= TRANS_BOUND,
        ensures
            ok ==> forall|i: int, j: int|
                0 <= i < 4 && 0 <= j < 4 ==> #[trigger] final(self).tview()[i][j] == div_fp(
                    mat_entry(translate_mat_q(tx, ty, tz), old(self).tview(), i, j),
                    FP_ONE as int,
                ),
            !ok ==> final(self).tview() == old(self).tview() && exists|i: int, j: int|
                0 <= i < 4 && 0 <= j < 4 && !(-TRANS_BOUND <= #[trigger] div_fp(
                    mat_entry(translate_mat_q(tx, ty, tz), old(self).tview(), i, j),
                    FP_ONE as int,
                ) <= TRANS_BOUND),
    {
        let mut b = fp_ident_matrix();
        b.set(0, 3, tx);
        b.set(1, 3, ty);
        b.set(2, 3, tz);
        proof {
            b.lemma_wf();
            assert(b.gview() =~~= translate_mat_q(tx, ty, tz));
        }
        let ok = self.prepend(&b);
        proof {
            if !ok {
                let (i, j): (int, int) = choose|i: int, j: int|
                    0 <= i < 4 && 0 <= j < 4 && !(-TRANS_BOUND <= #[trigger] div_fp(
                        mat_entry(b.gview(), old(self).tview(), i, j),
                        FP_ONE as int,
                    ) <= TRANS_BOUND);
                assert(0 <= i < 4 && 0 <= j < 4 && !(-TRANS_BOUND <= div_fp(
                    mat_entry(translate_mat_q(tx, ty, tz), old(self).tview(), i, j),
                    FP_ONE as int,
                ) <= TRANS_BOUND));
            }
        }
        ok
    }

    /// Prepend a rotation about `axis`, given the angle's fixed-point
    /// cosine and sine.
    pub fn rotate(&mut self, axis: Axis, cos_q: i64, sin_q: i64) -> (ok: bool)
        requires
            -FP_ONE <= cos_q <= FP_ONE,
            -FP_ONE <= sin_q <= FP_ONE,
        ensures
            ok ==> forall|i: int, j: int|
                0 <= i < 4 && 0 <= j < 4 ==> #[trigger] final(self).tview()[i][j] == div_fp(
                    mat_entry(rotate_mat_q(axis, cos_q, sin_q), old(self).tview(), i, j),
                    FP_ONE as int,
                ),
            !ok ==> final(self).tview() == old(self).tview() && exists|i: int, j: int|
                0 <= i < 4 && 0 <= j < 4 && !(-TRANS_BOUND <= #[trigger] div_fp(
                    mat_entry(rotate_mat_q(axis, cos_q, sin_q), old(self).tview(), i, j),
                    FP_ONE as int,
                ) <= TRANS_BOUND),
    {
        let mut b = fp_ident_matrix();
        match axis {
            Axis::X => {
                b.set(1, 1, cos_q);
                b.set(1, 2, -sin_q);
                b.set(2, 1, sin_q);
                b.set(2, 2, cos_q);
            },
            Axis::Y => {
                b.set(0, 0, cos_q);
                b.set(0, 2, sin_q);
                b.set(2, 0, -sin_q);
                b.set(2, 2, cos_q);
            },
            Axis::Z => {
                b.set(0, 0, cos_q);
                b.set(0, 1, -sin_q);
                b.set(1, 0, sin_q);
                b.set(1, 1, cos_q);
            },
        }
        proof {
            b.lemma_wf();
            assert(b.gview() =~~= rotate_mat_q(axis, cos_q, sin_q));
        }
        let ok = self.prepend(&b);
        proof {
            if !ok {
                let (i, j): (int, int) = choose|i: int, j: int|
                    0 <= i < 4 && 0 <= j < 4 && !(-TRANS_BOUND <= #[trigger] div_fp(
                        mat_entry(b.gview(), old(self).tview(), i, j),
                        FP_ONE as int,
                    ) <= TRANS_BOUND);
                assert(0 <= i < 4 && 0 <= j < 4 && !(-TRANS_BOUND <= div_fp(
                    mat_entry(rotate_mat_q(axis, cos_q, sin_q), old(self).tview(), i, j),
                    FP_ONE as int,
                ) <= TRANS_BOUND));
            }
        }
        ok
    }

    /// Right-multiply `other` into this transform (`self = self * other`),
    /// accumulating a local transform before it is prepended to a stack
    /// frame. On overflow the state is unchanged and the result is `false`.
    pub fn compose(&mut self, other: &Transformer) -> (ok: bool)
        ensures
            ok ==> forall|i: int, j: int|
                0 <= i < 4 && 0 <= j < 4 ==> #[trigger] final(self).tview()[i][j] == div_fp(
                    mat_entry(old(self).tview(), other.tview(), i, j),
                    FP_ONE as int,
                ),
            !ok ==> final(self).tview() == old(self).tview() && exists|i: int, j: int|
                0 <= i < 4 && 0 <= j < 4 && !(-TRANS_BOUND <= #[trigger] div_fp(
                    mat_entry(old(self).tview(), other.tview(), i, j),
                    FP_ONE as int,
                ) <= TRANS_BOUND),
    {
        proof {
            use_type_invariant(&*self);
            use_type_invariant(other);
        }
        match fp_mul_checked(&self.m, &other.m) {
            Some(g) => {
                proof {
                    let tmp = g;
                    tmp.lemma_wf();
                }
                self.m = g;
                true
            },
            None => {
                proof {
                    let (i, j): (int, int) = choose|i: int, j: int|
                        0 <= i < 4 && 0 <= j < 4 && !(-TRANS_BOUND <= #[trigger] div_fp(
                            mat_entry(self.m.gview(), other.m.gview(), i, j),
                            FP_ONE as int,
                        ) <= TRANS_BOUND);
                    assert(0 <= i < 4 && 0 <= j < 4 && !(-TRANS_BOUND <= div_fp(
                        mat_entry(old(self).tview(), other.tview(), i, j),
                        FP_ONE as int,
                    ) <= TRANS_BOUND));
                }
                false
            },
        }
    }

    /// Apply this transform to a 4-row grid of homogeneous point columns:
    /// multiply and rescale each entry, truncating. `None` when a
    /// transformed coordinate would leave the representable range, with the
    /// grid unread thereafter.
    pub fn apply_to_grid(&self, g: &Dynamic2D<i64>) -> (res: Option<Dynamic2D<i64>>)
        requires
            g.wf(),
            g.spec_height() == 4,
            bounded_grid(g.gview(), COORD_BOUND as int),
        ensures
            match res {
                Some(r) => {
                    &&& r.wf()
                    &&& r.spec_height() == 4
                    &&& r.spec_width() == g.spec_width()
                    &&& bounded_grid(r.gview(), COORD_BOUND as int)
                    &&& forall|i: int, j: int|
                        0 <= i < 4 && 0 <= j < g.spec_width() ==> #[trigger] r.gview()[i][j]
                            == div_fp(mat_entry(self.tview(), g.gview(), i, j), FP_ONE as int)
                },
                None => exists|i: int, j: int|
                    0 <= i < 4 && 0 <= j < g.spec_width() && !(-COORD_BOUND <= #[trigger] div_fp(
                        mat_entry(self.tview(), g.gview(), i, j),
                        FP_ONE as int,
                    ) <= COORD_BOUND),
            },
    {
        proof {
            use_type_invariant(self);
            g.lemma_wf();
        }
        let w = g.get_width();
        let mut out = Dynamic2D::<i64>::new(w, 4);
        for i in 0..4usize
            invariant
                g.wf(),
                g.spec_height() == 4,
                w == g.spec_width(),
                bounded_grid(g.gview(), COORD_BOUND as int),
                bounded_grid(self.tview(), TRANS_BOUND as int),
                mat4_wf(self.tview()),
                self.m.gview() == self.tview(),
                out.wf(),
                out.spec_height() == 4,
                out.spec_width() == w,
                forall|ii: int, jj: int|
                    0 <= ii < i && 0 <= jj < w ==> #[trigger] out.gview()[ii][jj] == div_fp(
                        mat_entry(self.tview(), g.gview(), ii, jj),
                        FP_ONE as int,
                    ) && -COORD_BOUND <= out.gview()[ii][jj] <= COORD_BOUND,
        {
            for j in 0..w
                invariant
                    i < 4,
                    g.wf(),
                    g.spec_height() == 4,
                    w == g.spec_width(),
                    bounded_grid(g.gview(), COORD_BOUND as int),
                    bounded_grid(self.tview(), TRANS_BOUND as int),
                    mat4_wf(self.tview()),
                    self.m.gview() == self.tview(),
                    out.wf(),
                    out.spec_height() == 4,
                    out.spec_width() == w,
                    forall|ii: int, jj: int|
                        0 <= ii < i && 0 <= jj < w ==> #[trigger] out.gview()[ii][jj] == div_fp(
                            mat_entry(self.tview(), g.gview(), ii, jj),
                            FP_ONE as int,
                        ) && -COORD_BOUND <= out.gview()[ii][jj] <= COORD_BOUND,
                    forall|jj: int|
                        0 <= jj < j ==> #[trigger] out.gview()[i as int][jj] == div_fp(
                            mat_entry(self.tview(), g.gview(), i as int, jj),
                            FP_ONE as int,
                        ) && -COORD_BOUND <= out.gview()[i as int][jj] <= COORD_BOUND,
            {
                let acc = dot4_128(&self.m, g, i, j, TRANS_BOUND, COORD_BOUND);
                let e = div_trunc128(acc, FP_ONE as i128);
                if e > COORD_BOUND as i128 || e < -(COORD_BOUND as i128) {
                    return None;
                }
                out.set(i, j, e as i64);
            }
        }
        proof {
            out.lemma_wf();
        }
        Some(out)
    }
}

impl Default for Transformer {
    /// The identity transform.
    fn default() -> (t: Self)
        ensures
            is_fp_ident(t.tview()),
    {
        Transformer { m: fp_ident_matrix() }
    }
}

/// A non-empty stack of transforms modeling nested scene-graph scopes; the
/// top frame is the active one.
#[derive(Clone, Debug)]
pub struct TStack {
    matrices: Vec<Transformer>,
}

impl TStack {
    /// The frames, bottom first.
    pub closed spec fn frames(&self) -> Seq<Transformer> {
        self.matrices@
    }

    /// The stack never becomes empty.
    pub open spec fn wf(&self) -> bool {
        self.frames().len() >= 1
    }

    /// The active frame, as a mutable reference.
    pub fn top(&mut self) -> (t: &mut Transformer)
        requires
            old(self).wf(),
        ensures
            *t == old(self).frames().last(),
            final(self).frames() == old(self).frames().update(
                old(self).frames().len() - 1,
                *final(t),
            ),
            final(self).wf(),
    {
        let idx = self.matrices.len() - 1;
        &mut self.matrices[idx]
    }

    /// Enter a nested coordinate frame: push a copy of the active frame.
    pub fn push_copy(&mut self)
        requires
            old(self).wf(),
        ensures
            final(self).frames() == old(self).frames().push(old(self).frames().last()),
            final(self).wf(),
    {
        let idx = self.matrices.len() - 1;
        let new_top = self.matrices[idx];
        self.matrices.push(new_top);
    }

    /// Leave a nested coordinate frame. Popping the last frame is refused
    /// by contract: the stack stays non-empty.
    pub fn pop(&mut self)
        requires
            old(self).wf(),
            old(self).frames().len() > 1,
        ensures
            final(self).frames() == old(self).frames().drop_last(),
            final(self).wf(),
    {
        self.matrices.pop();
    }
}

impl Default for TStack {
    /// A stack of one identity frame.
    fn default() -> (t: Self)
        ensures
            t.wf(),
            t.frames().len() == 1,
            is_fp_ident(t.frames()[0].tview()),
    {
        let mut matrices: Vec<Transformer> = Vec::new();
        matrices.push(Transformer::default());
        TStack { matrices }
    }
}

} // verus!
