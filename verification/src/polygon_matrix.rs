//! The polygon container: a 4-row matrix whose columns, grouped in threes,
//! are the vertices of triangles, together with two derived families of
//! normals.
//!
//! The face normal of a triangle is the cross product of two of its edge
//! vectors, so the vertex winding order fixes its sign; meshes here wind
//! counter-clockwise seen from outside, making outward normals face the
//! camera with a nonnegative `z`. The vertex normal of a point column is
//! the normalized mean of the face normals of all triangles that contain a
//! vertex at exactly the same coordinates. Both families are recomputed
//! whenever the point set changes, never patched incrementally.
use vstd::prelude::*;
use crate::edge_matrix::add_homogeneous_col;
use crate::edge_matrix::col3;
use crate::fixed::COORD_BOUND;
use crate::fixed::FP_ONE;
use crate::fixed::div_fp;
use crate::grid::Dynamic2D;
use crate::grid::ParallelGrid;
use crate::grid::bounded_grid;
use crate::grid::mat_entry;
use crate::transform::Transformer;
use crate::vector3d::Vector3D;
use crate::vector3d::normalized_comp;
use crate::vector3d::sum_x;
use crate::vector3d::sum_y;
use crate::vector3d::sum_z;
use crate::vector3d::vec_bounded;

verus! {

/// Largest magnitude a face-normal component can reach for in-range
/// coordinates.
pub const NORMAL_BOUND: i64 = 0x8_0000_0000_0000;

/// The `x` component of the face normal of triangle `t`: the cross product
/// of the edges from its first vertex to the other two.
pub open spec fn tri_normal_x(g: Seq<Seq<i64>>, t: int) -> int {
    let a = col3(g, 3 * t);
    let b = col3(g, 3 * t + 1);
    let c = col3(g, 3 * t + 2);
    (b.1 - a.1) * (c.2 - a.2) - (b.2 - a.2) * (c.1 - a.1)
}

/// The `y` component of the face normal of triangle `t`.
pub open spec fn tri_normal_y(g: Seq<Seq<i64>>, t: int) -> int {
    let a = col3(g, 3 * t);
    let b = col3(g, 3 * t + 1);
    let c = col3(g, 3 * t + 2);
    (b.2 - a.2) * (c.0 - a.0) - (b.0 - a.0) * (c.2 - a.2)
}

/// The `z` component of the face normal of triangle `t`.
pub open spec fn tri_normal_z(g: Seq<Seq<i64>>, t: int) -> int {
    let a = col3(g, 3 * t);
    let b = col3(g, 3 * t + 1);
    let c = col3(g, 3 * t + 2);
    (b.0 - a.0) * (c.1 - a.1) - (b.1 - a.1) * (c.0 - a.0)
}

/// Triangle `t` has a vertex at exactly the point `p`.
pub open spec fn tri_contains(g: Seq<Seq<i64>>, t: int, p: (i64, i64, i64)) -> bool {
    col3(g, 3 * t) == p || col3(g, 3 * t + 1) == p || col3(g, 3 * t + 2) == p
}

/// The face normals of the first `n` triangles that have a vertex at
/// exactly `p`, in triangle order.
pub open spec fn adjacent_normals(
    g: Seq<Seq<i64>>,
    normals: Seq<Vector3D>,
    p: (i64, i64, i64),
    n: int,
) -> Seq<Vector3D>
    decreases n,
{
    if n <= 0 {
        Seq::empty()
    } else {
        let rest = adjacent_normals(g, normals, p, n - 1);
        if tri_contains(g, n - 1, p) {
            rest.push(normals[n - 1])
        } else {
            rest
        }
    }
}

/// The smoothed normal at point `p`: the normalized mean of the face
/// normals of the triangles sharing `p`, as fixed-point components; the
/// zero vector when no triangle contains `p`.
pub open spec fn vertex_normal_of(
    g: Seq<Seq<i64>>,
    normals: Seq<Vector3D>,
    p: (i64, i64, i64),
    ntri: int,
) -> (int, int, int) {
    let s = adjacent_normals(g, normals, p, ntri);
    if s.len() == 0 {
        (0int, 0int, 0int)
    } else {
        let mx = div_fp(sum_x(s), s.len() as int);
        let my = div_fp(sum_y(s), s.len() as int);
        let mz = div_fp(sum_z(s), s.len() as int);
        (
            normalized_comp(mx, mx, my, mz),
            normalized_comp(my, mx, my, mz),
            normalized_comp(mz, mx, my, mz),
        )
    }
}

#[derive(Clone, Debug)]
pub struct PolygonMatrix {
    matrix: Dynamic2D<i64>,
    normals: Vec<Vector3D>,
    vertex_normals: Vec<Vector3D>,
}

impl PolygonMatrix {
    /// The underlying 4-row grid of homogeneous point columns.
    pub closed spec fn grid_view(&self) -> Seq<Seq<i64>> {
        self.matrix.gview()
    }

    /// Number of point columns.
    pub closed spec fn point_count(&self) -> nat {
        self.matrix.spec_width()
    }

    /// Number of triangles.
    pub open spec fn tri_count(&self) -> nat {
        self.point_count() / 3
    }

    /// Point `j`, read from the first three rows.
    pub open spec fn point_at(&self, j: int) -> (i64, i64, i64) {
        col3(self.grid_view(), j)
    }

    /// The derived face normals.
    pub closed spec fn normals_seq(&self) -> Seq<Vector3D> {
        self.normals@
    }

    /// The derived per-point smoothed normals.
    pub closed spec fn vertex_normals_seq(&self) -> Seq<Vector3D> {
        self.vertex_normals@
    }

    /// A well-formed polygon matrix: four rows, a column count divisible by
    /// three, in-range coordinates, and one derived normal per triangle and
    /// per point, each holding its defining value.
    pub closed spec fn wf(&self) -> bool {
        &&& self.matrix.wf()
        &&& self.matrix.spec_height() == 4
        &&& self.matrix.spec_width() % 3 == 0
        &&& bounded_grid(self.matrix.gview(), COORD_BOUND as int)
        &&& self.normals@.len() == self.tri_count()
        &&& self.vertex_normals@.len() == self.point_count()
        &&& forall|t: int|
            0 <= t < self.tri_count() ==> (#[trigger] self.normals@[t]).x == tri_normal_x(
                self.grid_view(),
                t,
            ) && self.normals@[t].y == tri_normal_y(self.grid_view(), t) && self.normals@[t].z
                == tri_normal_z(self.grid_view(), t)
        &&& forall|t: int|
            0 <= t < self.tri_count() ==> vec_bounded(
                #[trigger] self.normals@[t],
                NORMAL_BOUND as int,
            )
        &&& forall|j: int|
            0 <= j < self.point_count() ==> ((#[trigger] self.vertex_normals@[j]).x as int,
            self.vertex_normals@[j].y as int, self.vertex_normals@[j].z as int)
                == vertex_normal_of(
                self.grid_view(),
                self.normals@,
                self.point_at(j),
                self.tri_count() as int,
            )
        &&& forall|j: int|
            0 <= j < self.point_count() ==> vec_bounded(
                #[trigger] self.vertex_normals@[j],
                FP_ONE as int,
            )
    }

    /// What `wf` guarantees of the shape, for callers.
    pub proof fn lemma_wf(&self)
        requires
            self.wf(),
        ensures
            self.point_count() % 3 == 0,
            self.tri_count() * 3 == self.point_count(),
            self.grid_view().len() == 4,
            forall|r: int|
                0 <= r < 4 ==> (#[trigger] self.grid_view()[r]).len() == self.point_count(),
            bounded_grid(self.grid_view(), COORD_BOUND as int),
            self.normals_seq().len() == self.tri_count(),
            self.vertex_normals_seq().len() == self.point_count(),
            self.point_count() <= usize::MAX,
    {
        self.matrix.lemma_wf();
    }

    /// An empty polygon list.
    pub fn empty() -> (p: Self)
        ensures
            p.wf(),
            p.point_count() == 0,
    {
        let m = Dynamic2D::<i64>::new(0, 4);
        proof {
            m.lemma_wf();
        }
        PolygonMatrix { matrix: m, normals: Vec::new(), vertex_normals: Vec::new() }
    }

    /// Adopt a 4-row grid whose column count is divisible by three, and
    /// derive its face and vertex normals.
    pub fn from_fast(edgelist: Dynamic2D<i64>) -> (p: Self)
        requires
            edgelist.wf(),
            edgelist.spec_height() == 4,
            edgelist.spec_width() % 3 == 0,
            bounded_grid(edgelist.gview(), COORD_BOUND as int),
        ensures
            p.wf(),
            p.grid_view() == edgelist.gview(),
            p.point_count() == edgelist.spec_width(),
    {
        proof {
            edgelist.lemma_wf();
        }
        let (normals, vertex_normals) = derive_normals(&edgelist);
        PolygonMatrix { matrix: edgelist, normals, vertex_normals }
    }

    /// Copy any suitable grid and derive its normals.
    pub fn from<G: ParallelGrid<Item = i64>>(grid: &G) -> (p: Self)
        requires
            grid.wf(),
            grid.spec_height() == 4,
            grid.spec_width() % 3 == 0,
            bounded_grid(grid.gview(), COORD_BOUND as int),
        ensures
            p.wf(),
            p.point_count() == grid.spec_width(),
            forall|r: int, c: int|
                0 <= r < 4 && 0 <= c < grid.spec_width() ==> #[trigger] p.grid_view()[r][c]
                    == grid.gview()[r][c],
    {
        let copy = Dynamic2D::from(grid);
        proof {
            grid.lemma_wf();
            copy.lemma_wf();
        }
        Self::from_fast(copy)
    }

    /// Append a triangle's three vertices and re-derive both normal
    /// families for the grown point set.
    pub fn add_triangle(
        &mut self,
        p0: (i64, i64, i64),
        p1: (i64, i64, i64),
        p2: (i64, i64, i64),
    )
        requires
            old(self).wf(),
            old(self).point_count() + 3 <= usize::MAX,
            -COORD_BOUND <= p0.0 <= COORD_BOUND,
            -COORD_BOUND <= p0.1 <= COORD_BOUND,
            -COORD_BOUND <= p0.2 <= COORD_BOUND,
            -COORD_BOUND <= p1.0 <= COORD_BOUND,
            -COORD_BOUND <= p1.1 <= COORD_BOUND,
            -COORD_BOUND <= p1.2 <= COORD_BOUND,
            -COORD_BOUND <= p2.0 <= COORD_BOUND,
            -COORD_BOUND <= p2.1 <= COORD_BOUND,
            -COORD_BOUND <= p2.2 <= COORD_BOUND,
        ensures
            final(self).wf(),
            final(self).point_count() == old(self).point_count() + 3,
            forall|r: int, c: int|
                0 <= r < 4 && 0 <= c < old(self).point_count()
                    ==> #[trigger] final(self).grid_view()[r][c] == old(self).grid_view()[r][c],
            final(self).point_at(old(self).point_count() as int) == p0,
            final(self).point_at(old(self).point_count() as int + 1) == p1,
            final(self).point_at(old(self).point_count() as int + 2) == p2,
            final(self).grid_view()[3][old(self).point_count() as int] == 1i64,
            final(self).grid_view()[3][old(self).point_count() as int + 1] == 1i64,
            final(self).grid_view()[3][old(self).point_count() as int + 2] == 1i64,
    {
        proof {
            self.matrix.lemma_wf();
        }
        add_homogeneous_col(&mut self.matrix, p0);
        add_homogeneous_col(&mut self.matrix, p1);
        add_homogeneous_col(&mut self.matrix, p2);
        let (normals, vertex_normals) = derive_normals(&self.matrix);
        self.normals = normals;
        self.vertex_normals = vertex_normals;
    }

    /// Number of stored triangles.
    pub fn get_poly_count(&self) -> (n: usize)
        requires
            self.wf(),
        ensures
            n == self.tri_count(),
    {
        self.matrix.get_width() / 3
    }

    /// Read point `j`.
    pub fn point(&self, j: usize) -> (p: (i64, i64, i64))
        requires
            self.wf(),
            j < self.point_count(),
        ensures
            p == self.point_at(j as int),
            -COORD_BOUND <= p.0 <= COORD_BOUND,
            -COORD_BOUND <= p.1 <= COORD_BOUND,
            -COORD_BOUND <= p.2 <= COORD_BOUND,
    {
        proof {
            self.matrix.lemma_wf();
        }
        (*self.matrix.at(0, j), *self.matrix.at(1, j), *self.matrix.at(2, j))
    }

    /// The face normal of triangle `t`.
    pub fn normal(&self, t: usize) -> (n: Vector3D)
        requires
            self.wf(),
            t < self.tri_count(),
        ensures
            n == self.normals_seq()[t as int],
            n.x == tri_normal_x(self.grid_view(), t as int),
            n.y == tri_normal_y(self.grid_view(), t as int),
            n.z == tri_normal_z(self.grid_view(), t as int),
            vec_bounded(n, NORMAL_BOUND as int),
    {
        self.normals[t]
    }

    /// The smoothed normal at point `j`, a fixed-point direction: the
    /// normalized mean of the face normals of the triangles sharing
    /// exactly that point.
    pub fn vertex_normal(&self, j: usize) -> (n: Vector3D)
        requires
            self.wf(),
            j < self.point_count(),
        ensures
            n == self.vertex_normals_seq()[j as int],
            (n.x as int, n.y as int, n.z as int) == vertex_normal_of(
                self.grid_view(),
                self.normals_seq(),
                self.point_at(j as int),
                self.tri_count() as int,
            ),
            vec_bounded(n, FP_ONE as int),
    {
        self.vertex_normals[j]
    }
}

/// Compute the face normal of triangle `t` of a 4-row point grid.
fn face_normal(m: &Dynamic2D<i64>, t: usize) -> (n: Vector3D)
    requires
        m.wf(),
        m.spec_height() == 4,
        bounded_grid(m.gview(), COORD_BOUND as int),
        3 * t + 2 < m.spec_width(),
    ensures
        n.x == tri_normal_x(m.gview(), t as int),
        n.y == tri_normal_y(m.gview(), t as int),
        n.z == tri_normal_z(m.gview(), t as int),
        vec_bounded(n, NORMAL_BOUND as int),
{
    proof {
        m.lemma_wf();
    }
    let a = (*m.at(0, 3 * t), *m.at(1, 3 * t), *m.at(2, 3 * t));
    let b = (*m.at(0, 3 * t + 1), *m.at(1, 3 * t + 1), *m.at(2, 3 * t + 1));
    let c = (*m.at(0, 3 * t + 2), *m.at(1, 3 * t + 2), *m.at(2, 3 * t + 2));
    let u = Vector3D::from_points(a, b);
    let v = Vector3D::from_points(a, c);
    proof {
        lemma_edge_prod_bound(u.y as int, v.z as int);
        lemma_edge_prod_bound(u.z as int, v.y as int);
        lemma_edge_prod_bound(u.z as int, v.x as int);
        lemma_edge_prod_bound(u.x as int, v.z as int);
        lemma_edge_prod_bound(u.x as int, v.y as int);
        lemma_edge_prod_bound(u.y as int, v.x as int);
    }
    u.cross(&v)
}

/// The product of two edge-vector components of in-range triangles stays
/// within half of `NORMAL_BOUND`.
proof fn lemma_edge_prod_bound(a: int, b: int)
    requires
        -0x200_0000 <= a <= 0x200_0000,
        -0x200_0000 <= b <= 0x200_0000,
    ensures
        -0x4_0000_0000_0000 <= a * b <= 0x4_0000_0000_0000,
{
    assert(-0x4_0000_0000_0000 <= a * b <= 0x4_0000_0000_0000) by (nonlinear_arith)
        requires
            -0x200_0000 <= a <= 0x200_0000,
            -0x200_0000 <= b <= 0x200_0000,
    ;
}

/// Derive both normal families of a 4-row point grid whose column count is
/// divisible by three.
fn derive_normals(m: &Dynamic2D<i64>) -> (r: (Vec<Vector3D>, Vec<Vector3D>))
    requires
        m.wf(),
        m.spec_height() == 4,
        m.spec_width() % 3 == 0,
        bounded_grid(m.gview(), COORD_BOUND as int),
    ensures
        r.0@.len() == m.spec_width() / 3,
        r.1@.len() == m.spec_width(),
        forall|t: int|
            0 <= t < m.spec_width() / 3 ==> (#[trigger] r.0@[t]).x == tri_normal_x(m.gview(), t)
                && r.0@[t].y == tri_normal_y(m.gview(), t) && r.0@[t].z == tri_normal_z(
                m.gview(),
                t,
            ),
        forall|t: int|
            0 <= t < m.spec_width() / 3 ==> vec_bounded(#[trigger] r.0@[t], NORMAL_BOUND as int),
        forall|j: int|
            0 <= j < m.spec_width() ==> ((#[trigger] r.1@[j]).x as int, r.1@[j].y as int,
            r.1@[j].z as int) == vertex_normal_of(
                m.gview(),
                r.0@,
                col3(m.gview(), j),
                m.spec_width() as int / 3,
            ),
        forall|j: int|
            0 <= j < m.spec_width() ==> vec_bounded(#[trigger] r.1@[j], FP_ONE as int),
{
    proof {
        m.lemma_wf();
    }
    let w = m.get_width();
    let ntri = w / 3;
    let mut normals: Vec<Vector3D> = Vec::new();
    for t in 0..ntri
        invariant
            m.wf(),
            m.spec_height() == 4,
            bounded_grid(m.gview(), COORD_BOUND as int),
            ntri == m.spec_width() / 3,
            w == m.spec_width(),
            normals@.len() == t,
            forall|tt: int|
                0 <= tt < t ==> (#[trigger] normals@[tt]).x == tri_normal_x(m.gview(), tt)
                    && normals@[tt].y == tri_normal_y(m.gview(), tt) && normals@[tt].z
                    == tri_normal_z(m.gview(), tt),
            forall|tt: int|
                0 <= tt < t ==> vec_bounded(#[trigger] normals@[tt], NORMAL_BOUND as int),
    {
        normals.push(face_normal(m, t));
    }
    let mut vertex_normals: Vec<Vector3D> = Vec::new();
    for j in 0..w
        invariant
            m.wf(),
            m.spec_height() == 4,
            bounded_grid(m.gview(), COORD_BOUND as int),
            ntri == m.spec_width() / 3,
            w == m.spec_width(),
            normals@.len() == ntri,
            forall|tt: int|
                0 <= tt < ntri ==> (#[trigger] normals@[tt]).x == tri_normal_x(m.gview(), tt)
                    && normals@[tt].y == tri_normal_y(m.gview(), tt) && normals@[tt].z
                    == tri_normal_z(m.gview(), tt),
            forall|tt: int|
                0 <= tt < ntri ==> vec_bounded(#[trigger] normals@[tt], NORMAL_BOUND as int),
            vertex_normals@.len() == j,
            forall|jj: int|
                0 <= jj < j ==> ((#[trigger] vertex_normals@[jj]).x as int,
                vertex_normals@[jj].y as int, vertex_normals@[jj].z as int) == vertex_normal_of(
                    m.gview(),
                    normals@,
                    col3(m.gview(), jj),
                    ntri as int,
                ),
            forall|jj: int|
                0 <= jj < j ==> vec_bounded(#[trigger] vertex_normals@[jj], FP_ONE as int),
    {
        let p = (*m.at(0, j), *m.at(1, j), *m.at(2, j));
        let mut collected: Vec<Vector3D> = Vec::new();
        for t in 0..ntri
            invariant
                m.wf(),
                m.spec_height() == 4,
                bounded_grid(m.gview(), COORD_BOUND as int),
                ntri == m.spec_width() / 3,
                w == m.spec_width(),
                j < w,
                p == col3(m.gview(), j as int),
                normals@.len() == ntri,
                forall|tt: int|
                    0 <= tt < ntri ==> vec_bounded(#[trigger] normals@[tt], NORMAL_BOUND as int),
                collected@ == adjacent_normals(m.gview(), normals@, p, t as int),
                forall|k: int|
                    0 <= k < collected@.len() ==> vec_bounded(
                        #[trigger] collected@[k],
                        NORMAL_BOUND as int,
                    ),
        {
            let a0 = *m.at(0, 3 * t);
            let a1 = *m.at(1, 3 * t);
            let a2 = *m.at(2, 3 * t);
            let b0 = *m.at(0, 3 * t + 1);
            let b1 = *m.at(1, 3 * t + 1);
            let b2 = *m.at(2, 3 * t + 1);
            let c0 = *m.at(0, 3 * t + 2);
            let c1 = *m.at(1, 3 * t + 2);
            let c2 = *m.at(2, 3 * t + 2);
            let hit = (a0 == p.0 && a1 == p.1 && a2 == p.2) || (b0 == p.0 && b1 == p.1 && b2
                == p.2) || (c0 == p.0 && c1 == p.1 && c2 == p.2);
            proof {
                assert(hit == tri_contains(m.gview(), t as int, p));
            }
            if hit {
                collected.push(normals[t]);
            }
        }
        if collected.len() == 0 {
            vertex_normals.push(Vector3D { x: 0, y: 0, z: 0 });
        } else {
            let vn = Vector3D::average(&collected);
            vertex_normals.push(vn);
        }
    }
    (normals, vertex_normals)
}

impl Transformer {
    /// Map every point of a polygon list through this transform, rebuilding
    /// the normals of the transformed point set. `None` when a transformed
    /// coordinate would leave the representable range.
    pub fn apply_poly(&self, polys: &PolygonMatrix) -> (res: Option<PolygonMatrix>)
        requires
            polys.wf(),
        ensures
            match res {
                Some(r) => {
                    &&& r.wf()
                    &&& r.point_count() == polys.point_count()
                    &&& forall|i: int, j: int|
                        0 <= i < 4 && 0 <= j < polys.point_count() ==> #[trigger] r.grid_view(
                        )[i][j] == div_fp(
                            mat_entry(self.tview(), polys.grid_view(), i, j),
                            FP_ONE as int,
                        )
                },
                None => exists|i: int, j: int|
                    0 <= i < 4 && 0 <= j < polys.point_count() && !(-COORD_BOUND
                        <= #[trigger] div_fp(
                        mat_entry(self.tview(), polys.grid_view(), i, j),
                        FP_ONE as int,
                    ) <= COORD_BOUND),
            },
    {
        match self.apply_to_grid(&polys.matrix) {
            Some(out) => {
                let pm = PolygonMatrix::from_fast(out);
                Some(pm)
            },
            None => {
                proof {
                    let (i, j): (int, int) = choose|i: int, j: int|
                        0 <= i < 4 && 0 <= j < polys.matrix.spec_width() && !(-COORD_BOUND
                            <= #[trigger] div_fp(
                            mat_entry(self.tview(), polys.matrix.gview(), i, j),
                            FP_ONE as int,
                        ) <= COORD_BOUND);
                    assert(0 <= i < 4 && 0 <= j < polys.point_count() && !(-COORD_BOUND <= div_fp(
                        mat_entry(self.tview(), polys.grid_view(), i, j),
                        FP_ONE as int,
                    ) <= COORD_BOUND));
                }
                None
            },
        }
    }
}

} // verus!
