//! The edge container: a 4-row matrix whose columns are homogeneous points
//! `(x, y, z, 1)`, added two at a time so that consecutive column pairs form
//! disjoint line segments. The column count is always even.
use vstd::prelude::*;
use crate::fixed::COORD_BOUND;
use crate::fixed::FP_ONE;
use crate::fixed::div_fp;
use crate::grid::Dynamic2D;
use crate::grid::ParallelGrid;
use crate::grid::bounded_grid;
use crate::grid::mat_entry;
use crate::transform::Transformer;

verus! {

/// Column `j` of a 4-row point grid, read as a spatial point.
pub open spec fn col3(g: Seq<Seq<i64>>, j: int) -> (i64, i64, i64) {
    (g[0][j], g[1][j], g[2][j])
}

#[derive(Clone, Debug)]
pub struct EdgeMatrix {
    matrix: Dynamic2D<i64>,
}

impl EdgeMatrix {
    /// The underlying 4-row grid of homogeneous point columns.
    pub closed spec fn grid_view(&self) -> Seq<Seq<i64>> {
        self.matrix.gview()
    }

    /// Number of point columns.
    pub closed spec fn point_count(&self) -> nat {
        self.matrix.spec_width()
    }

    /// Point `j`, read from the first three rows.
    pub open spec fn point_at(&self, j: int) -> (i64, i64, i64) {
        col3(self.grid_view(), j)
    }

    /// A well-formed edge matrix: four rows, an even number of columns,
    /// every coordinate within the representable range.
    pub closed spec fn wf(&self) -> bool {
        &&& self.matrix.wf()
        &&& self.matrix.spec_height() == 4
        &&& self.matrix.spec_width() % 2 == 0
        &&& bounded_grid(self.matrix.gview(), COORD_BOUND as int)
    }

    /// What `wf` guarantees of the shape, for callers.
    pub proof fn lemma_wf(&self)
        requires
            self.wf(),
        ensures
            self.point_count() % 2 == 0,
            self.grid_view().len() == 4,
            forall|r: int|
                0 <= r < 4 ==> (#[trigger] self.grid_view()[r]).len() == self.point_count(),
            bounded_grid(self.grid_view(), COORD_BOUND as int),
            self.point_count() <= usize::MAX,
    {
        self.matrix.lemma_wf();
    }

    /// An empty edge list.
    pub fn empty() -> (e: Self)
        ensures
            e.wf(),
            e.point_count() == 0,
    {
        let m = Dynamic2D::<i64>::new(0, 4);
        proof {
            m.lemma_wf();
        }
        EdgeMatrix { matrix: m }
    }

    /// Adopt a 4-row grid with an even column count as an edge list.
    pub fn from<G: ParallelGrid<Item = i64>>(grid: &G) -> (e: Self)
        requires
            grid.wf(),
            grid.spec_height() == 4,
            grid.spec_width() % 2 == 0,
            bounded_grid(grid.gview(), COORD_BOUND as int),
        ensures
            e.wf(),
            e.point_count() == grid.spec_width(),
            forall|r: int, c: int|
                0 <= r < 4 && 0 <= c < grid.spec_width() ==> #[trigger] e.grid_view()[r][c]
                    == grid.gview()[r][c],
    {
        let copy = Dynamic2D::from(grid);
        proof {
            grid.lemma_wf();
            copy.lemma_wf();
        }
        EdgeMatrix { matrix: copy }
    }

    /// A copy of the underlying 4-row grid.
    pub fn to_grid(&self) -> (g: Dynamic2D<i64>)
        requires
            self.wf(),
        ensures
            g.wf(),
            g.spec_height() == 4,
            g.spec_width() == self.point_count(),
            bounded_grid(g.gview(), COORD_BOUND as int),
            forall|r: int, c: int|
                0 <= r < 4 && 0 <= c < self.point_count() ==> #[trigger] g.gview()[r][c]
                    == self.grid_view()[r][c],
    {
        proof {
            self.matrix.lemma_wf();
        }
        let g = Dynamic2D::from(&self.matrix);
        proof {
            g.lemma_wf();
            assert forall|r: int, c: int|
                0 <= r < g.gview().len() && 0 <= c < (#[trigger] g.gview()[r]).len() implies
                -COORD_BOUND <= #[trigger] g.gview()[r][c] <= COORD_BOUND by {}
        }
        g
    }

    /// Number of stored edges: one per column pair.
    pub fn edge_count(&self) -> (n: usize)
        requires
            self.wf(),
        ensures
            n == self.point_count() / 2,
    {
        self.matrix.get_width() / 2
    }

    /// Read point `j`.
    pub fn point(&self, j: usize) -> (p: (i64, i64, i64))
        requires
            self.wf(),
            j < self.point_count(),
        ensures
            p == self.point_at(j as int),
            -COORD_BOUND <= p.0 <= COORD_BOUND,
            -COORD_BOUND <= p.1 <= COORD_BOUND,
            -COORD_BOUND <= p.2 <= COORD_BOUND,
    {
        proof {
            self.matrix.lemma_wf();
        }
        (*self.matrix.at(0, j), *self.matrix.at(1, j), *self.matrix.at(2, j))
    }

    /// Append the segment from `p0` to `p1` as two homogeneous columns.
    pub fn add_edge(&mut self, p0: (i64, i64, i64), p1: (i64, i64, i64))
        requires
            old(self).wf(),
            old(self).point_count() + 2 <= usize::MAX,
            -COORD_BOUND <= p0.0 <= COORD_BOUND,
            -COORD_BOUND <= p0.1 <= COORD_BOUND,
            -COORD_BOUND <= p0.2 <= COORD_BOUND,
            -COORD_BOUND <= p1.0 <= COORD_BOUND,
            -COORD_BOUND <= p1.1 <= COORD_BOUND,
            -COORD_BOUND <= p1.2 <= COORD_BOUND,
        ensures
            final(self).wf(),
            final(self).point_count() == old(self).point_count() + 2,
            forall|r: int, c: int|
                0 <= r < 4 && 0 <= c < old(self).point_count()
                    ==> #[trigger] final(self).grid_view()[r][c] == old(self).grid_view()[r][c],
            final(self).point_at(old(self).point_count() as int) == p0,
            final(self).point_at(old(self).point_count() as int + 1) == p1,
            final(self).grid_view()[3][old(self).point_count() as int] == 1i64,
            final(self).grid_view()[3][old(self).point_count() as int + 1] == 1i64,
    {
        proof {
            self.matrix.lemma_wf();
        }
        add_homogeneous_col(&mut self.matrix, p0);
        add_homogeneous_col(&mut self.matrix, p1);
    }
}

/// Append one homogeneous point column `(x, y, z, 1)` to a 4-row grid.
pub(crate) fn add_homogeneous_col(m: &mut Dynamic2D<i64>, p: (i64, i64, i64))
    requires
        old(m).wf(),
        old(m).spec_height() == 4,
        old(m).spec_width() < usize::MAX,
        -COORD_BOUND <= p.0 <= COORD_BOUND,
        -COORD_BOUND <= p.1 <= COORD_BOUND,
        -COORD_BOUND <= p.2 <= COORD_BOUND,
        bounded_grid(old(m).gview(), COORD_BOUND as int),
    ensures
        final(m).wf(),
        final(m).spec_height() == 4,
        final(m).spec_width() == old(m).spec_width() + 1,
        bounded_grid(final(m).gview(), COORD_BOUND as int),
        forall|r: int, c: int|
            0 <= r < 4 && 0 <= c < old(m).spec_width() ==> #[trigger] final(m).gview()[r][c] == old(
                m,
            ).gview()[r][c],
        col3(final(m).gview(), old(m).spec_width() as int) == p,
        final(m).gview()[3][old(m).spec_width() as int] == 1i64,
{
    let mut column: Vec<i64> = Vec::new();
    column.push(p.0);
    column.push(p.1);
    column.push(p.2);
    column.push(1i64);
    proof {
        old(m).lemma_wf();
    }
    m.add_col(&column);
    proof {
        m.lemma_wf();
        assert forall|r: int, c: int|
            0 <= r < m.gview().len() && 0 <= c < (#[trigger] m.gview()[r]).len() implies
            -COORD_BOUND <= #[trigger] m.gview()[r][c] <= COORD_BOUND by {
            if c < old(m).spec_width() {
            } else {
            }
        }
    }
}

impl Transformer {
    /// Map every point of an edge list through this transform, producing a
    /// new edge list. `None` when a transformed coordinate would leave the
    /// representable range.
    pub fn apply_edges(&self, edges: &EdgeMatrix) -> (res: Option<EdgeMatrix>)
        requires
            edges.wf(),
        ensures
            match res {
                Some(r) => {
                    &&& r.wf()
                    &&& r.point_count() == edges.point_count()
                    &&& forall|i: int, j: int|
                        0 <= i < 4 && 0 <= j < edges.point_count() ==> #[trigger] r.grid_view(
                        )[i][j] == div_fp(
                            mat_entry(self.tview(), edges.grid_view(), i, j),
                            FP_ONE as int,
                        )
                },
                None => exists|i: int, j: int|
                    0 <= i < 4 && 0 <= j < edges.point_count() && !(-COORD_BOUND
                        <= #[trigger] div_fp(
                        mat_entry(self.tview(), edges.grid_view(), i, j),
                        FP_ONE as int,
                    ) <= COORD_BOUND),
            },
    {
        match self.apply_to_grid(&edges.matrix) {
            Some(out) => {
                let em = EdgeMatrix { matrix: out };
                proof {
                    assert(em.wf());
                    assert(em.point_count() == edges.point_count());
                    assert forall|i: int, j: int|
                        0 <= i < 4 && 0 <= j < edges.point_count() implies #[trigger] em.grid_view(
                    )[i][j] == div_fp(
                        mat_entry(self.tview(), edges.grid_view(), i, j),
                        FP_ONE as int,
                    ) by {}
                }
                Some(em)
            },
            None => {
                proof {
                    let (i, j): (int, int) = choose|i: int, j: int|
                        0 <= i < 4 && 0 <= j < edges.matrix.spec_width() && !(-COORD_BOUND
                            <= #[trigger] div_fp(
                            mat_entry(self.tview(), edges.matrix.gview(), i, j),
                            FP_ONE as int,
                        ) <= COORD_BOUND);
                    assert(0 <= i < 4 && 0 <= j < edges.point_count() && !(-COORD_BOUND <= div_fp(
                        mat_entry(self.tview(), edges.grid_view(), i, j),
                        FP_ONE as int,
                    ) <= COORD_BOUND));
                }
                None
            },
        }
    }
}

} // verus!
