//! The numeric grid engine: two rectangular 2-D containers behind one
//! shape/indexing contract, and a dense matrix multiply over `i64` cells.
//!
//! `Const2D` is sized at compile time and array-backed; `Dynamic2D` is sized
//! at run time and vector-backed, for variable-width geometry streams. Both
//! are specified through `gview`, the grid read as a sequence of rows.
use vstd::prelude::*;
use rayon::iter::IntoParallelIterator;
use rayon::iter::ParallelIterator;

verus! {

/// Largest magnitude a cell may carry into a matrix product, so that a dot
/// product of up to `MAX_INNER_DIM` terms stays inside `i64`.
pub const GRID_ENTRY_BOUND: i64 = 0x2000_0000;

/// Longest inner dimension `matmul` accepts.
pub const MAX_INNER_DIM: usize = 16;

/// Every cell of `g` lies in `-bound ..= bound`.
pub open spec fn bounded_grid(g: Seq<Seq<i64>>, bound: int) -> bool {
    forall|r: int, c: int|
        0 <= r < g.len() && 0 <= c < g[r].len() ==> -bound <= #[trigger] g[r][c] <= bound
}

/// Sum of the first `n` products of row `i` of `a` with column `j` of `b`.
pub open spec fn dot_prefix(a: Seq<Seq<i64>>, b: Seq<Seq<i64>>, i: int, j: int, n: int) -> int
    decreases n,
{
    if n <= 0 {
        0
    } else {
        dot_prefix(a, b, i, j, n - 1) + a[i][n - 1] * b[n - 1][j]
    }
}

/// Cell `(i, j)` of the matrix product `a * b`: the full dot product of
/// row `i` of `a` with column `j` of `b`.
pub open spec fn mat_entry(a: Seq<Seq<i64>>, b: Seq<Seq<i64>>, i: int, j: int) -> int {
    dot_prefix(a, b, i, j, b.len() as int)
}

/// The shared shape/indexing contract of the grid variants: a well-formed
/// grid is rectangular, and `at` reads the cell that `gview` names.
pub trait ParallelGrid: Sized {
    type Item;

    /// The grid as a sequence of rows.
    spec fn gview(&self) -> Seq<Seq<Self::Item>>;

    spec fn spec_width(&self) -> nat;

    spec fn spec_height(&self) -> nat;

    spec fn wf(&self) -> bool;

    proof fn lemma_wf(&self)
        requires
            self.wf(),
        ensures
            self.gview().len() == self.spec_height(),
            forall|r: int|
                0 <= r < self.gview().len() ==> (#[trigger] self.gview()[r]).len()
                    == self.spec_width(),
            self.spec_width() <= usize::MAX,
            self.spec_height() <= usize::MAX,
    ;

    fn at(&self, r: usize, c: usize) -> (x: &Self::Item)
        requires
            self.wf(),
            r < self.spec_height(),
            c < self.spec_width(),
        ensures
            *x == self.gview()[r as int][c as int],
    ;

    fn get_width(&self) -> (w: usize)
        requires
            self.wf(),
        ensures
            w == self.spec_width(),
    ;

    fn get_height(&self) -> (h: usize)
        requires
            self.wf(),
        ensures
            h == self.spec_height(),
    ;
}

/// The compile-time-sized grid: `WIDTH` columns, `HEIGHT` rows, inline
/// array storage.
#[derive(Clone, Copy, Debug)]
pub struct Const2D<T, const WIDTH: usize, const HEIGHT: usize> {
    array: [[T; WIDTH]; HEIGHT],
}

impl<T: Copy, const WIDTH: usize, const HEIGHT: usize> Const2D<T, WIDTH, HEIGHT> {
    pub fn from(array: [[T; WIDTH]; HEIGHT]) -> (g: Self)
        ensures
            forall|r: int, c: int|
                0 <= r < HEIGHT && 0 <= c < WIDTH ==> #[trigger] g.gview()[r][c] == array[r][c],
    {
        Self { array }
    }

    pub fn fill(item: T) -> (g: Self)
        ensures
            forall|r: int, c: int|
                0 <= r < HEIGHT && 0 <= c < WIDTH ==> #[trigger] g.gview()[r][c] == item,
    {
        Self { array: [[item; WIDTH]; HEIGHT] }
    }

    pub fn set(&mut self, r: usize, c: usize, v: T)
        requires
            r < HEIGHT,
            c < WIDTH,
        ensures
            forall|rr: int, cc: int|
                0 <= rr < HEIGHT && 0 <= cc < WIDTH ==> #[trigger] final(self).gview()[rr][cc] == (
                if rr == r && cc == c {
                    v
                } else {
                    old(self).gview()[rr][cc]
                }),
    {
        self.array[r][c] = v;
    }
}

impl<T, const WIDTH: usize, const HEIGHT: usize> ParallelGrid for Const2D<T, WIDTH, HEIGHT> {
    type Item = T;

    closed spec fn gview(&self) -> Seq<Seq<T>> {
        Seq::new(HEIGHT as nat, |r: int| self.array@[r]@)
    }

    open spec fn spec_width(&self) -> nat {
        WIDTH as nat
    }

    open spec fn spec_height(&self) -> nat {
        HEIGHT as nat
    }

    open spec fn wf(&self) -> bool {
        true
    }

    proof fn lemma_wf(&self) {
    }

    fn at(&self, r: usize, c: usize) -> (x: &T) {
        &self.array[r][c]
    }

    fn get_width(&self) -> (w: usize) {
        WIDTH
    }

    fn get_height(&self) -> (h: usize) {
        HEIGHT
    }
}

impl<const WIDTH: usize, const HEIGHT: usize> Const2D<i64, WIDTH, HEIGHT> {
    /// The identity matrix: 1 on the diagonal, 0 elsewhere.
    pub fn ident() -> (g: Self)
        requires
            WIDTH == HEIGHT,
        ensures
            forall|r: int, c: int|
                0 <= r < HEIGHT && 0 <= c < WIDTH ==> #[trigger] g.gview()[r][c] == (if r == c {
                    1i64
                } else {
                    0i64
                }),
    {
        let mut g = Self::fill(0i64);
        for i in 0..WIDTH
            invariant
                WIDTH == HEIGHT,
                forall|r: int, c: int|
                    0 <= r < HEIGHT && 0 <= c < WIDTH ==> #[trigger] g.gview()[r][c] == (if r == c
                        && r < i {
                        1i64
                    } else {
                        0i64
                    }),
        {
            g.set(i, i, 1i64);
        }
        g
    }

    /// The dense matrix product `self * rhs`, cell by cell the full dot
    /// product of a row of `self` with a column of `rhs`.
    pub fn matmul<const OWIDTH: usize>(&self, rhs: &Const2D<i64, OWIDTH, WIDTH>) -> (res: Const2D<
        i64,
        OWIDTH,
        HEIGHT,
    >)
        requires
            WIDTH <= MAX_INNER_DIM,
            bounded_grid(self.gview(), GRID_ENTRY_BOUND as int),
            bounded_grid(rhs.gview(), GRID_ENTRY_BOUND as int),
        ensures
            forall|i: int, j: int|
                0 <= i < HEIGHT && 0 <= j < OWIDTH ==> #[trigger] res.gview()[i][j] == mat_entry(
                    self.gview(),
                    rhs.gview(),
                    i,
                    j,
                ),
    {
        let mut res = Const2D::<i64, OWIDTH, HEIGHT>::fill(0i64);
        for i in 0..HEIGHT
            invariant
                WIDTH <= MAX_INNER_DIM,
                bounded_grid(self.gview(), GRID_ENTRY_BOUND as int),
                bounded_grid(rhs.gview(), GRID_ENTRY_BOUND as int),
                forall|ii: int, j: int|
                    0 <= ii < i && 0 <= j < OWIDTH ==> #[trigger] res.gview()[ii][j] == mat_entry(
                        self.gview(),
                        rhs.gview(),
                        ii,
                        j,
                    ),
        {
            for j in 0..OWIDTH
                invariant
                    WIDTH <= MAX_INNER_DIM,
                    i < HEIGHT,
                    bounded_grid(self.gview(), GRID_ENTRY_BOUND as int),
                    bounded_grid(rhs.gview(), GRID_ENTRY_BOUND as int),
                    forall|ii: int, jj: int|
                        0 <= ii < i && 0 <= jj < OWIDTH ==> #[trigger] res.gview()[ii][jj]
                            == mat_entry(self.gview(), rhs.gview(), ii, jj),
                    forall|jj: int|
                        0 <= jj < j ==> #[trigger] res.gview()[i as int][jj] == mat_entry(
                            self.gview(),
                            rhs.gview(),
                            i as int,
                            jj,
                        ),
            {
                let acc = dot_product(self, rhs, i, j);
                res.set(i, j, acc);
            }
        }
        res
    }
}

/// The dot product of row `i` of `a` with column `j` of `b`.
fn dot_product<GA: ParallelGrid<Item = i64>, GB: ParallelGrid<Item = i64>>(
    a: &GA,
    b: &GB,
    i: usize,
    j: usize,
) -> (acc: i64)
    requires
        a.wf(),
        b.wf(),
        a.spec_width() == b.spec_height(),
        a.spec_width() <= MAX_INNER_DIM,
        i < a.spec_height(),
        j < b.spec_width(),
        bounded_grid(a.gview(), GRID_ENTRY_BOUND as int),
        bounded_grid(b.gview(), GRID_ENTRY_BOUND as int),
    ensures
        acc == mat_entry(a.gview(), b.gview(), i as int, j as int),
{
    proof {
        a.lemma_wf();
        b.lemma_wf();
    }
    let w = a.get_width();
    let mut acc: i64 = 0;
    for k in 0..w
        invariant
            a.wf(),
            b.wf(),
            w == a.spec_width(),
            a.spec_width() == b.spec_height(),
            a.spec_width() <= MAX_INNER_DIM,
            i < a.spec_height(),
            j < b.spec_width(),
            a.gview().len() == a.spec_height(),
            b.gview().len() == b.spec_height(),
            forall|r: int|
                0 <= r < a.gview().len() ==> (#[trigger] a.gview()[r]).len() == a.spec_width(),
            forall|r: int|
                0 <= r < b.gview().len() ==> (#[trigger] b.gview()[r]).len() == b.spec_width(),
            bounded_grid(a.gview(), GRID_ENTRY_BOUND as int),
            bounded_grid(b.gview(), GRID_ENTRY_BOUND as int),
            acc == dot_prefix(a.gview(), b.gview(), i as int, j as int, k as int),
            -(k as int) * (GRID_ENTRY_BOUND as int) * (GRID_ENTRY_BOUND as int) <= acc <= (
            k as int) * (GRID_ENTRY_BOUND as int) * (GRID_ENTRY_BOUND as int),
    {
        let av = *a.at(i, k);
        let bv = *b.at(k, j);
        proof {
            assert(-(GRID_ENTRY_BOUND as int) * (GRID_ENTRY_BOUND as int) <= (av as int) * (
            bv as int) <= (GRID_ENTRY_BOUND as int) * (GRID_ENTRY_BOUND as int))
                by (nonlinear_arith)
                requires
                    -(GRID_ENTRY_BOUND as int) <= av as int <= GRID_ENTRY_BOUND as int,
                    -(GRID_ENTRY_BOUND as int) <= bv as int <= GRID_ENTRY_BOUND as int,
            ;
            assert((k as int) * (GRID_ENTRY_BOUND as int) * (GRID_ENTRY_BOUND as int) <= (
            MAX_INNER_DIM as int) * (GRID_ENTRY_BOUND as int) * (GRID_ENTRY_BOUND as int))
                by (nonlinear_arith)
                requires
                    0 <= k as int <= MAX_INNER_DIM as int,
            ;
            assert(((k + 1) as int) * (GRID_ENTRY_BOUND as int) * (GRID_ENTRY_BOUND as int) == (
            k as int) * (GRID_ENTRY_BOUND as int) * (GRID_ENTRY_BOUND as int) + (
            GRID_ENTRY_BOUND as int) * (GRID_ENTRY_BOUND as int)) by (nonlinear_arith);
        }
        acc = acc + av * bv;
    }
    acc
}

/// The run-time-sized grid: vector-backed, grown a row or a column at a
/// time by the geometry containers.
#[derive(Clone, Debug)]
pub struct Dynamic2D<T> {
    width: usize,
    height: usize,
    array: Vec<Vec<T>>,
}

/// A vector of `n` copies of `item`.
fn filled_vec<T: Copy>(item: T, n: usize) -> (v: Vec<T>)
    ensures
        v@.len() == n,
        forall|i: int| 0 <= i < n ==> v@[i] == item,
{
    let mut v: Vec<T> = Vec::new();
    for k in 0..n
        invariant
            v@.len() == k,
            forall|i: int| 0 <= i < k ==> v@[i] == item,
    {
        v.push(item);
    }
    v
}

impl<T: Copy> Dynamic2D<T> {
    /// A `width` by `height` grid with every cell equal to `item`.
    pub fn fill(item: T, width: usize, height: usize) -> (g: Self)
        ensures
            g.wf(),
            g.spec_width() == width,
            g.spec_height() == height,
            forall|r: int, c: int|
                0 <= r < height && 0 <= c < width ==> #[trigger] g.gview()[r][c] == item,
    {
        let mut array: Vec<Vec<T>> = Vec::new();
        for k in 0..height
            invariant
                array@.len() == k,
                forall|r: int| 0 <= r < k ==> (#[trigger] array@[r])@.len() == width,
                forall|r: int, c: int|
                    0 <= r < k && 0 <= c < width ==> #[trigger] array@[r]@[c] == item,
        {
            array.push(filled_vec(item, width));
        }
        Dynamic2D { width, height, array }
    }

    pub fn set(&mut self, r: usize, c: usize, v: T)
        requires
            old(self).wf(),
            r < old(self).spec_height(),
            c < old(self).spec_width(),
        ensures
            final(self).wf(),
            final(self).spec_width() == old(self).spec_width(),
            final(self).spec_height() == old(self).spec_height(),
            forall|rr: int, cc: int|
                0 <= rr < old(self).spec_height() && 0 <= cc < old(self).spec_width()
                    ==> #[trigger] final(self).gview()[rr][cc] == (if rr == r && cc == c {
                    v
                } else {
                    old(self).gview()[rr][cc]
                }),
    {
        self.array[r][c] = v;
    }

    /// Append one row at the bottom; `items` must be exactly one row wide.
    pub fn add_row(&mut self, items: Vec<T>)
        requires
            old(self).wf(),
            items@.len() == old(self).spec_width(),
            old(self).spec_height() < usize::MAX,
        ensures
            final(self).wf(),
            final(self).spec_width() == old(self).spec_width(),
            final(self).spec_height() == old(self).spec_height() + 1,
            forall|rr: int, cc: int|
                0 <= rr < old(self).spec_height() && 0 <= cc < old(self).spec_width()
                    ==> #[trigger] final(self).gview()[rr][cc] == old(self).gview()[rr][cc],
            forall|cc: int|
                0 <= cc < old(self).spec_width() ==> #[trigger] final(self).gview()[old(
                    self,
                ).spec_height() as int][cc] == items@[cc],
    {
        self.array.push(items);
        self.height = self.height + 1;
    }

    /// Append one column at the right; `items` holds one cell per row.
    pub fn add_col(&mut self, items: &Vec<T>)
        requires
            old(self).wf(),
            items@.len() == old(self).spec_height(),
            old(self).spec_width() < usize::MAX,
        ensures
            final(self).wf(),
            final(self).spec_width() == old(self).spec_width() + 1,
            final(self).spec_height() == old(self).spec_height(),
            forall|rr: int, cc: int|
                0 <= rr < old(self).spec_height() && 0 <= cc < old(self).spec_width()
                    ==> #[trigger] final(self).gview()[rr][cc] == old(self).gview()[rr][cc],
            forall|rr: int|
                0 <= rr < old(self).spec_height() ==> #[trigger] final(self).gview()[rr][old(
                    self,
                ).spec_width() as int] == items@[rr],
    {
        let h = self.height;
        let ghost orig = *self;
        for r in 0..h
            invariant
                h == orig.spec_height(),
                orig.wf(),
                items@.len() == orig.spec_height(),
                orig.spec_width() < usize::MAX,
                self.width == orig.width,
                self.height == orig.height,
                self.array@.len() == orig.spec_height(),
                forall|rr: int|
                    0 <= rr < r ==> (#[trigger] self.array@[rr])@.len() == orig.spec_width() + 1,
                forall|rr: int|
                    r <= rr < orig.spec_height() ==> (#[trigger] self.array@[rr])@.len()
                        == orig.spec_width(),
                forall|rr: int, cc: int|
                    0 <= rr < orig.spec_height() && 0 <= cc < orig.spec_width()
                        ==> #[trigger] self.array@[rr]@[cc] == orig.gview()[rr][cc],
                forall|rr: int|
                    0 <= rr < r ==> #[trigger] self.array@[rr]@[orig.spec_width() as int]
                        == items@[rr],
        {
            let item = items[r];
            self.array[r].push(item);
        }
        self.width = self.width + 1;
    }

    /// Copy any grid into a vector-backed one.
    pub fn from<G: ParallelGrid<Item = T>>(other: &G) -> (g: Self)
        requires
            other.wf(),
        ensures
            g.wf(),
            g.spec_width() == other.spec_width(),
            g.spec_height() == other.spec_height(),
            forall|r: int, c: int|
                0 <= r < other.spec_height() && 0 <= c < other.spec_width()
                    ==> #[trigger] g.gview()[r][c] == other.gview()[r][c],
    {
        proof {
            other.lemma_wf();
        }
        let w = other.get_width();
        let h = other.get_height();
        let mut array: Vec<Vec<T>> = Vec::new();
        for r in 0..h
            invariant
                other.wf(),
                w == other.spec_width(),
                h == other.spec_height(),
                other.gview().len() == other.spec_height(),
                forall|rr: int|
                    0 <= rr < other.gview().len() ==> (#[trigger] other.gview()[rr]).len()
                        == other.spec_width(),
                array@.len() == r,
                forall|rr: int| 0 <= rr < r ==> (#[trigger] array@[rr])@.len() == w,
                forall|rr: int, cc: int|
                    0 <= rr < r && 0 <= cc < w ==> #[trigger] array@[rr]@[cc]
                        == other.gview()[rr][cc],
        {
            let mut row: Vec<T> = Vec::new();
            for c in 0..w
                invariant
                    other.wf(),
                    w == other.spec_width(),
                    h == other.spec_height(),
                    r < h,
                    other.gview().len() == other.spec_height(),
                    forall|rr: int|
                        0 <= rr < other.gview().len() ==> (#[trigger] other.gview()[rr]).len()
                            == other.spec_width(),
                    row@.len() == c,
                    forall|cc: int|
                        0 <= cc < c ==> #[trigger] row@[cc] == other.gview()[r as int][cc],
            {
                row.push(*other.at(r, c));
            }
            array.push(row);
        }
        Dynamic2D { width: w, height: h, array }
    }
}

impl<T> ParallelGrid for Dynamic2D<T> {
    type Item = T;

    closed spec fn gview(&self) -> Seq<Seq<T>> {
        Seq::new(self.height as nat, |r: int| self.array@[r]@)
    }

    closed spec fn spec_width(&self) -> nat {
        self.width as nat
    }

    closed spec fn spec_height(&self) -> nat {
        self.height as nat
    }

    closed spec fn wf(&self) -> bool {
        &&& self.array@.len() == self.height
        &&& forall|r: int|
            0 <= r < self.height ==> (#[trigger] self.array@[r])@.len() == self.width
    }

    proof fn lemma_wf(&self) {
    }

    fn at(&self, r: usize, c: usize) -> (x: &T) {
        &self.array[r][c]
    }

    fn get_width(&self) -> (w: usize) {
        self.width
    }

    fn get_height(&self) -> (h: usize) {
        self.height
    }
}

impl Dynamic2D<i64> {
    /// A `width` by `height` grid of zeroes.
    pub fn new(width: usize, height: usize) -> (g: Self)
        ensures
            g.wf(),
            g.spec_width() == width,
            g.spec_height() == height,
            forall|r: int, c: int|
                0 <= r < height && 0 <= c < width ==> #[trigger] g.gview()[r][c] == 0i64,
    {
        Self::fill(0i64, width, height)
    }

    /// The `size` by `size` identity matrix.
    pub fn ident(size: usize) -> (g: Self)
        ensures
            g.wf(),
            g.spec_width() == size,
            g.spec_height() == size,
            forall|r: int, c: int|
                0 <= r < size && 0 <= c < size ==> #[trigger] g.gview()[r][c] == (if r == c {
                    1i64
                } else {
                    0i64
                }),
    {
        let mut g = Self::fill(0i64, size, size);
        for i in 0..size
            invariant
                g.wf(),
                g.spec_width() == size,
                g.spec_height() == size,
                forall|r: int, c: int|
                    0 <= r < size && 0 <= c < size ==> #[trigger] g.gview()[r][c] == (if r == c && r
                        < i {
                        1i64
                    } else {
                        0i64
                    }),
        {
            g.set(i, i, 1i64);
        }
        g
    }

    /// The dense matrix product `self * rhs`, computed one output row per
    /// parallel task.
    pub fn matmul(&self, rhs: &Dynamic2D<i64>) -> (res: Dynamic2D<i64>)
        requires
            self.wf(),
            rhs.wf(),
            self.spec_width() == rhs.spec_height(),
            self.spec_width() <= MAX_INNER_DIM,
            bounded_grid(self.gview(), GRID_ENTRY_BOUND as int),
            bounded_grid(rhs.gview(), GRID_ENTRY_BOUND as int),
        ensures
            res.wf(),
            res.spec_width() == rhs.spec_width(),
            res.spec_height() == self.spec_height(),
            forall|i: int, j: int|
                0 <= i < self.spec_height() && 0 <= j < rhs.spec_width()
                    ==> #[trigger] res.gview()[i][j] == mat_entry(self.gview(), rhs.gview(), i, j),
    {
        let rows = par_map_rows(self, rhs);
        let res = Dynamic2D { width: rhs.get_width(), height: self.get_height(), array: rows };
        proof {
            assert forall|i: int, j: int|
                0 <= i < self.spec_height() && 0 <= j < rhs.spec_width() implies #[trigger] res.gview()[i][j]
                == mat_entry(self.gview(), rhs.gview(), i, j) by {
            }
        }
        res
    }
}

/// One output row of the matrix product `a * b`.
fn row_product(a: &Dynamic2D<i64>, b: &Dynamic2D<i64>, r: usize) -> (row: Vec<i64>)
    requires
        a.wf(),
        b.wf(),
        a.spec_width() == b.spec_height(),
        a.spec_width() <= MAX_INNER_DIM,
        r < a.spec_height(),
        bounded_grid(a.gview(), GRID_ENTRY_BOUND as int),
        bounded_grid(b.gview(), GRID_ENTRY_BOUND as int),
    ensures
        row@.len() == b.spec_width(),
        forall|j: int|
            0 <= j < b.spec_width() ==> #[trigger] row@[j] == mat_entry(
                a.gview(),
                b.gview(),
                r as int,
                j,
            ),
{
    let w = b.get_width();
    let mut row: Vec<i64> = Vec::new();
    for j in 0..w
        invariant
            a.wf(),
            b.wf(),
            a.spec_width() == b.spec_height(),
            a.spec_width() <= MAX_INNER_DIM,
            r < a.spec_height(),
            w == b.spec_width(),
            bounded_grid(a.gview(), GRID_ENTRY_BOUND as int),
            bounded_grid(b.gview(), GRID_ENTRY_BOUND as int),
            row@.len() == j,
            forall|jj: int|
                0 <= jj < j ==> #[trigger] row@[jj] == mat_entry(
                    a.gview(),
                    b.gview(),
                    r as int,
                    jj,
                ),
    {
        row.push(dot_product(a, b, r, j));
    }
    row
}

/// Relies on rayon's `IndexedParallelIterator::map` and `collect` for `Vec`:
/// the results of mapping each row index come back in index order, one per
/// index, so the collected vector holds `row_product` of every row.
#[verifier::external_body]
fn par_map_rows(a: &Dynamic2D<i64>, b: &Dynamic2D<i64>) -> (rows: Vec<Vec<i64>>)
    requires
        a.wf(),
        b.wf(),
        a.spec_width() == b.spec_height(),
        a.spec_width() <= MAX_INNER_DIM,
        bounded_grid(a.gview(), GRID_ENTRY_BOUND as int),
        bounded_grid(b.gview(), GRID_ENTRY_BOUND as int),
    ensures
        rows@.len() == a.spec_height(),
        forall|r: int|
            0 <= r < a.spec_height() ==> (#[trigger] rows@[r])@.len() == b.spec_width(),
        forall|r: int, j: int|
            0 <= r < a.spec_height() && 0 <= j < b.spec_width() ==> #[trigger] rows@[r]@[j]
                == mat_entry(a.gview(), b.gview(), r, j),
{
    (0..a.get_height()).into_par_iter().map(|r| row_product(a, b, r)).collect()
}

} // verus!
