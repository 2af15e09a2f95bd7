//! The framebuffer and rasterizer: a color grid with a paired depth
//! buffer, Bresenham line drawing, scanline triangle fill with flat or
//! Phong shading, and box-filter downsampling.
//!
//! Every write goes through one depth-tested plot: a pixel changes only
//! when the incoming depth is strictly greater (closer to the camera) than
//! the stored one, and then color and depth change together. Coordinates
//! outside the buffer are skipped silently, pixel by pixel.
use vstd::prelude::*;
use crate::color::Color;
use crate::fixed::FP_ONE;
use crate::fixed::div_fp;
use crate::fixed::div64;
use crate::fixed::spec_isqrt;
use crate::grid::Dynamic2D;
use crate::grid::ParallelGrid;
use crate::lighter::Lighter;
use crate::lighter::LightingConfig;
use crate::lighter::is_default_lighter;
use crate::vector3d::Vector3D;
use crate::vector3d::normalized_comp;
use crate::vector3d::vec_bounded;

verus! {

/// The depth value meaning "nothing drawn yet": every real depth beats it.
pub const DEPTH_EMPTY: i64 = i64::MIN;

/// The linear supersampling factor: scenes render at four times the final
/// resolution and are averaged down in 4x4 blocks.
pub const SAMPLE_SCALE: i64 = 4;

/// Largest coordinate magnitude the drawing routines accept; supersampled
/// geometry stays well inside it.
pub const RASTER_BOUND: i64 = 0x1000_0000;

/// One depth-tested write at `(x, y)` with depth `z` and paint `c`: the
/// pair (colors, depths) after the write. Out-of-range coordinates and
/// losing depth tests leave both buffers unchanged.
pub open spec fn plot_spec(
    pix: Seq<Seq<Color>>,
    dep: Seq<Seq<i64>>,
    x: int,
    y: int,
    z: i64,
    c: Color,
) -> (Seq<Seq<Color>>, Seq<Seq<i64>>) {
    if 0 <= y < dep.len() && 0 <= x < dep[y].len() && z > dep[y][x] {
        (pix.update(y, pix[y].update(x, c)), dep.update(y, dep[y].update(x, z)))
    } else {
        (pix, dep)
    }
}

/// A fixed-size pixel grid with a paired depth buffer and an embedded
/// lighter.
#[derive(Clone, Debug)]
pub struct Image {
    name: Option<String>,
    flip: bool,
    data: Dynamic2D<Color>,
    zbuffer: Dynamic2D<i64>,
    lighter: Lighter,
}

impl Image {
    /// The color buffer, row-major.
    pub closed spec fn pixels(&self) -> Seq<Seq<Color>> {
        self.data.gview()
    }

    /// The depth buffer, row-major.
    pub closed spec fn depths(&self) -> Seq<Seq<i64>> {
        self.zbuffer.gview()
    }

    pub closed spec fn spec_width(&self) -> nat {
        self.data.spec_width()
    }

    pub closed spec fn spec_height(&self) -> nat {
        self.data.spec_height()
    }

    /// The embedded lighter.
    pub closed spec fn lighter_view(&self) -> Lighter {
        self.lighter
    }

    /// Row 0 of the serialized output is the bottom image row unless the
    /// vertical flip is set.
    pub closed spec fn spec_flip(&self) -> bool {
        self.flip
    }

    /// Color and depth buffers share one rectangular shape.
    pub closed spec fn wf(&self) -> bool {
        &&& self.data.wf()
        &&& self.zbuffer.wf()
        &&& self.zbuffer.spec_width() == self.data.spec_width()
        &&& self.zbuffer.spec_height() == self.data.spec_height()
    }

    /// What `wf` guarantees of the buffer shapes, for callers.
    pub proof fn lemma_wf(&self)
        requires
            self.wf(),
        ensures
            self.pixels().len() == self.spec_height(),
            self.depths().len() == self.spec_height(),
            forall|r: int|
                0 <= r < self.spec_height() ==> (#[trigger] self.pixels()[r]).len()
                    == self.spec_width(),
            forall|r: int|
                0 <= r < self.spec_height() ==> (#[trigger] self.depths()[r]).len()
                    == self.spec_width(),
            self.spec_width() <= usize::MAX,
            self.spec_height() <= usize::MAX,
    {
        self.data.lemma_wf();
        self.zbuffer.lemma_wf();
    }

    /// A named image, `width` by `height`, all black, nothing drawn, the
    /// default lighter, serialized bottom row first.
    pub fn new(name: String, width: usize, height: usize) -> (img: Self)
        ensures
            img.wf(),
            img.spec_width() == width,
            img.spec_height() == height,
            !img.spec_flip(),
            img.spec_name() == Some(name),
            is_default_lighter(img.lighter_view()),
            forall|r: int, c: int|
                0 <= r < height && 0 <= c < width ==> #[trigger] img.pixels()[r][c] == (Color {
                    red: 0,
                    green: 0,
                    blue: 0,
                }),
            forall|r: int, c: int|
                0 <= r < height && 0 <= c < width ==> #[trigger] img.depths()[r][c] == DEPTH_EMPTY,
    {
        Image {
            name: Some(name),
            flip: false,
            data: Dynamic2D::fill(Color { red: 0, green: 0, blue: 0 }, width, height),
            zbuffer: Dynamic2D::fill(DEPTH_EMPTY, width, height),
            lighter: Lighter::default(),
        }
    }

    /// As `new`, with the serialization orientation chosen explicitly.
    pub fn new_flip(name: String, flip: bool, width: usize, height: usize) -> (img: Self)
        ensures
            img.wf(),
            img.spec_width() == width,
            img.spec_height() == height,
            img.spec_flip() == flip,
            img.spec_name() == Some(name),
            is_default_lighter(img.lighter_view()),
            forall|r: int, c: int|
                0 <= r < height && 0 <= c < width ==> #[trigger] img.pixels()[r][c] == (Color {
                    red: 0,
                    green: 0,
                    blue: 0,
                }),
            forall|r: int, c: int|
                0 <= r < height && 0 <= c < width ==> #[trigger] img.depths()[r][c] == DEPTH_EMPTY,
    {
        Image {
            name: Some(name),
            flip,
            data: Dynamic2D::fill(Color { red: 0, green: 0, blue: 0 }, width, height),
            zbuffer: Dynamic2D::fill(DEPTH_EMPTY, width, height),
            lighter: Lighter::default(),
        }
    }

    pub fn get_width(&self) -> (w: usize)
        requires
            self.wf(),
        ensures
            w == self.spec_width(),
    {
        self.data.get_width()
    }

    pub fn get_height(&self) -> (h: usize)
        requires
            self.wf(),
        ensures
            h == self.spec_height(),
    {
        self.data.get_height()
    }

    /// The stored name, if one was given.
    pub fn get_name(&self) -> (n: &Option<String>)
        ensures
            n == &self.spec_name(),
    {
        &self.name
    }

    pub closed spec fn spec_name(&self) -> Option<String> {
        self.name
    }

    /// The embedded lighter, for adding sources or changing the ambient
    /// base.
    pub fn get_lighter(&mut self) -> (lt: &mut Lighter)
        requires
            old(self).wf(),
        ensures
            *lt == old(self).lighter_view(),
            final(self).lighter_view() == *final(lt),
            final(self).wf(),
            final(self).pixels() == old(self).pixels(),
            final(self).depths() == old(self).depths(),
            final(self).spec_width() == old(self).spec_width(),
            final(self).spec_height() == old(self).spec_height(),
            final(self).spec_flip() == old(self).spec_flip(),
    {
        &mut self.lighter
    }

    /// Forget everything drawn and the lighting setup.
    pub fn clear(&mut self)
        requires
            old(self).wf(),
        ensures
            final(self).wf(),
            final(self).spec_width() == old(self).spec_width(),
            final(self).spec_height() == old(self).spec_height(),
            final(self).spec_flip() == old(self).spec_flip(),
            forall|r: int, c: int|
                0 <= r < old(self).spec_height() && 0 <= c < old(self).spec_width()
                    ==> #[trigger] final(self).pixels()[r][c] == (Color {
                    red: 0,
                    green: 0,
                    blue: 0,
                }) && final(self).depths()[r][c] == DEPTH_EMPTY,
            is_default_lighter(final(self).lighter_view()),
    {
        self.clear_shapes_only();
        self.clear_lighter();
    }

    /// Forget everything drawn, keeping the lighting setup.
    pub fn clear_shapes_only(&mut self)
        requires
            old(self).wf(),
        ensures
            final(self).wf(),
            final(self).spec_width() == old(self).spec_width(),
            final(self).spec_height() == old(self).spec_height(),
            final(self).spec_flip() == old(self).spec_flip(),
            final(self).lighter_view() == old(self).lighter_view(),
            forall|r: int, c: int|
                0 <= r < old(self).spec_height() && 0 <= c < old(self).spec_width()
                    ==> #[trigger] final(self).pixels()[r][c] == (Color {
                    red: 0,
                    green: 0,
                    blue: 0,
                }) && final(self).depths()[r][c] == DEPTH_EMPTY,
    {
        let w = self.data.get_width();
        let h = self.data.get_height();
        self.data = Dynamic2D::fill(Color { red: 0, green: 0, blue: 0 }, w, h);
        self.zbuffer = Dynamic2D::fill(DEPTH_EMPTY, w, h);
    }

    /// Reset the lighter to its default.
    pub fn clear_lighter(&mut self)
        requires
            old(self).wf(),
        ensures
            final(self).wf(),
            final(self).spec_width() == old(self).spec_width(),
            final(self).spec_height() == old(self).spec_height(),
            final(self).spec_flip() == old(self).spec_flip(),
            final(self).pixels() == old(self).pixels(),
            final(self).depths() == old(self).depths(),
            is_default_lighter(final(self).lighter_view()),
    {
        self.lighter = Lighter::default();
    }

    /// One depth-tested write: paint `(x, y)` with `c` at depth `z` if and
    /// only if the coordinates are inside the buffer and `z` is strictly
    /// closer than what is stored there.
    pub fn plot(&mut self, x: i64, y: i64, z: i64, c: Color)
        requires
            old(self).wf(),
        ensures
            final(self).wf(),
            final(self).spec_width() == old(self).spec_width(),
            final(self).spec_height() == old(self).spec_height(),
            final(self).spec_flip() == old(self).spec_flip(),
            final(self).lighter_view() == old(self).lighter_view(),
            (final(self).pixels(), final(self).depths()) == plot_spec(
                old(self).pixels(),
                old(self).depths(),
                x as int,
                y as int,
                z,
                c,
            ),
    {
        proof {
            self.data.lemma_wf();
            self.zbuffer.lemma_wf();
        }
        let w = self.data.get_width();
        let h = self.data.get_height();
        if x >= 0 && y >= 0 && (x as u64) < (w as u64) && (y as u64) < (h as u64) {
            let xx = x as usize;
            let yy = y as usize;
            if z > *self.zbuffer.at(yy, xx) {
                self.data.set(yy, xx, c);
                self.zbuffer.set(yy, xx, z);
                proof {
                    self.data.lemma_wf();
                    self.zbuffer.lemma_wf();
                    old(self).lemma_wf();
                    let xi = x as int;
                    let yi = y as int;
                    let newpix = old(self).pixels().update(
                        yi,
                        old(self).pixels()[yi].update(xi, c),
                    );
                    let newdep = old(self).depths().update(
                        yi,
                        old(self).depths()[yi].update(xi, z),
                    );
                    assert forall|rr: int|
                        0 <= rr < old(self).spec_height() implies #[trigger] self.data.gview()[rr]
                        =~= newpix[rr] by {
                        if rr == yi {
                        } else {
                        }
                    }
                    assert(self.data.gview() =~= newpix);
                    assert forall|rr: int|
                        0 <= rr < old(self).spec_height() implies #[trigger] self.zbuffer.gview(
                    )[rr] =~= newdep[rr] by {
                        if rr == yi {
                        } else {
                        }
                    }
                    assert(self.zbuffer.gview() =~= newdep);
                }
            }
        }
    }

    /// The serialized pixel order: each row in column order, rows from the
    /// bottom up unless the vertical flip is set.
    pub fn pixel_rows(&self) -> (rows: Vec<Color>)
        requires
            self.wf(),
            self.spec_width() * self.spec_height() <= usize::MAX,
        ensures
            rows@.len() == self.spec_width() * self.spec_height(),
            forall|k: int|
                0 <= k < rows@.len() ==> #[trigger] rows@[k] == self.pixels()[
                    if self.spec_flip() {
                        k / (self.spec_width() as int)
                    } else {
                        self.spec_height() - 1 - k / (self.spec_width() as int)
                    }][k % (self.spec_width() as int)],
    {
        proof {
            self.lemma_wf();
        }
        let w = self.data.get_width();
        let h = self.data.get_height();
        let mut rows: Vec<Color> = Vec::new();
        proof {
            assert((0int) * (w as int) == 0) by (nonlinear_arith);
            assert((w as int) * (h as int) == (h as int) * (w as int)) by (nonlinear_arith);
        }
        for r in 0..h
            invariant
                self.wf(),
                w == self.spec_width(),
                h == self.spec_height(),
                w * h <= usize::MAX,
                self.pixels().len() == h,
                forall|rr: int|
                    0 <= rr < h ==> (#[trigger] self.pixels()[rr]).len() == w,
                rows@.len() == r * w,
                forall|k: int|
                    0 <= k < rows@.len() ==> #[trigger] rows@[k] == self.pixels()[
                        if self.spec_flip() {
                            k / (w as int)
                        } else {
                            h - 1 - k / (w as int)
                        }][k % (w as int)],
        {
            let src_row = if self.flip {
                r
            } else {
                h - 1 - r
            };
            for c in 0..w
                invariant
                    self.wf(),
                    w == self.spec_width(),
                    h == self.spec_height(),
                    r < h,
                    src_row == (if self.spec_flip() {
                        r as int
                    } else {
                        h - 1 - r
                    }),
                    w * h <= usize::MAX,
                    self.pixels().len() == h,
                    forall|rr: int|
                        0 <= rr < h ==> (#[trigger] self.pixels()[rr]).len() == w,
                    rows@.len() == r * w + c,
                    forall|k: int|
                        0 <= k < rows@.len() ==> #[trigger] rows@[k] == self.pixels()[
                            if self.spec_flip() {
                                k / (w as int)
                            } else {
                                h - 1 - k / (w as int)
                            }][k % (w as int)],
            {
                proof {
                    lemma_row_major_bound(r as int, c as int, w as int, h as int);
                }
                rows.push(*self.data.at(src_row, c));
                proof {
                    lemma_row_major_index(r as int, c as int, w as int);
                }
            }
            proof {
                assert(((r + 1) as int) * (w as int) == (r as int) * (w as int) + (w as int))
                    by (nonlinear_arith);
            }
        }
        proof {
            lemma_mul_full(h as int, w as int);
        }
        rows
    }
}

/// The fixed walk data of one Bresenham line: after putting the leftmost
/// endpoint first, the driving ("faster") axis is the one with the larger
/// span, and the other ("slower") coordinate advances by `sdir` whenever
/// the error term crosses zero. Depth advances by a constant truncated
/// step per pixel.
pub struct LineParams {
    pub steep: bool,
    pub f0: int,
    pub s0: int,
    pub fdir: int,
    pub sdir: int,
    pub err0: int,
    pub corr: int,
    pub accum: int,
    pub cmp_ge: bool,
    pub z0: int,
    pub dzpp: int,
    pub n: int,
}

/// The walk data of the line from `p0` to `p1`, derived exactly as the
/// drawing loop sets it up.
pub open spec fn line_params(p0: (i32, i32, i64), p1: (i32, i32, i64)) -> LineParams {
    let (a, b) = if p0.0 > p1.0 {
        (p1, p0)
    } else {
        (p0, p1)
    };
    let dx = b.0 - a.0;
    let dy = b.1 - a.1;
    let dz = b.2 - a.2;
    let ady = if dy < 0 {
        -dy
    } else {
        dy
    };
    let steep = ady > dx;
    let down = dy < 0;
    let sign: int = if down {
        1
    } else {
        -1
    };
    let n = (if steep {
        ady
    } else {
        dx
    }) + 1;
    LineParams {
        steep,
        f0: if steep {
            a.1 as int
        } else {
            a.0 as int
        },
        s0: if steep {
            a.0 as int
        } else {
            a.1 as int
        },
        fdir: if steep && down {
            -1
        } else {
            1
        },
        sdir: if !steep && down {
            -1
        } else {
            1
        },
        err0: if steep {
            dy + 2 * dx * sign
        } else {
            if down {
                2 * dy + dx
            } else {
                2 * dy - dx
            }
        },
        corr: if steep {
            2 * dy
        } else {
            2 * dx * sign
        },
        accum: if steep {
            2 * dx * sign
        } else {
            2 * dy
        },
        cmp_ge: steep == down,
        z0: a.2 as int,
        dzpp: div_fp(dz, n),
        n,
    }
}

/// The error term has crossed zero, in the direction this walk watches.
pub open spec fn walk_cond(p: LineParams, e: int) -> bool {
    if p.cmp_ge {
        e >= 0
    } else {
        e <= 0
    }
}

/// The (slower coordinate, error term) pair before step `k`.
pub open spec fn walk_state(p: LineParams, k: int) -> (int, int)
    decreases k,
{
    if k <= 0 {
        (p.s0, p.err0)
    } else {
        let (s, e) = walk_state(p, k - 1);
        if walk_cond(p, e) {
            (s + p.sdir, e + p.corr + p.accum)
        } else {
            (s, e + p.accum)
        }
    }
}

/// The faster coordinate at step `k`.
pub open spec fn walk_f(p: LineParams, k: int) -> int {
    p.f0 + (if p.fdir >= 0 {
        k
    } else {
        -k
    })
}

/// The depth at step `k`.
pub open spec fn walk_z(p: LineParams, k: int) -> int
    decreases k,
{
    if k <= 0 {
        p.z0
    } else {
        walk_z(p, k - 1) + p.dzpp
    }
}

/// The column of the pixel visited at step `k`.
pub open spec fn walk_x(p: LineParams, k: int) -> int {
    if p.steep {
        walk_state(p, k).0
    } else {
        walk_f(p, k)
    }
}

/// The row of the pixel visited at step `k`.
pub open spec fn walk_y(p: LineParams, k: int) -> int {
    if p.steep {
        walk_f(p, k)
    } else {
        walk_state(p, k).0
    }
}

/// The buffers after the first `k` depth-tested writes of the walk.
pub open spec fn line_fold(
    pix: Seq<Seq<Color>>,
    dep: Seq<Seq<i64>>,
    p: LineParams,
    c: Color,
    k: int,
) -> (Seq<Seq<Color>>, Seq<Seq<i64>>)
    decreases k,
{
    if k <= 0 {
        (pix, dep)
    } else {
        let prev = line_fold(pix, dep, p, c, k - 1);
        plot_spec(prev.0, prev.1, walk_x(p, k - 1), walk_y(p, k - 1), walk_z(p, k - 1) as i64, c)
    }
}

/// The set of pixels the walk visits, regardless of depth.
pub open spec fn line_points(p0: (i32, i32, i64), p1: (i32, i32, i64)) -> Set<(int, int)> {
    let p = line_params(p0, p1);
    Set::new(|q: (int, int)| exists|k: int| 0 <= k < p.n && q == (walk_x(p, k), walk_y(p, k)))
}

impl Image {
    /// Draw the segment from `p0` to `p1` in color `c`: a Bresenham walk
    /// along the larger span, one depth-tested write per step, depth
    /// interpolated linearly with a constant truncated increment.
    pub fn draw_line(&mut self, p0: (i32, i32, i64), p1: (i32, i32, i64), c: Color)
        requires
            old(self).wf(),
            -RASTER_BOUND <= p0.0 as int <= RASTER_BOUND,
            -RASTER_BOUND <= p0.1 as int <= RASTER_BOUND,
            -RASTER_BOUND <= p0.2 <= RASTER_BOUND,
            -RASTER_BOUND <= p1.0 as int <= RASTER_BOUND,
            -RASTER_BOUND <= p1.1 as int <= RASTER_BOUND,
            -RASTER_BOUND <= p1.2 <= RASTER_BOUND,
        ensures
            final(self).wf(),
            final(self).spec_width() == old(self).spec_width(),
            final(self).spec_height() == old(self).spec_height(),
            final(self).spec_flip() == old(self).spec_flip(),
            final(self).lighter_view() == old(self).lighter_view(),
            (final(self).pixels(), final(self).depths()) == line_fold(
                old(self).pixels(),
                old(self).depths(),
                line_params(p0, p1),
                c,
                line_params(p0, p1).n,
            ),
    {
        let ghost p = line_params(p0, p1);
        let (a, b) = if p0.0 > p1.0 {
            (p1, p0)
        } else {
            (p0, p1)
        };
        let x0 = a.0 as i64;
        let y0 = a.1 as i64;
        let x1 = b.0 as i64;
        let y1 = b.1 as i64;
        let dx = x1 - x0;
        let dy = y1 - y0;
        let dz = b.2 - a.2;
        let ady = if dy < 0 {
            -dy
        } else {
            dy
        };
        let steep = ady > dx;
        let down = dy < 0;
        let n = (if steep {
            ady
        } else {
            dx
        }) + 1;
        let dx2: i64 = if down {
            2 * dx
        } else {
            -(2 * dx)
        };
        proof {
            assert(2 * (dx as int) * 1int == 2 * (dx as int)) by (nonlinear_arith);
            assert(2 * (dx as int) * (-1int) == -(2 * (dx as int))) by (nonlinear_arith);
        }
        let dzpp = div64(dz, n);
        proof {
            vstd::arithmetic::mul::lemma_mul_inequality(1int, n as int, 2 * RASTER_BOUND as int);
            assert((1int) * (2 * RASTER_BOUND as int) == 2 * RASTER_BOUND as int)
                by (nonlinear_arith);
            crate::fixed::lemma_div_fp_bound(dz as int, n as int, 2 * RASTER_BOUND as int);
        }
        let mut err: i64 = if steep {
            dy + dx2
        } else {
            if down {
                2 * dy + dx
            } else {
                2 * dy - dx
            }
        };
        let corr: i64 = if steep {
            2 * dy
        } else {
            dx2
        };
        let accum: i64 = if steep {
            dx2
        } else {
            2 * dy
        };
        let cmp_ge = steep == down;
        let fdir: i64 = if steep && down {
            -1
        } else {
            1
        };
        let sdir: i64 = if !steep && down {
            -1
        } else {
            1
        };
        let mut faster = if steep {
            y0
        } else {
            x0
        };
        let mut slower = if steep {
            x0
        } else {
            y0
        };
        let mut z = a.2;
        let steps = n as usize;
        proof {
            assert(p.steep == steep);
            assert(p.n == n as int);
            assert(p.err0 == err as int);
            assert(p.corr == corr as int);
            assert(p.accum == accum as int);
            assert(p.dzpp == dzpp as int);
        }
        for k in 0..steps
            invariant
                self.wf(),
                self.spec_width() == old(self).spec_width(),
                self.spec_height() == old(self).spec_height(),
                self.spec_flip() == old(self).spec_flip(),
                self.lighter_view() == old(self).lighter_view(),
                steps == p.n,
                1 <= p.n <= 2 * RASTER_BOUND as int + 1,
                p.corr == corr as int,
                p.accum == accum as int,
                p.cmp_ge == cmp_ge,
                p.sdir == sdir as int,
                p.fdir == fdir as int,
                sdir == 1 || sdir == -1,
                fdir == 1 || fdir == -1,
                p.dzpp == dzpp as int,
                p.steep == steep,
                -(4 * RASTER_BOUND as int) <= p.corr <= 4 * RASTER_BOUND as int,
                -(4 * RASTER_BOUND as int) <= p.accum <= 4 * RASTER_BOUND as int,
                -(2 * RASTER_BOUND as int) <= p.dzpp <= 2 * RASTER_BOUND as int,
                -RASTER_BOUND <= p.s0 <= RASTER_BOUND as int,
                -RASTER_BOUND <= p.f0 <= RASTER_BOUND as int,
                walk_state(p, k as int) == (slower as int, err as int),
                faster as int == walk_f(p, k as int),
                z as int == walk_z(p, k as int),
                -(RASTER_BOUND as int) - (k as int) <= slower as int <= RASTER_BOUND as int + (
                k as int),
                -(RASTER_BOUND as int) - (k as int) <= faster as int <= RASTER_BOUND as int + (
                k as int),
                -(8 * RASTER_BOUND as int) - (k as int) * (8 * RASTER_BOUND as int) <= err as int
                    <= 8 * RASTER_BOUND as int + (k as int) * (8 * RASTER_BOUND as int),
                -(RASTER_BOUND as int) - (k as int) * (2 * RASTER_BOUND as int) <= z as int
                    <= RASTER_BOUND as int + (k as int) * (2 * RASTER_BOUND as int),
                (self.pixels(), self.depths()) == line_fold(
                    old(self).pixels(),
                    old(self).depths(),
                    p,
                    c,
                    k as int,
                ),
        {
            let (x, y) = if steep {
                (slower, faster)
            } else {
                (faster, slower)
            };
            self.plot(x, y, z, c);
            proof {
                assert(x as int == walk_x(p, k as int));
                assert(y as int == walk_y(p, k as int));
                assert(z == walk_z(p, k as int) as i64);
                assert(line_fold(old(self).pixels(), old(self).depths(), p, c, k + 1) == plot_spec(
                    line_fold(old(self).pixels(), old(self).depths(), p, c, k as int).0,
                    line_fold(old(self).pixels(), old(self).depths(), p, c, k as int).1,
                    walk_x(p, k as int),
                    walk_y(p, k as int),
                    walk_z(p, k as int) as i64,
                    c,
                ));
                lemma_step_products(k as int, RASTER_BOUND as int);
                vstd::arithmetic::mul::lemma_mul_inequality(
                    k as int,
                    2 * RASTER_BOUND as int + 1,
                    8 * RASTER_BOUND as int,
                );
                vstd::arithmetic::mul::lemma_mul_inequality(
                    k as int,
                    2 * RASTER_BOUND as int + 1,
                    2 * RASTER_BOUND as int,
                );
                assert((2 * RASTER_BOUND as int + 1) * (8 * RASTER_BOUND as int)
                    <= 0x2000_0000_0000_0000int) by (nonlinear_arith);
                assert((2 * RASTER_BOUND as int + 1) * (2 * RASTER_BOUND as int)
                    <= 0x2000_0000_0000_0000int) by (nonlinear_arith);
            }
            if (cmp_ge && err >= 0) || (!cmp_ge && err <= 0) {
                slower = slower + sdir;
                err = err + corr;
            }
            err = err + accum;
            z = z + dzpp;
            faster = faster + fdir;
        }
        proof {
            assert((self.pixels(), self.depths()) == line_fold(
                old(self).pixels(),
                old(self).depths(),
                p,
                c,
                p.n,
            ));
        }
    }

    /// Read the color at row `r`, column `c`.
    pub fn get_pixel(&self, r: usize, c: usize) -> (px: Color)
        requires
            self.wf(),
            r < self.spec_height(),
            c < self.spec_width(),
        ensures
            px == self.pixels()[r as int][c as int],
    {
        proof {
            self.data.lemma_wf();
        }
        *self.data.at(r, c)
    }

    /// Read the depth at row `r`, column `c`.
    pub fn get_depth(&self, r: usize, c: usize) -> (d: i64)
        requires
            self.wf(),
            r < self.spec_height(),
            c < self.spec_width(),
        ensures
            d == self.depths()[r as int][c as int],
    {
        proof {
            self.zbuffer.lemma_wf();
        }
        *self.zbuffer.at(r, c)
    }
}

/// The buffers after drawing the first `k` edges of an edge list as lines
/// at depth zero.
pub open spec fn draw_edges_fold(
    pix: Seq<Seq<Color>>,
    dep: Seq<Seq<i64>>,
    em: Seq<Seq<i64>>,
    c: Color,
    k: int,
) -> (Seq<Seq<Color>>, Seq<Seq<i64>>)
    decreases k,
{
    if k <= 0 {
        (pix, dep)
    } else {
        let prev = draw_edges_fold(pix, dep, em, c, k - 1);
        let p0 = crate::edge_matrix::col3(em, 2 * (k - 1));
        let p1 = crate::edge_matrix::col3(em, 2 * (k - 1) + 1);
        let lp = line_params(
            (p0.0 as i32, p0.1 as i32, 0i64),
            (p1.0 as i32, p1.1 as i32, 0i64),
        );
        line_fold(prev.0, prev.1, lp, c, lp.n)
    }
}

/// The sum of the red channel over the first `k` cells of the 4x4 block
/// whose top-left corner is `(4r, 4c)`, in row-major block order.
pub open spec fn block_sum_red(pix: Seq<Seq<Color>>, r: int, c: int, k: int) -> int
    decreases k,
{
    if k <= 0 {
        0
    } else {
        block_sum_red(pix, r, c, k - 1) + pix[4 * r + (k - 1) / 4][4 * c + (k - 1) % 4].red
    }
}

/// As `block_sum_red`, for the green channel.
pub open spec fn block_sum_green(pix: Seq<Seq<Color>>, r: int, c: int, k: int) -> int
    decreases k,
{
    if k <= 0 {
        0
    } else {
        block_sum_green(pix, r, c, k - 1) + pix[4 * r + (k - 1) / 4][4 * c + (k - 1) % 4].green
    }
}

/// As `block_sum_red`, for the blue channel.
pub open spec fn block_sum_blue(pix: Seq<Seq<Color>>, r: int, c: int, k: int) -> int
    decreases k,
{
    if k <= 0 {
        0
    } else {
        block_sum_blue(pix, r, c, k - 1) + pix[4 * r + (k - 1) / 4][4 * c + (k - 1) % 4].blue
    }
}

/// The downsampled color at `(r, c)`: each channel the truncated mean of
/// its 4x4 block.
pub open spec fn downsampled_at(pix: Seq<Seq<Color>>, r: int, c: int) -> Color {
    Color {
        red: (block_sum_red(pix, r, c, 16) / 16) as u8,
        green: (block_sum_green(pix, r, c, 16) / 16) as u8,
        blue: (block_sum_blue(pix, r, c, 16) / 16) as u8,
    }
}

/// The 4x4 block at `(4r, 4c)` lies inside `pix` and is entirely `col`.
pub open spec fn uniform_block(pix: Seq<Seq<Color>>, r: int, c: int, col: Color) -> bool {
    forall|i: int, j: int|
        0 <= i < 4 && 0 <= j < 4 ==> 0 <= 4 * r + i < pix.len() && 0 <= 4 * c + j < pix[4 * r
            + i].len() && #[trigger] pix[4 * r + i][4 * c + j] == col
}

/// Channel sums over `k` cells of a block stay within `255 * k`.
proof fn lemma_block_sum_bound(pix: Seq<Seq<Color>>, r: int, c: int, k: int)
    requires
        0 <= k,
    ensures
        0 <= block_sum_red(pix, r, c, k) <= 255 * k,
        0 <= block_sum_green(pix, r, c, k) <= 255 * k,
        0 <= block_sum_blue(pix, r, c, k) <= 255 * k,
    decreases k,
{
    if k > 0 {
        lemma_block_sum_bound(pix, r, c, k - 1);
    }
}

/// A block of one solid color averages back to exactly that color: the
/// channel sums over `k` cells are `k` times the channel values.
pub proof fn lemma_block_sum_uniform(pix: Seq<Seq<Color>>, r: int, c: int, k: int, col: Color)
    requires
        0 <= k <= 16,
        uniform_block(pix, r, c, col),
    ensures
        block_sum_red(pix, r, c, k) == k * (col.red as int),
        block_sum_green(pix, r, c, k) == k * (col.green as int),
        block_sum_blue(pix, r, c, k) == k * (col.blue as int),
    decreases k,
{
    if k <= 0 {
    } else {
        lemma_block_sum_uniform(pix, r, c, k - 1, col);
        assert(0 <= (k - 1) / 4 < 4 && 0 <= (k - 1) % 4 < 4);
        assert(pix[4 * r + (k - 1) / 4][4 * c + (k - 1) % 4] == col);
        assert(k * (col.red as int) == (k - 1) * (col.red as int) + col.red) by (nonlinear_arith);
        assert(k * (col.green as int) == (k - 1) * (col.green as int) + col.green)
            by (nonlinear_arith);
        assert(k * (col.blue as int) == (k - 1) * (col.blue as int) + col.blue)
            by (nonlinear_arith);
    }
}

/// Downsampling an image of one solid color gives exactly that color at
/// every output pixel.
pub proof fn lemma_downsample_uniform(pix: Seq<Seq<Color>>, r: int, c: int, col: Color)
    requires
        uniform_block(pix, r, c, col),
    ensures
        downsampled_at(pix, r, c) == col,
{
    lemma_block_sum_uniform(pix, r, c, 16, col);
}

impl Image {
    /// Draw every edge of an edge list in color `c`, at depth zero, in
    /// storage order.
    pub fn draw_matrix(&mut self, matrix: &crate::edge_matrix::EdgeMatrix, c: Color)
        requires
            old(self).wf(),
            matrix.wf(),
        ensures
            final(self).wf(),
            final(self).spec_width() == old(self).spec_width(),
            final(self).spec_height() == old(self).spec_height(),
            final(self).spec_flip() == old(self).spec_flip(),
            final(self).lighter_view() == old(self).lighter_view(),
            (final(self).pixels(), final(self).depths()) == draw_edges_fold(
                old(self).pixels(),
                old(self).depths(),
                matrix.grid_view(),
                c,
                matrix.point_count() as int / 2,
            ),
    {
        proof {
            matrix.lemma_wf();
        }
        let count = matrix.edge_count();
        for e in 0..count
            invariant
                self.wf(),
                matrix.wf(),
                self.spec_width() == old(self).spec_width(),
                self.spec_height() == old(self).spec_height(),
                self.spec_flip() == old(self).spec_flip(),
                self.lighter_view() == old(self).lighter_view(),
                count == matrix.point_count() as int / 2,
                2 * (count as int) == matrix.point_count(),
                matrix.point_count() <= usize::MAX,
                (self.pixels(), self.depths()) == draw_edges_fold(
                    old(self).pixels(),
                    old(self).depths(),
                    matrix.grid_view(),
                    c,
                    e as int,
                ),
        {
            let p0 = matrix.point(2 * e);
            let p1 = matrix.point(2 * e + 1);
            self.draw_line((p0.0 as i32, p0.1 as i32, 0i64), (p1.0 as i32, p1.1 as i32, 0i64), c);
        }
    }

    /// Shrink a supersampled frame by the sampling factor: each output
    /// pixel is the channel-wise truncated mean of its 4x4 source block.
    /// The result starts with a fresh depth buffer and the default lighter.
    pub fn downsample(&self) -> (out: Image)
        requires
            self.wf(),
            self.spec_width() % 4 == 0,
            self.spec_height() % 4 == 0,
        ensures
            out.wf(),
            out.spec_width() == self.spec_width() / 4,
            out.spec_height() == self.spec_height() / 4,
            out.spec_flip() == self.spec_flip(),
            forall|r: int, c: int|
                0 <= r < out.spec_height() && 0 <= c < out.spec_width()
                    ==> #[trigger] out.pixels()[r][c] == downsampled_at(self.pixels(), r, c),
            forall|r: int, c: int|
                0 <= r < out.spec_height() && 0 <= c < out.spec_width()
                    ==> #[trigger] out.depths()[r][c] == DEPTH_EMPTY,
            is_default_lighter(out.lighter_view()),
    {
        proof {
            self.lemma_wf();
        }
        let w = self.data.get_width() / 4;
        let h = self.data.get_height() / 4;
        let mut data = Dynamic2D::fill(Color { red: 0, green: 0, blue: 0 }, w, h);
        for r in 0..h
            invariant
                self.wf(),
                w == self.spec_width() / 4,
                h == self.spec_height() / 4,
                4 * (w as int) == self.spec_width(),
                4 * (h as int) == self.spec_height(),
                self.pixels().len() == self.spec_height(),
                forall|rr: int|
                    0 <= rr < self.spec_height() ==> (#[trigger] self.pixels()[rr]).len()
                        == self.spec_width(),
                data.wf(),
                data.spec_width() == w,
                data.spec_height() == h,
                forall|rr: int, cc: int|
                    0 <= rr < r && 0 <= cc < w ==> #[trigger] data.gview()[rr][cc]
                        == downsampled_at(self.pixels(), rr, cc),
        {
            for c in 0..w
                invariant
                    self.wf(),
                    r < h,
                    w == self.spec_width() / 4,
                    h == self.spec_height() / 4,
                    4 * (w as int) == self.spec_width(),
                    4 * (h as int) == self.spec_height(),
                    self.pixels().len() == self.spec_height(),
                    forall|rr: int|
                        0 <= rr < self.spec_height() ==> (#[trigger] self.pixels()[rr]).len()
                            == self.spec_width(),
                    data.wf(),
                    data.spec_width() == w,
                    data.spec_height() == h,
                    forall|rr: int, cc: int|
                        0 <= rr < r && 0 <= cc < w ==> #[trigger] data.gview()[rr][cc]
                            == downsampled_at(self.pixels(), rr, cc),
                    forall|cc: int|
                        0 <= cc < c ==> #[trigger] data.gview()[r as int][cc] == downsampled_at(
                            self.pixels(),
                            r as int,
                            cc,
                        ),
            {
                let avg = self.block_average(r, c);
                data.set(r, c, avg);
            }
        }
        let out = Image {
            name: self.name.clone(),
            flip: self.flip,
            data,
            zbuffer: Dynamic2D::fill(DEPTH_EMPTY, w, h),
            lighter: Lighter::default(),
        };
        proof {
            out.data.lemma_wf();
            out.zbuffer.lemma_wf();
        }
        out
    }

    /// The truncated channel-wise mean of the 4x4 block at `(4r, 4c)`.
    fn block_average(&self, r: usize, c: usize) -> (avg: Color)
        requires
            self.wf(),
            4 * r + 4 <= self.spec_height(),
            4 * c + 4 <= self.spec_width(),
        ensures
            avg == downsampled_at(self.pixels(), r as int, c as int),
    {
        proof {
            self.lemma_wf();
        }
        let mut sr: u32 = 0;
        let mut sg: u32 = 0;
        let mut sb: u32 = 0;
        for i in 0..4usize
            invariant
                self.wf(),
                4 * r + 4 <= self.spec_height(),
                4 * c + 4 <= self.spec_width(),
                self.spec_height() <= usize::MAX,
                self.spec_width() <= usize::MAX,
                self.pixels().len() == self.spec_height(),
                forall|rr: int|
                    0 <= rr < self.spec_height() ==> (#[trigger] self.pixels()[rr]).len()
                        == self.spec_width(),
                sr == block_sum_red(self.pixels(), r as int, c as int, 4 * i as int),
                sg == block_sum_green(self.pixels(), r as int, c as int, 4 * i as int),
                sb == block_sum_blue(self.pixels(), r as int, c as int, 4 * i as int),
        {
            for j in 0..4usize
                invariant
                    self.wf(),
                    i < 4,
                    4 * r + 4 <= self.spec_height(),
                    4 * c + 4 <= self.spec_width(),
                    self.spec_height() <= usize::MAX,
                    self.spec_width() <= usize::MAX,
                    self.pixels().len() == self.spec_height(),
                    forall|rr: int|
                        0 <= rr < self.spec_height() ==> (#[trigger] self.pixels()[rr]).len()
                            == self.spec_width(),
                    sr == block_sum_red(self.pixels(), r as int, c as int, 4 * i as int + j),
                    sg == block_sum_green(self.pixels(), r as int, c as int, 4 * i as int + j),
                    sb == block_sum_blue(self.pixels(), r as int, c as int, 4 * i as int + j),
            {
                proof {
                    lemma_row_major_index(i as int, j as int, 4int);
                    lemma_block_sum_bound(self.pixels(), r as int, c as int, 4 * i as int + j);
                }
                let px = *self.data.at(4 * r + i, 4 * c + j);
                sr = sr + px.red as u32;
                sg = sg + px.green as u32;
                sb = sb + px.blue as u32;
            }
        }
        proof {
            lemma_block_sum_bound(self.pixels(), r as int, c as int, 16);
        }
        Color { red: (sr / 16) as u8, green: (sg / 16) as u8, blue: (sb / 16) as u8 }
    }
}

/// The two shading modes of the polygon rasterizer.
#[derive(Clone, Copy, Debug, PartialEq, Eq, Structural)]
pub enum ShadingMethod {
    Flat,
    Phong,
}

/// One triangle vertex as the rasterizer walks it: supersampled
/// coordinates and the smoothed normal at the vertex.
#[derive(Clone, Copy, Debug, PartialEq, Eq, Structural)]
pub struct Vertex {
    pub x: i64,
    pub y: i64,
    pub z: i64,
    pub n: Vector3D,
}

/// Stable three-way sort by `y`, as two-and-a-half exchange steps.
pub open spec fn sort3_spec(a: Vertex, b: Vertex, c: Vertex) -> (Vertex, Vertex, Vertex) {
    let (a1, b1) = if b.y < a.y {
        (b, a)
    } else {
        (a, b)
    };
    let (b2, c2) = if c.y < b1.y {
        (c, b1)
    } else {
        (b1, c)
    };
    let (a3, b3) = if b2.y < a1.y {
        (b2, a1)
    } else {
        (a1, b2)
    };
    (a3, b3, c2)
}

/// The integer distance between two points: the integer square root of
/// the squared Euclidean distance.
pub open spec fn idist_spec(p: (i64, i64, i64), q: (i64, i64, i64)) -> int {
    spec_isqrt(
        (q.0 - p.0) * (q.0 - p.0) + (q.1 - p.1) * (q.1 - p.1) + (q.2 - p.2) * (q.2 - p.2),
    )
}

/// The direction between two weighted directions: each scaled by its
/// weight, summed, renormalized.
pub open spec fn interp2_spec(a: Vector3D, wa: i64, b: Vector3D, wb: i64) -> Vector3D {
    let wx = a.x * wa + b.x * wb;
    let wy = a.y * wa + b.y * wb;
    let wz = a.z * wa + b.z * wb;
    Vector3D {
        x: normalized_comp(wx, wx, wy, wz) as i64,
        y: normalized_comp(wy, wx, wy, wz) as i64,
        z: normalized_comp(wz, wx, wy, wz) as i64,
    }
}

/// Linear interpolation from `a` toward `b`, `k` of `steps` of the way,
/// truncating.
pub open spec fn interp_spec(a: i64, b: i64, k: int, steps: int) -> int {
    a + div_fp((b - a) * k, steps)
}

/// The depth at pixel `k` of a Phong scanline.
pub open spec fn scan_z(zl: i64, dzpp: int, k: int) -> int
    decreases k,
{
    if k <= 0 {
        zl as int
    } else {
        scan_z(zl, dzpp, k - 1) + dzpp
    }
}

/// The interpolated normal at pixel `k` of a Phong scanline: the two
/// endpoint normals weighted by the distance to the opposite endpoint.
pub open spec fn scan_normal(
    y: i64,
    xl: i64,
    zl: i64,
    ln: Vector3D,
    xr: i64,
    zr: i64,
    rn: Vector3D,
    dzpp: int,
    k: int,
) -> Vector3D {
    let x = xl + k;
    let z = scan_z(zl, dzpp, k);
    interp2_spec(
        ln,
        idist_spec((x as i64, y, z as i64), (xr, y, zr)) as i64,
        rn,
        idist_spec((x as i64, y, z as i64), (xl, y, zl)) as i64,
    )
}

/// The buffers after the first `k` pixels of a Phong scanline: each pixel
/// lit at its interpolated normal, then depth-tested.
pub open spec fn scan_phong_fold(
    pix: Seq<Seq<Color>>,
    dep: Seq<Seq<i64>>,
    src: Seq<(Vector3D, Color)>,
    amb: Color,
    conf: LightingConfig,
    y: i64,
    xl: i64,
    zl: i64,
    ln: Vector3D,
    xr: i64,
    zr: i64,
    rn: Vector3D,
    dzpp: int,
    k: int,
) -> (Seq<Seq<Color>>, Seq<Seq<i64>>)
    decreases k,
{
    if k <= 0 {
        (pix, dep)
    } else {
        let prev = scan_phong_fold(pix, dep, src, amb, conf, y, xl, zl, ln, xr, zr, rn, dzpp, k - 1);
        let nrm = scan_normal(y, xl, zl, ln, xr, zr, rn, dzpp, k - 1);
        let col = crate::lighter::phong(src, amb, nrm, conf);
        plot_spec(prev.0, prev.1, xl + k - 1, y as int, scan_z(zl, dzpp, k - 1) as i64, col)
    }
}

/// One scanline of a triangle at offset `k` above the lowest vertex: edge
/// positions interpolated on the long edge and on the split short edge,
/// drawn flat as a depth-tested line or Phong-shaded pixel by pixel.
pub open spec fn scan_step(
    pix: Seq<Seq<Color>>,
    dep: Seq<Seq<i64>>,
    src: Seq<(Vector3D, Color)>,
    amb: Color,
    conf: LightingConfig,
    shading: ShadingMethod,
    col: Color,
    s0: Vertex,
    s1: Vertex,
    s2: Vertex,
    k: int,
) -> (Seq<Seq<Color>>, Seq<Seq<i64>>) {
    let y = s0.y + k;
    let long = s2.y - s0.y + 1;
    let xa = interp_spec(s0.x, s2.x, k, long);
    let za = interp_spec(s0.z, s2.z, k, long);
    let swapped = y >= s1.y;
    let xb = if !swapped {
        interp_spec(s0.x, s1.x, k, s1.y - s0.y + 1)
    } else {
        interp_spec(s1.x, s2.x, y - s1.y, s2.y - s1.y + 1)
    };
    let zb = if !swapped {
        interp_spec(s0.z, s1.z, k, s1.y - s0.y + 1)
    } else {
        interp_spec(s1.z, s2.z, y - s1.y, s2.y - s1.y + 1)
    };
    match shading {
        ShadingMethod::Flat => {
            let lp = line_params(
                (xa as i32, y as i32, za as i64),
                (xb as i32, y as i32, zb as i64),
            );
            line_fold(pix, dep, lp, col, lp.n)
        },
        ShadingMethod::Phong => {
            let na = interp2_spec(
                s0.n,
                idist_spec((xa as i64, y as i64, za as i64), (s2.x, s2.y, s2.z)) as i64,
                s2.n,
                idist_spec((xa as i64, y as i64, za as i64), (s0.x, s0.y, s0.z)) as i64,
            );
            let nb = if !swapped {
                interp2_spec(
                    s0.n,
                    idist_spec((xb as i64, y as i64, zb as i64), (s1.x, s1.y, s1.z)) as i64,
                    s1.n,
                    idist_spec((xb as i64, y as i64, zb as i64), (s0.x, s0.y, s0.z)) as i64,
                )
            } else {
                interp2_spec(
                    s1.n,
                    idist_spec((xb as i64, y as i64, zb as i64), (s2.x, s2.y, s2.z)) as i64,
                    s2.n,
                    idist_spec((xb as i64, y as i64, zb as i64), (s1.x, s1.y, s1.z)) as i64,
                )
            };
            let (xi, zi, ni, xj, zj, nj) = if xa as i64 > xb as i64 {
                (xb as i64, zb as i64, nb, xa as i64, za as i64, na)
            } else {
                (xa as i64, za as i64, na, xb as i64, zb as i64, nb)
            };
            let dzpp = div_fp(zj - zi, xj - xi + 1);
            scan_phong_fold(
                pix,
                dep,
                src,
                amb,
                conf,
                y as i64,
                xi,
                zi,
                ni,
                xj,
                zj,
                nj,
                dzpp,
                xj - xi + 1,
            )
        },
    }
}

/// The buffers after the first `k` scanlines of one triangle.
pub open spec fn tri_scan_fold(
    pix: Seq<Seq<Color>>,
    dep: Seq<Seq<i64>>,
    src: Seq<(Vector3D, Color)>,
    amb: Color,
    conf: LightingConfig,
    shading: ShadingMethod,
    col: Color,
    s0: Vertex,
    s1: Vertex,
    s2: Vertex,
    k: int,
) -> (Seq<Seq<Color>>, Seq<Seq<i64>>)
    decreases k,
{
    if k <= 0 {
        (pix, dep)
    } else {
        let prev = tri_scan_fold(pix, dep, src, amb, conf, shading, col, s0, s1, s2, k - 1);
        scan_step(prev.0, prev.1, src, amb, conf, shading, col, s0, s1, s2, k - 1)
    }
}

/// Vertex `j` of a polygon list, supersampled by `SAMPLE_SCALE` and paired
/// with its smoothed normal.
pub open spec fn scaled_vertex(g: Seq<Seq<i64>>, vns: Seq<Vector3D>, j: int) -> Vertex {
    Vertex {
        x: (4 * g[0][j]) as i64,
        y: (4 * g[1][j]) as i64,
        z: (4 * g[2][j]) as i64,
        n: vns[j],
    }
}

/// One whole triangle: culled when its face normal points away from the
/// camera, otherwise lit once (flat) and scanline-filled bottom to top.
pub open spec fn tri_step(
    pix: Seq<Seq<Color>>,
    dep: Seq<Seq<i64>>,
    g: Seq<Seq<i64>>,
    fns: Seq<Vector3D>,
    vns: Seq<Vector3D>,
    src: Seq<(Vector3D, Color)>,
    amb: Color,
    conf: LightingConfig,
    shading: ShadingMethod,
    t: int,
) -> (Seq<Seq<Color>>, Seq<Seq<i64>>) {
    let n = fns[t];
    if n.z < 0 {
        (pix, dep)
    } else {
        let col = crate::lighter::phong(src, amb, n, conf);
        let v0 = scaled_vertex(g, vns, 3 * t);
        let v1 = scaled_vertex(g, vns, 3 * t + 1);
        let v2 = scaled_vertex(g, vns, 3 * t + 2);
        let (s0, s1, s2) = sort3_spec(v0, v1, v2);
        tri_scan_fold(pix, dep, src, amb, conf, shading, col, s0, s1, s2, s2.y - s0.y + 1)
    }
}

/// The buffers after rasterizing the first `k` triangles.
pub open spec fn polys_fold(
    pix: Seq<Seq<Color>>,
    dep: Seq<Seq<i64>>,
    g: Seq<Seq<i64>>,
    fns: Seq<Vector3D>,
    vns: Seq<Vector3D>,
    src: Seq<(Vector3D, Color)>,
    amb: Color,
    conf: LightingConfig,
    shading: ShadingMethod,
    k: int,
) -> (Seq<Seq<Color>>, Seq<Seq<i64>>)
    decreases k,
{
    if k <= 0 {
        (pix, dep)
    } else {
        let prev = polys_fold(pix, dep, g, fns, vns, src, amb, conf, shading, k - 1);
        tri_step(prev.0, prev.1, g, fns, vns, src, amb, conf, shading, k - 1)
    }
}

/// The integer distance between two nearby points.
fn idist(p: (i64, i64, i64), q: (i64, i64, i64)) -> (r: i64)
    requires
        -0x4000_0000 <= p.0 <= 0x4000_0000,
        -0x4000_0000 <= p.1 <= 0x4000_0000,
        -0x4000_0000 <= p.2 <= 0x4000_0000,
        -0x4000_0000 <= q.0 <= 0x4000_0000,
        -0x4000_0000 <= q.1 <= 0x4000_0000,
        -0x4000_0000 <= q.2 <= 0x4000_0000,
    ensures
        r == idist_spec(p, q),
        0 <= r <= 0xFFFF_FFFFi64,
{
    let dx = (q.0 - p.0) as i128;
    let dy = (q.1 - p.1) as i128;
    let dz = (q.2 - p.2) as i128;
    proof {
        assert(0 <= dx * dx <= 0x4000_0000_0000_0000int) by (nonlinear_arith)
            requires
                -0x8000_0000 <= dx as int <= 0x8000_0000,
        ;
        assert(0 <= dy * dy <= 0x4000_0000_0000_0000int) by (nonlinear_arith)
            requires
                -0x8000_0000 <= dy as int <= 0x8000_0000,
        ;
        assert(0 <= dz * dz <= 0x4000_0000_0000_0000int) by (nonlinear_arith)
            requires
                -0x8000_0000 <= dz as int <= 0x8000_0000,
        ;
    }
    let sq = dx * dx + dy * dy + dz * dz;
    let m = crate::fixed::isqrt128(sq);
    proof {
        assert(m as int <= 0xFFFF_FFFFint) by (nonlinear_arith)
            requires
                0 <= m as int,
                (m as int) * (m as int) <= sq as int,
                sq as int <= 0xC000_0000_0000_0000int,
        ;
    }
    m as i64
}

/// Two weighted directions blended into one, exactly as
/// `Vector3D::interpolate` folds them.
fn interp_two(a: Vector3D, wa: i64, b: Vector3D, wb: i64) -> (v: Vector3D)
    requires
        vec_bounded(a, 0x10_0000int),
        vec_bounded(b, 0x10_0000int),
        0 <= wa <= 0xFFFF_FFFFi64,
        0 <= wb <= 0xFFFF_FFFFi64,
    ensures
        v == interp2_spec(a, wa, b, wb),
        vec_bounded(v, FP_ONE as int),
{
    let mut pairs: Vec<(Vector3D, i64)> = Vec::new();
    pairs.push((a, wa));
    pairs.push((b, wb));
    let v = Vector3D::interpolate(&pairs);
    proof {
        assert(pairs@.len() == 2);
        assert(pairs@.drop_last() =~= seq![(a, wa)]);
        assert(pairs@.drop_last().drop_last() =~= Seq::<(Vector3D, i64)>::empty());
        reveal_with_fuel(crate::vector3d::wsum_x, 3);
        reveal_with_fuel(crate::vector3d::wsum_y, 3);
        reveal_with_fuel(crate::vector3d::wsum_z, 3);
        assert(crate::vector3d::wsum_x(pairs@) == a.x * wa + b.x * wb);
        assert(crate::vector3d::wsum_y(pairs@) == a.y * wa + b.y * wb);
        assert(crate::vector3d::wsum_z(pairs@) == a.z * wa + b.z * wb);
    }
    v
}

/// Stable three-way sort by `y`.
fn sort3(v0: Vertex, v1: Vertex, v2: Vertex) -> (r: (Vertex, Vertex, Vertex))
    ensures
        r == sort3_spec(v0, v1, v2),
        r.0.y <= r.1.y <= r.2.y,
        r.0 == v0 || r.0 == v1 || r.0 == v2,
        r.1 == v0 || r.1 == v1 || r.1 == v2,
        r.2 == v0 || r.2 == v1 || r.2 == v2,
{
    let (a1, b1) = if v1.y < v0.y {
        (v1, v0)
    } else {
        (v0, v1)
    };
    let (b2, c2) = if v2.y < b1.y {
        (v2, b1)
    } else {
        (b1, v2)
    };
    let (a3, b3) = if b2.y < a1.y {
        (b2, a1)
    } else {
        (a1, b2)
    };
    (a3, b3, c2)
}

/// Linear interpolation from `a` toward `b`, `k` of `steps` of the way,
/// truncating.
fn interp_coord(a: i64, b: i64, k: i64, steps: i64) -> (r: i64)
    requires
        -0x400_0000 <= a <= 0x400_0000,
        -0x400_0000 <= b <= 0x400_0000,
        0 <= k < steps,
        steps <= 0x800_0001,
    ensures
        r == interp_spec(a, b, k as int, steps as int),
        -RASTER_BOUND <= r <= RASTER_BOUND,
{
    proof {
        assert(-(0x800_0000int) * (k as int) <= ((b - a) as int) * (k as int) <= 0x800_0000int * (
        k as int)) by (nonlinear_arith)
            requires
                -0x800_0000 <= (b - a) as int <= 0x800_0000,
                0 <= k as int,
        ;
        vstd::arithmetic::mul::lemma_mul_inequality(k as int, steps as int, 0x800_0000int);
        assert((steps as int) * 0x800_0000int == 0x800_0000int * (steps as int))
            by (nonlinear_arith);
        crate::fixed::lemma_div_fp_bound(
            ((b - a) as int) * (k as int),
            steps as int,
            0x800_0000int,
        );
    }
    a + div64((b - a) * k, steps)
}

/// The accumulated depth along a scanline is `k` depth steps from the
/// start, and stays within one depth span of it.
proof fn lemma_scan_z_total(zl: i64, dz: int, n: int, k: int)
    requires
        1 <= n,
        0 <= k <= n,
        -0x2000_0000 <= dz <= 0x2000_0000,
    ensures
        scan_z(zl, div_fp(dz, n), k) == zl + k * div_fp(dz, n),
        -0x2000_0000 <= k * div_fp(dz, n) <= 0x2000_0000,
    decreases k,
{
    let d = div_fp(dz, n);
    if k == 0 {
        assert(0int * d == 0) by (nonlinear_arith);
    } else {
        lemma_scan_z_total(zl, dz, n, k - 1);
        assert(k * d == (k - 1) * d + d) by (nonlinear_arith);
    }
    vstd::arithmetic::mul::lemma_mul_inequality(1int, n, 0x2000_0000int);
    assert(1int * 0x2000_0000int == 0x2000_0000int) by (nonlinear_arith);
    crate::fixed::lemma_div_fp_bound(dz, n, 0x2000_0000int);
    if d >= 0 {
        vstd::arithmetic::mul::lemma_mul_inequality(k, n, d);
        lemma_mul_div_le(dz, n);
    } else {
        vstd::arithmetic::mul::lemma_mul_inequality(k, n, -d);
        assert(k * d == -(k * (-d))) by (nonlinear_arith);
        assert(n * d == -(n * (-d))) by (nonlinear_arith);
        lemma_mul_div_le(dz, n);
    }
}

/// `n * div_fp(dz, n)` does not overshoot `dz` in magnitude.
proof fn lemma_mul_div_le(dz: int, n: int)
    requires
        1 <= n,
    ensures
        dz >= 0 ==> 0 <= n * div_fp(dz, n) <= dz,
        dz < 0 ==> dz <= n * div_fp(dz, n) <= 0,
{
    if dz >= 0 {
        vstd::arithmetic::div_mod::lemma_fundamental_div_mod(dz, n);
        vstd::arithmetic::div_mod::lemma_mod_bound(dz, n);
        vstd::arithmetic::div_mod::lemma_div_pos_is_pos(dz, n);
        assert(n * (dz / n) <= dz);
        assert(0 <= dz / n ==> 0 <= n * (dz / n)) by (nonlinear_arith)
            requires
                1 <= n,
        ;
    } else {
        vstd::arithmetic::div_mod::lemma_fundamental_div_mod(-dz, n);
        vstd::arithmetic::div_mod::lemma_mod_bound(-dz, n);
        vstd::arithmetic::div_mod::lemma_div_pos_is_pos(-dz, n);
        assert(n * ((-dz) / n) <= -dz);
        assert(0 <= (-dz) / n ==> 0 <= n * ((-dz) / n)) by (nonlinear_arith)
            requires
                1 <= n,
        ;
        assert(n * div_fp(dz, n) == -(n * ((-dz) / n))) by (nonlinear_arith)
            requires
                div_fp(dz, n) == -((-dz) / n),
        ;
    }
}

impl Image {
    /// Fill one Phong-shaded scanline at row `y` between the two edge
    /// positions, interpolating the surface normal pixel by pixel between
    /// the endpoint normals (weighted by the distance to the opposite
    /// endpoint) and lighting each pixel before its depth-tested write.
    fn scan_line_phong(
        &mut self,
        y: i64,
        xl: i64,
        zl: i64,
        ln: Vector3D,
        xr: i64,
        zr: i64,
        rn: Vector3D,
        conf: &LightingConfig,
    )
        requires
            old(self).wf(),
            old(self).lighter_view().wf(),
            crate::lighter::config_wf(*conf),
            xl <= xr,
            -RASTER_BOUND <= xl <= RASTER_BOUND,
            -RASTER_BOUND <= xr <= RASTER_BOUND,
            -RASTER_BOUND <= zl <= RASTER_BOUND,
            -RASTER_BOUND <= zr <= RASTER_BOUND,
            -RASTER_BOUND <= y <= RASTER_BOUND,
            vec_bounded(ln, FP_ONE as int),
            vec_bounded(rn, FP_ONE as int),
        ensures
            final(self).wf(),
            final(self).spec_width() == old(self).spec_width(),
            final(self).spec_height() == old(self).spec_height(),
            final(self).spec_flip() == old(self).spec_flip(),
            final(self).lighter_view() == old(self).lighter_view(),
            (final(self).pixels(), final(self).depths()) == scan_phong_fold(
                old(self).pixels(),
                old(self).depths(),
                old(self).lighter_view().sources_seq(),
                old(self).lighter_view().ambient(),
                *conf,
                y,
                xl,
                zl,
                ln,
                xr,
                zr,
                rn,
                div_fp(zr - zl, xr - xl + 1),
                xr - xl + 1,
            ),
    {
        let n = xr - xl + 1;
        let dzpp = div64(zr - zl, n);
        let mut x = xl;
        let mut z = zl;
        let steps = n as usize;
        proof {
            vstd::arithmetic::mul::lemma_mul_inequality(1int, n as int, 0x2000_0000int);
            assert(1int * 0x2000_0000int == 0x2000_0000int) by (nonlinear_arith);
            crate::fixed::lemma_div_fp_bound((zr - zl) as int, n as int, 0x2000_0000int);
        }
        for k in 0..steps
            invariant
                self.wf(),
                self.spec_width() == old(self).spec_width(),
                self.spec_height() == old(self).spec_height(),
                self.spec_flip() == old(self).spec_flip(),
                self.lighter_view() == old(self).lighter_view(),
                old(self).lighter_view().wf(),
                crate::lighter::config_wf(*conf),
                xl <= xr,
                -RASTER_BOUND <= xl <= RASTER_BOUND,
                -RASTER_BOUND <= xr <= RASTER_BOUND,
                -RASTER_BOUND <= zl <= RASTER_BOUND,
                -RASTER_BOUND <= zr <= RASTER_BOUND,
                -RASTER_BOUND <= y <= RASTER_BOUND,
                vec_bounded(ln, FP_ONE as int),
                vec_bounded(rn, FP_ONE as int),
                n == xr - xl + 1,
                steps == n,
                dzpp as int == div_fp((zr - zl) as int, n as int),
                -0x2000_0000 <= dzpp <= 0x2000_0000,
                x as int == xl + k,
                z as int == scan_z(zl, dzpp as int, k as int),
                -0x4000_0000 <= z <= 0x4000_0000,
                (self.pixels(), self.depths()) == scan_phong_fold(
                    old(self).pixels(),
                    old(self).depths(),
                    old(self).lighter_view().sources_seq(),
                    old(self).lighter_view().ambient(),
                    *conf,
                    y,
                    xl,
                    zl,
                    ln,
                    xr,
                    zr,
                    rn,
                    dzpp as int,
                    k as int,
                ),
        {
            let wl = idist((x, y, z), (xr, y, zr));
            let wr = idist((x, y, z), (xl, y, zl));
            let nrm = interp_two(ln, wl, rn, wr);
            let col = self.lighter.calculate(&nrm, conf);
            proof {
                assert(nrm == scan_normal(y, xl, zl, ln, xr, zr, rn, dzpp as int, k as int));
            }
            self.plot(x, y, z, col);
            proof {
                lemma_scan_z_total(zl, (zr - zl) as int, n as int, k + 1);
                lemma_scan_z_total(zl, (zr - zl) as int, n as int, k as int);
            }
            x = x + 1;
            z = z + dzpp;
        }
    }

    /// Rasterize every triangle of a polygon list: cull back faces by the
    /// sign of the face normal's `z`, light the face once, supersample the
    /// vertices, and fill scanlines bottom to top between the long edge
    /// and the split short edge — flat as depth-tested lines, Phong pixel
    /// by pixel at smoothed normals.
    pub fn draw_polygons(
        &mut self,
        matrix: &crate::polygon_matrix::PolygonMatrix,
        light_conf: &LightingConfig,
        shading: ShadingMethod,
    )
        requires
            old(self).wf(),
            matrix.wf(),
            crate::lighter::config_wf(*light_conf),
            old(self).lighter_view().wf(),
        ensures
            final(self).wf(),
            final(self).spec_width() == old(self).spec_width(),
            final(self).spec_height() == old(self).spec_height(),
            final(self).spec_flip() == old(self).spec_flip(),
            final(self).lighter_view() == old(self).lighter_view(),
            (final(self).pixels(), final(self).depths()) == polys_fold(
                old(self).pixels(),
                old(self).depths(),
                matrix.grid_view(),
                matrix.normals_seq(),
                matrix.vertex_normals_seq(),
                old(self).lighter_view().sources_seq(),
                old(self).lighter_view().ambient(),
                *light_conf,
                shading,
                matrix.tri_count() as int,
            ),
    {
        proof {
            matrix.lemma_wf();
        }
        let count = matrix.get_poly_count();
        for t in 0..count
            invariant
                self.wf(),
                matrix.wf(),
                self.spec_width() == old(self).spec_width(),
                self.spec_height() == old(self).spec_height(),
                self.spec_flip() == old(self).spec_flip(),
                self.lighter_view() == old(self).lighter_view(),
                old(self).lighter_view().wf(),
                crate::lighter::config_wf(*light_conf),
                count == matrix.tri_count(),
                3 * (count as int) == matrix.point_count(),
                matrix.point_count() <= usize::MAX,
                (self.pixels(), self.depths()) == polys_fold(
                    old(self).pixels(),
                    old(self).depths(),
                    matrix.grid_view(),
                    matrix.normals_seq(),
                    matrix.vertex_normals_seq(),
                    old(self).lighter_view().sources_seq(),
                    old(self).lighter_view().ambient(),
                    *light_conf,
                    shading,
                    t as int,
                ),
        {
            let fnormal = matrix.normal(t);
            if fnormal.z >= 0 {
                self.draw_one_triangle(matrix, t, fnormal, light_conf, shading);
            }
        }
    }

    /// Rasterize one non-culled triangle.
    fn draw_one_triangle(
        &mut self,
        matrix: &crate::polygon_matrix::PolygonMatrix,
        t: usize,
        fnormal: Vector3D,
        light_conf: &LightingConfig,
        shading: ShadingMethod,
    )
        requires
            old(self).wf(),
            matrix.wf(),
            crate::lighter::config_wf(*light_conf),
            old(self).lighter_view().wf(),
            t < matrix.tri_count(),
            fnormal == matrix.normals_seq()[t as int],
            vec_bounded(fnormal, crate::polygon_matrix::NORMAL_BOUND as int),
            fnormal.z >= 0,
        ensures
            final(self).wf(),
            final(self).spec_width() == old(self).spec_width(),
            final(self).spec_height() == old(self).spec_height(),
            final(self).spec_flip() == old(self).spec_flip(),
            final(self).lighter_view() == old(self).lighter_view(),
            (final(self).pixels(), final(self).depths()) == tri_step(
                old(self).pixels(),
                old(self).depths(),
                matrix.grid_view(),
                matrix.normals_seq(),
                matrix.vertex_normals_seq(),
                old(self).lighter_view().sources_seq(),
                old(self).lighter_view().ambient(),
                *light_conf,
                shading,
                t as int,
            ),
    {
        proof {
            matrix.lemma_wf();
        }
        let col = self.lighter.calculate(&fnormal, light_conf);
        let p0 = matrix.point(3 * t);
        let p1 = matrix.point(3 * t + 1);
        let p2 = matrix.point(3 * t + 2);
        let v0 = Vertex {
            x: 4 * p0.0,
            y: 4 * p0.1,
            z: 4 * p0.2,
            n: matrix.vertex_normal(3 * t),
        };
        let v1 = Vertex {
            x: 4 * p1.0,
            y: 4 * p1.1,
            z: 4 * p1.2,
            n: matrix.vertex_normal(3 * t + 1),
        };
        let v2 = Vertex {
            x: 4 * p2.0,
            y: 4 * p2.1,
            z: 4 * p2.2,
            n: matrix.vertex_normal(3 * t + 2),
        };
        let (s0, s1, s2) = sort3(v0, v1, v2);
        let ghost src = old(self).lighter_view().sources_seq();
        let ghost amb = old(self).lighter_view().ambient();
        let ylen = s2.y - s0.y + 1;
        let scans = ylen as usize;
        for k in 0..scans
            invariant
                self.wf(),
                self.spec_width() == old(self).spec_width(),
                self.spec_height() == old(self).spec_height(),
                self.spec_flip() == old(self).spec_flip(),
                self.lighter_view() == old(self).lighter_view(),
                old(self).lighter_view().wf(),
                crate::lighter::config_wf(*light_conf),
                src == old(self).lighter_view().sources_seq(),
                amb == old(self).lighter_view().ambient(),
                col == crate::lighter::phong(src, amb, fnormal, *light_conf),
                s0.y <= s1.y <= s2.y,
                vec_bounded(s0.n, FP_ONE as int),
                vec_bounded(s1.n, FP_ONE as int),
                vec_bounded(s2.n, FP_ONE as int),
                -0x400_0000 <= s0.x <= 0x400_0000,
                -0x400_0000 <= s0.y <= 0x400_0000,
                -0x400_0000 <= s0.z <= 0x400_0000,
                -0x400_0000 <= s1.x <= 0x400_0000,
                -0x400_0000 <= s1.y <= 0x400_0000,
                -0x400_0000 <= s1.z <= 0x400_0000,
                -0x400_0000 <= s2.x <= 0x400_0000,
                -0x400_0000 <= s2.y <= 0x400_0000,
                -0x400_0000 <= s2.z <= 0x400_0000,
                ylen == s2.y - s0.y + 1,
                scans == ylen,
                (self.pixels(), self.depths()) == tri_scan_fold(
                    old(self).pixels(),
                    old(self).depths(),
                    src,
                    amb,
                    *light_conf,
                    shading,
                    col,
                    s0,
                    s1,
                    s2,
                    k as int,
                ),
        {
            let y = s0.y + k as i64;
            let long = s2.y - s0.y + 1;
            let xa = interp_coord(s0.x, s2.x, k as i64, long);
            let za = interp_coord(s0.z, s2.z, k as i64, long);
            let (xb, zb) = if y < s1.y {
                (
                    interp_coord(s0.x, s1.x, k as i64, s1.y - s0.y + 1),
                    interp_coord(s0.z, s1.z, k as i64, s1.y - s0.y + 1),
                )
            } else {
                (
                    interp_coord(s1.x, s2.x, y - s1.y, s2.y - s1.y + 1),
                    interp_coord(s1.z, s2.z, y - s1.y, s2.y - s1.y + 1),
                )
            };
            match shading {
                ShadingMethod::Flat => {
                    self.draw_line((xa as i32, y as i32, za), (xb as i32, y as i32, zb), col);
                },
                ShadingMethod::Phong => {
                    let wa2 = idist((xa, y, za), (s2.x, s2.y, s2.z));
                    let wa0 = idist((xa, y, za), (s0.x, s0.y, s0.z));
                    let na = interp_two(s0.n, wa2, s2.n, wa0);
                    let nb = if y < s1.y {
                        let wb1 = idist((xb, y, zb), (s1.x, s1.y, s1.z));
                        let wb0 = idist((xb, y, zb), (s0.x, s0.y, s0.z));
                        interp_two(s0.n, wb1, s1.n, wb0)
                    } else {
                        let wb2 = idist((xb, y, zb), (s2.x, s2.y, s2.z));
                        let wb1 = idist((xb, y, zb), (s1.x, s1.y, s1.z));
                        interp_two(s1.n, wb2, s2.n, wb1)
                    };
                    if xa > xb {
                        self.scan_line_phong(y, xb, zb, nb, xa, za, na, light_conf);
                    } else {
                        self.scan_line_phong(y, xa, za, na, xb, zb, nb, light_conf);
                    }
                },
            }
        }
    }
}

/// Per-step bound arithmetic for the drawing loop.
proof fn lemma_step_products(k: int, cb: int)
    requires
        0 <= k,
        0 < cb,
    ensures
        (k + 1) * (8 * cb) == k * (8 * cb) + 8 * cb,
        (k + 1) * (2 * cb) == k * (2 * cb) + 2 * cb,
{
    assert((k + 1) * (8 * cb) == k * (8 * cb) + 8 * cb) by (nonlinear_arith);
    assert((k + 1) * (2 * cb) == k * (2 * cb) + 2 * cb) by (nonlinear_arith);
}

/// Row-major index arithmetic: `r * w + c` stays below `h * w` and decodes
/// back to `(r, c)`.
proof fn lemma_row_major_bound(r: int, c: int, w: int, h: int)
    requires
        0 <= r < h,
        0 <= c < w,
        w * h <= usize::MAX,
    ensures
        0 <= r * w + c < w * h,
        r * w + c <= usize::MAX,
{
    assert(r * w + c < w * h) by (nonlinear_arith)
        requires
            0 <= r < h,
            0 <= c < w,
    ;
}

/// The decoding of a freshly pushed row-major index.
proof fn lemma_row_major_index(r: int, c: int, w: int)
    requires
        0 <= r,
        0 <= c < w,
    ensures
        (r * w + c) / w == r,
        (r * w + c) % w == c,
        r * w + c + 1 == (if c + 1 == w {
            (r + 1) * w
        } else {
            r * w + (c + 1)
        }),
{
    assert((r * w + c) / w == r && (r * w + c) % w == c) by (nonlinear_arith)
        requires
            0 <= r,
            0 <= c < w,
    ;
    assert((r + 1) * w == r * w + w) by (nonlinear_arith);
}

proof fn lemma_mul_full(h: int, w: int)
    requires
        0 <= h,
        0 <= w,
    ensures
        h * w == w * h,
{
    assert(h * w == w * h) by (nonlinear_arith);
}

/// One depth-tested write keeps the buffer shapes, never lowers the depth
/// at any cell, and changes a cell's color only to its own paint, together
/// with a strict depth increase.
pub proof fn lemma_plot_monotone(
    pix: Seq<Seq<Color>>,
    dep: Seq<Seq<i64>>,
    x: int,
    y: int,
    z: i64,
    c: Color,
    qx: int,
    qy: int,
)
    requires
        pix.len() == dep.len(),
        forall|r: int| 0 <= r < dep.len() ==> (#[trigger] pix[r]).len() == dep[r].len(),
        0 <= qy < dep.len(),
        0 <= qx < dep[qy].len(),
    ensures
        ({
            let (p2, d2) = plot_spec(pix, dep, x, y, z, c);
            &&& p2.len() == pix.len()
            &&& d2.len() == dep.len()
            &&& forall|r: int|
                0 <= r < dep.len() ==> (#[trigger] p2[r]).len() == pix[r].len() && d2[r].len()
                    == dep[r].len()
            &&& d2[qy][qx] >= dep[qy][qx]
            &&& (p2[qy][qx] != pix[qy][qx] ==> p2[qy][qx] == c && d2[qy][qx] > dep[qy][qx])
        }),
{
}

/// A whole line walk keeps the buffer shapes, never lowers any depth, and
/// changes a cell's color only to its own paint, together with a strict
/// depth increase.
pub proof fn lemma_line_fold_monotone(
    pix: Seq<Seq<Color>>,
    dep: Seq<Seq<i64>>,
    p: LineParams,
    c: Color,
    k: int,
    qx: int,
    qy: int,
)
    requires
        pix.len() == dep.len(),
        forall|r: int| 0 <= r < dep.len() ==> (#[trigger] pix[r]).len() == dep[r].len(),
        0 <= qy < dep.len(),
        0 <= qx < dep[qy].len(),
    ensures
        ({
            let (p2, d2) = line_fold(pix, dep, p, c, k);
            &&& p2.len() == pix.len()
            &&& d2.len() == dep.len()
            &&& forall|r: int|
                0 <= r < dep.len() ==> (#[trigger] p2[r]).len() == pix[r].len() && d2[r].len()
                    == dep[r].len()
            &&& d2[qy][qx] >= dep[qy][qx]
            &&& (p2[qy][qx] != pix[qy][qx] ==> p2[qy][qx] == c && d2[qy][qx] > dep[qy][qx])
        }),
    decreases k,
{
    if k > 0 {
        lemma_line_fold_monotone(pix, dep, p, c, k - 1, qx, qy);
        let (p1, d1) = line_fold(pix, dep, p, c, k - 1);
        lemma_plot_monotone(p1, d1, walk_x(p, k - 1), walk_y(p, k - 1), walk_z(p, k - 1) as i64, c, qx, qy);
    }
}

/// Drawing every edge of an edge list keeps the buffer shapes, never
/// lowers any depth, and changes a cell's color only to its own paint,
/// together with a strict depth increase.
pub proof fn lemma_draw_edges_monotone(
    pix: Seq<Seq<Color>>,
    dep: Seq<Seq<i64>>,
    em: Seq<Seq<i64>>,
    c: Color,
    k: int,
    qx: int,
    qy: int,
)
    requires
        pix.len() == dep.len(),
        forall|r: int| 0 <= r < dep.len() ==> (#[trigger] pix[r]).len() == dep[r].len(),
        0 <= qy < dep.len(),
        0 <= qx < dep[qy].len(),
    ensures
        ({
            let (p2, d2) = draw_edges_fold(pix, dep, em, c, k);
            &&& p2.len() == pix.len()
            &&& d2.len() == dep.len()
            &&& forall|r: int|
                0 <= r < dep.len() ==> (#[trigger] p2[r]).len() == pix[r].len() && d2[r].len()
                    == dep[r].len()
            &&& d2[qy][qx] >= dep[qy][qx]
            &&& (p2[qy][qx] != pix[qy][qx] ==> p2[qy][qx] == c && d2[qy][qx] > dep[qy][qx])
        }),
    decreases k,
{
    if k > 0 {
        lemma_draw_edges_monotone(pix, dep, em, c, k - 1, qx, qy);
        let (p1, d1) = draw_edges_fold(pix, dep, em, c, k - 1);
        let e0 = crate::edge_matrix::col3(em, 2 * (k - 1));
        let e1 = crate::edge_matrix::col3(em, 2 * (k - 1) + 1);
        let lp = line_params(
            (e0.0 as i32, e0.1 as i32, 0i64),
            (e1.0 as i32, e1.1 as i32, 0i64),
        );
        lemma_line_fold_monotone(p1, d1, lp, c, lp.n, qx, qy);
    }
}

/// A Phong scanline keeps the buffer shapes and never lowers any depth;
/// a cell that changed color was written with a strict depth increase.
pub proof fn lemma_scan_phong_monotone(
    pix: Seq<Seq<Color>>,
    dep: Seq<Seq<i64>>,
    src: Seq<(Vector3D, Color)>,
    amb: Color,
    conf: LightingConfig,
    y: i64,
    xl: i64,
    zl: i64,
    ln: Vector3D,
    xr: i64,
    zr: i64,
    rn: Vector3D,
    dzpp: int,
    k: int,
    qx: int,
    qy: int,
)
    requires
        pix.len() == dep.len(),
        forall|r: int| 0 <= r < dep.len() ==> (#[trigger] pix[r]).len() == dep[r].len(),
        0 <= qy < dep.len(),
        0 <= qx < dep[qy].len(),
    ensures
        ({
            let (p2, d2) = scan_phong_fold(pix, dep, src, amb, conf, y, xl, zl, ln, xr, zr, rn, dzpp, k);
            &&& p2.len() == pix.len()
            &&& d2.len() == dep.len()
            &&& forall|r: int|
                0 <= r < dep.len() ==> (#[trigger] p2[r]).len() == pix[r].len() && d2[r].len()
                    == dep[r].len()
            &&& d2[qy][qx] >= dep[qy][qx]
            &&& (p2[qy][qx] != pix[qy][qx] ==> d2[qy][qx] > dep[qy][qx])
        }),
    decreases k,
{
    if k > 0 {
        lemma_scan_phong_monotone(
            pix, dep, src, amb, conf, y, xl, zl, ln, xr, zr, rn, dzpp, k - 1, qx, qy,
        );
        let (p1, d1) = scan_phong_fold(pix, dep, src, amb, conf, y, xl, zl, ln, xr, zr, rn, dzpp, k - 1);
        let nrm = scan_normal(y, xl, zl, ln, xr, zr, rn, dzpp, k - 1);
        let col = crate::lighter::phong(src, amb, nrm, conf);
        lemma_plot_monotone(p1, d1, xl + k - 1, y as int, scan_z(zl, dzpp, k - 1) as i64, col, qx, qy);
    }
}

/// One triangle's scanlines keep the buffer shapes and never lower any
/// depth; a cell that changed color was written with a strict depth
/// increase.
pub proof fn lemma_tri_scan_monotone(
    pix: Seq<Seq<Color>>,
    dep: Seq<Seq<i64>>,
    src: Seq<(Vector3D, Color)>,
    amb: Color,
    conf: LightingConfig,
    shading: ShadingMethod,
    col: Color,
    s0: Vertex,
    s1: Vertex,
    s2: Vertex,
    k: int,
    qx: int,
    qy: int,
)
    requires
        pix.len() == dep.len(),
        forall|r: int| 0 <= r < dep.len() ==> (#[trigger] pix[r]).len() == dep[r].len(),
        0 <= qy < dep.len(),
        0 <= qx < dep[qy].len(),
    ensures
        ({
            let (p2, d2) = tri_scan_fold(pix, dep, src, amb, conf, shading, col, s0, s1, s2, k);
            &&& p2.len() == pix.len()
            &&& d2.len() == dep.len()
            &&& forall|r: int|
                0 <= r < dep.len() ==> (#[trigger] p2[r]).len() == pix[r].len() && d2[r].len()
                    == dep[r].len()
            &&& d2[qy][qx] >= dep[qy][qx]
            &&& (p2[qy][qx] != pix[qy][qx] ==> d2[qy][qx] > dep[qy][qx])
        }),
    decreases k,
{
    if k > 0 {
        lemma_tri_scan_monotone(pix, dep, src, amb, conf, shading, col, s0, s1, s2, k - 1, qx, qy);
        let (p1, d1) = tri_scan_fold(pix, dep, src, amb, conf, shading, col, s0, s1, s2, k - 1);
        let kk = k - 1;
        let y = s0.y + kk;
        let long = s2.y - s0.y + 1;
        let xa = interp_spec(s0.x, s2.x, kk, long);
        let za = interp_spec(s0.z, s2.z, kk, long);
        let swapped = y >= s1.y;
        let xb = if !swapped {
            interp_spec(s0.x, s1.x, kk, s1.y - s0.y + 1)
        } else {
            interp_spec(s1.x, s2.x, y - s1.y, s2.y - s1.y + 1)
        };
        let zb = if !swapped {
            interp_spec(s0.z, s1.z, kk, s1.y - s0.y + 1)
        } else {
            interp_spec(s1.z, s2.z, y - s1.y, s2.y - s1.y + 1)
        };
        match shading {
            ShadingMethod::Flat => {
                let lp = line_params(
                    (xa as i32, y as i32, za as i64),
                    (xb as i32, y as i32, zb as i64),
                );
                lemma_line_fold_monotone(p1, d1, lp, col, lp.n, qx, qy);
            },
            ShadingMethod::Phong => {
                let na = interp2_spec(
                    s0.n,
                    idist_spec((xa as i64, y as i64, za as i64), (s2.x, s2.y, s2.z)) as i64,
                    s2.n,
                    idist_spec((xa as i64, y as i64, za as i64), (s0.x, s0.y, s0.z)) as i64,
                );
                let nb = if !swapped {
                    interp2_spec(
                        s0.n,
                        idist_spec((xb as i64, y as i64, zb as i64), (s1.x, s1.y, s1.z)) as i64,
                        s1.n,
                        idist_spec((xb as i64, y as i64, zb as i64), (s0.x, s0.y, s0.z)) as i64,
                    )
                } else {
                    interp2_spec(
                        s1.n,
                        idist_spec((xb as i64, y as i64, zb as i64), (s2.x, s2.y, s2.z)) as i64,
                        s2.n,
                        idist_spec((xb as i64, y as i64, zb as i64), (s1.x, s1.y, s1.z)) as i64,
                    )
                };
                let (xi, zi, ni, xj, zj, nj) = if xa as i64 > xb as i64 {
                    (xb as i64, zb as i64, nb, xa as i64, za as i64, na)
                } else {
                    (xa as i64, za as i64, na, xb as i64, zb as i64, nb)
                };
                let dzpp = div_fp(zj - zi, xj - xi + 1);
                lemma_scan_phong_monotone(
                    p1,
                    d1,
                    src,
                    amb,
                    conf,
                    y as i64,
                    xi,
                    zi,
                    ni,
                    xj,
                    zj,
                    nj,
                    dzpp,
                    xj - xi + 1,
                    qx,
                    qy,
                );
            },
        }
    }
}

/// Depth-buffer monotonicity over whole primitives: rasterizing any prefix
/// of a polygon list never lowers a stored depth, and any pixel whose
/// color changed was painted by a write that strictly raised its depth —
/// so of two overlapping primitives the closer one ends up visible, in
/// either drawing order.
pub proof fn lemma_polys_fold_monotone(
    pix: Seq<Seq<Color>>,
    dep: Seq<Seq<i64>>,
    g: Seq<Seq<i64>>,
    fns: Seq<Vector3D>,
    vns: Seq<Vector3D>,
    src: Seq<(Vector3D, Color)>,
    amb: Color,
    conf: LightingConfig,
    shading: ShadingMethod,
    k: int,
    qx: int,
    qy: int,
)
    requires
        pix.len() == dep.len(),
        forall|r: int| 0 <= r < dep.len() ==> (#[trigger] pix[r]).len() == dep[r].len(),
        0 <= qy < dep.len(),
        0 <= qx < dep[qy].len(),
    ensures
        ({
            let (p2, d2) = polys_fold(pix, dep, g, fns, vns, src, amb, conf, shading, k);
            &&& p2.len() == pix.len()
            &&& d2.len() == dep.len()
            &&& forall|r: int|
                0 <= r < dep.len() ==> (#[trigger] p2[r]).len() == pix[r].len() && d2[r].len()
                    == dep[r].len()
            &&& d2[qy][qx] >= dep[qy][qx]
            &&& (p2[qy][qx] != pix[qy][qx] ==> d2[qy][qx] > dep[qy][qx])
        }),
    decreases k,
{
    if k > 0 {
        lemma_polys_fold_monotone(pix, dep, g, fns, vns, src, amb, conf, shading, k - 1, qx, qy);
        let (p1, d1) = polys_fold(pix, dep, g, fns, vns, src, amb, conf, shading, k - 1);
        let t = k - 1;
        let n = fns[t];
        if n.z < 0 {
        } else {
            let col = crate::lighter::phong(src, amb, n, conf);
            let v0 = scaled_vertex(g, vns, 3 * t);
            let v1 = scaled_vertex(g, vns, 3 * t + 1);
            let v2 = scaled_vertex(g, vns, 3 * t + 2);
            let (s0, s1, s2) = sort3_spec(v0, v1, v2);
            lemma_tri_scan_monotone(
                p1,
                d1,
                src,
                amb,
                conf,
                shading,
                col,
                s0,
                s1,
                s2,
                s2.y - s0.y + 1,
                qx,
                qy,
            );
        }
    }
}

} // verus!
