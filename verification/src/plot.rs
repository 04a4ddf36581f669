//! Plottable matrices.
//!
//! Two matrix representations share one rendering contract through the
//! [`Plottable`] trait: [`OptMatrix`], where absence is an explicit marker
//! distinct from zero, and [`Matrix`], where absence is the numeric zero.
//! Both classify every cell as absent or a value (the [`Plottable::cells`]
//! view), but they measure their extrema differently: the optional matrix
//! over the present values only, the dense matrix over all cells together
//! with the implicit zero baseline.

use vstd::prelude::*;

use crate::arrays::dense_cells;
use crate::arrays::dense_clone;
use crate::arrays::dense_get;
use crate::arrays::dense_ncols;
use crate::arrays::dense_new;
use crate::arrays::dense_nrows;
use crate::arrays::dense_set;
use crate::arrays::opt_cells;
use crate::arrays::opt_new;
use crate::arrays::opt_set;
use crate::arrays::DenseArray;
use crate::arrays::OptArray;
use crate::imgbuf::img_pixels;
use crate::imgbuf::PixelBuffer;
use crate::rusty::grid_cols;
use crate::rusty::is_grid;
use crate::rusty::is_opt_extrema;
use crate::rusty::lemma_extrema_unique;
use crate::rusty::lemma_own_extrema_normalize;
use crate::rusty::lemma_scale_identity;
use crate::rusty::norm_fails;
use crate::rusty::present_at;
use crate::rusty::render;
use crate::rusty::rendered_image;
use crate::rusty::scaled_grid;
use crate::rusty::value_at;
use crate::types::Config;
use crate::types::RenderError;

verus! {

/// A matrix the pipeline can scale, measure and render: a capability
/// interface that classifies every cell as absent or a value, together with
/// the extrema rule of the concrete representation.
pub trait Plottable: Sized {
    /// The cells of the matrix, as the renderer classifies them: `None` for
    /// an absent cell, `Some(v)` for a value.
    spec fn cells(&self) -> Seq<Seq<Option<i32>>>;

    /// The matrix is rectangular with at least one row and one column.
    spec fn wf(&self) -> bool;

    /// `(mn, mx)` are the extrema this representation renders against.
    spec fn extrema_ok(&self, mn: int, mx: int) -> bool;

    /// Compute the extrema of the matrix.
    fn max_and_min(&self) -> (r: (i32, i32))
        ensures
            self.extrema_ok(r.0 as int, r.1 as int),
    ;

    /// Scale the matrix by the factor set in [`Config`], by nearest-neighbor
    /// replication; a factor of 0 is rejected.
    fn scale_matrix(&self, config: &Config) -> (r: Result<Self, RenderError>)
        requires
            self.wf(),
            self.cells().len() * config.scaling_factor <= usize::MAX,
            grid_cols(self.cells()) * config.scaling_factor <= usize::MAX,
            self.cells().len() * config.scaling_factor * (grid_cols(self.cells())
                * config.scaling_factor) <= isize::MAX,
        ensures
            config.scaling_factor == 0 ==> r === Err(RenderError::InvalidScalingFactor),
            config.scaling_factor >= 1 ==> (r matches Ok(s) && s.wf() && s.cells() == scaled_grid(
                self.cells(),
                config.scaling_factor as int,
            )),
    ;

    /// Render the matrix against its own extrema into a fresh pixel buffer,
    /// one pixel wider and taller than the matrix.
    fn plot(&self, config: &Config) -> (r: Result<PixelBuffer, RenderError>)
        requires
            self.wf(),
            self.cells().len() + 1 <= u32::MAX,
            grid_cols(self.cells()) + 1 <= u32::MAX,
            self.cells().len() * grid_cols(self.cells()) <= isize::MAX,
            4 * (grid_cols(self.cells()) + 1) * (self.cells().len() + 1) <= usize::MAX,
        ensures
            config.scaling_factor == 0 ==> r === Err(RenderError::InvalidScalingFactor),
            config.scaling_factor >= 1 ==> (r matches Ok(img) && forall|mn: int, mx: int|
                self.extrema_ok(mn, mx) ==> img_pixels(img) == rendered_image(
                    self.cells(),
                    *config,
                    mn,
                    mx,
                )),
    ;
}

/// A matrix of optional cells: absence is an explicit marker distinct from
/// zero, and the extrema range over the present values only.
#[derive(Debug)]
pub struct OptMatrix {
    pub matrix: OptArray,
}

impl Plottable for OptMatrix {
    open spec fn cells(&self) -> Seq<Seq<Option<i32>>> {
        opt_cells(self.matrix)
    }

    open spec fn wf(&self) -> bool {
        &&& is_grid(opt_cells(self.matrix))
        &&& opt_cells(self.matrix).len() >= 1
        &&& grid_cols(opt_cells(self.matrix)) >= 1
    }

    open spec fn extrema_ok(&self, mn: int, mx: int) -> bool {
        is_opt_extrema(opt_cells(self.matrix), mn, mx)
    }

    fn max_and_min(&self) -> (r: (i32, i32)) {
        crate::rusty::max_and_min(&self.matrix)
    }

    fn scale_matrix(&self, config: &Config) -> (r: Result<Self, RenderError>) {
        let ghost g = opt_cells(self.matrix);
        let ghost k = config.scaling_factor as int;
        match crate::rusty::scale_matrix(&self.matrix, config) {
            Ok(m) => {
                proof {
                    assert(g.len() * k >= 1 && grid_cols(g) * k >= 1) by (nonlinear_arith)
                        requires
                            g.len() >= 1,
                            grid_cols(g) >= 1,
                            k >= 1,
                    ;
                    assert(grid_cols(scaled_grid(g, k)) == grid_cols(g) * k);
                }
                Ok(OptMatrix { matrix: m })
            },
            Err(e) => Err(e),
        }
    }

    fn plot(&self, config: &Config) -> (r: Result<PixelBuffer, RenderError>) {
        let ghost g = opt_cells(self.matrix);
        let e = crate::rusty::max_and_min(&self.matrix);
        proof {
            lemma_own_extrema_normalize(g, *config, e.0 as int, e.1 as int);
        }
        let r = render(&self.matrix, config, e.0, e.1);
        proof {
            if config.scaling_factor >= 1 {
                assert forall|mn: int, mx: int| is_opt_extrema(g, mn, mx) implies img_pixels(
                    r->Ok_0,
                ) == rendered_image(g, *config, mn, mx) by {
                    lemma_extrema_unique(g, mn, mx, e.0 as int, e.1 as int);
                }
            }
        }
        r
    }
}

/// The number of columns of a dense grid: the length of its first row.
pub open spec fn dense_cols(d: Seq<Seq<i32>>) -> int {
    if d.len() == 0 {
        0
    } else {
        d[0].len() as int
    }
}

/// A rectangular dense grid: every row as long as the first.
pub open spec fn dense_is_grid(d: Seq<Seq<i32>>) -> bool {
    forall|i: int| 0 <= i < d.len() ==> #[trigger] d[i].len() == dense_cols(d)
}

/// The cell `(i, j)` lies in the dense grid.
pub open spec fn in_dense(d: Seq<Seq<i32>>, i: int, j: int) -> bool {
    0 <= i < d.len() && 0 <= j < d[i].len()
}

/// `(mn, mx)` are the extrema of a dense grid: unlike the optional case they
/// include the implicit zero baseline, so they bound zero together with every
/// cell of the grid.
pub open spec fn is_dense_extrema(d: Seq<Seq<i32>>, mn: int, mx: int) -> bool {
    &&& mn <= 0 <= mx
    &&& forall|i: int, j: int| #[trigger] in_dense(d, i, j) ==> mn <= d[i][j] <= mx
    &&& (mn == 0 || exists|i: int, j: int| #[trigger] in_dense(d, i, j) && d[i][j] == mn)
    &&& (mx == 0 || exists|i: int, j: int| #[trigger] in_dense(d, i, j) && d[i][j] == mx)
}

/// A dense grid as the renderer classifies it: every cell is present.
pub open spec fn opt_view(d: Seq<Seq<i32>>) -> Seq<Seq<Option<i32>>> {
    Seq::new(d.len(), |i: int| Seq::new(d[i].len(), |j: int| Some(d[i][j])))
}

/// The extrema of a dense grid pin each other down: two extrema pairs of one
/// grid are equal.
pub proof fn lemma_dense_extrema_unique(d: Seq<Seq<i32>>, a1: int, b1: int, a2: int, b2: int)
    requires
        is_dense_extrema(d, a1, b1),
        is_dense_extrema(d, a2, b2),
    ensures
        a1 == a2,
        b1 == b2,
{
    if a1 != 0 {
        let (i, j) = choose|i: int, j: int| #[trigger] in_dense(d, i, j) && d[i][j] == a1;
        assert(a2 <= d[i][j]);
    }
    if a2 != 0 {
        let (i, j) = choose|i: int, j: int| #[trigger] in_dense(d, i, j) && d[i][j] == a2;
        assert(a1 <= d[i][j]);
    }
    if b1 != 0 {
        let (i, j) = choose|i: int, j: int| #[trigger] in_dense(d, i, j) && d[i][j] == b1;
        assert(d[i][j] <= b2);
    }
    if b2 != 0 {
        let (i, j) = choose|i: int, j: int| #[trigger] in_dense(d, i, j) && d[i][j] == b2;
        assert(d[i][j] <= b1);
    }
}

/// Dense extrema taken from the grid itself bound every cell, so
/// normalization cannot fail against them.
pub proof fn lemma_dense_own_extrema_normalize(
    d: Seq<Seq<i32>>,
    cfg: Config,
    mn: int,
    mx: int,
)
    requires
        is_dense_extrema(d, mn, mx),
    ensures
        !norm_fails(opt_view(d), cfg, mn, mx),
{
    let c = opt_view(d);
    assert forall|i: int, j: int| #[trigger] present_at(c, i, j) implies !((value_at(c, i, j) > 0
        && mx == 0) || (value_at(c, i, j) < 0 && mn == 0)) by {
        assert(in_dense(d, i, j));
        assert(mn <= d[i][j] <= mx);
    }
}

/// Copy a dense matrix into an optional-cell matrix: every cell present.
fn to_opt(m: &DenseArray) -> (r: OptArray)
    requires
        dense_cells(*m).len() >= 1,
        dense_cols(dense_cells(*m)) >= 1,
        dense_cells(*m).len() * dense_cols(dense_cells(*m)) <= isize::MAX,
    ensures
        opt_cells(r) == opt_view(dense_cells(*m)),
{
    let ghost d = dense_cells(*m);
    let rows = dense_nrows(m);
    let cols = dense_ncols(m);
    proof {
        assert(d[0].len() == cols && d[0].len() == dense_cols(d));
    }
    assert(rows <= isize::MAX && cols <= isize::MAX) by (nonlinear_arith)
        requires
            rows >= 1,
            cols >= 1,
            rows * cols <= isize::MAX,
    ;
    let mut out = opt_new(rows, cols);
    let mut i: usize = 0;
    while i < rows
        invariant
            i <= rows,
            rows == d.len(),
            d == dense_cells(*m),
            forall|ii: int| 0 <= ii < d.len() ==> #[trigger] d[ii].len() == cols,
            opt_cells(out).len() == rows,
            forall|ii: int| 0 <= ii < rows ==> #[trigger] opt_cells(out)[ii].len() == cols,
            forall|ii: int, jj: int|
                0 <= ii < i && 0 <= jj < cols ==> #[trigger] opt_cells(out)[ii][jj] == Some(
                    d[ii][jj],
                ),
        decreases rows - i,
    {
        let mut j: usize = 0;
        while j < cols
            invariant
                i < rows,
                j <= cols,
                rows == d.len(),
                d == dense_cells(*m),
                forall|ii: int| 0 <= ii < d.len() ==> #[trigger] d[ii].len() == cols,
                opt_cells(out).len() == rows,
                forall|ii: int| 0 <= ii < rows ==> #[trigger] opt_cells(out)[ii].len() == cols,
                forall|ii: int, jj: int|
                    0 <= ii < i && 0 <= jj < cols ==> #[trigger] opt_cells(out)[ii][jj] == Some(
                        d[ii][jj],
                    ),
                forall|jj: int|
                    0 <= jj < j ==> #[trigger] opt_cells(out)[i as int][jj] == Some(
                        d[i as int][jj],
                    ),
            decreases cols - j,
        {
            let v = dense_get(m, i, j);
            opt_set(&mut out, i, j, Some(v));
            j = j + 1;
        }
        i = i + 1;
    }
    proof {
        assert forall|ii: int| 0 <= ii < rows implies #[trigger] opt_cells(out)[ii] =~= opt_view(
            d,
        )[ii] by {}
        assert(opt_cells(out) =~= opt_view(d));
    }
    out
}

/// A dense matrix: the numeric zero stands for absence, and the extrema range
/// over all cells together with the zero baseline.
#[derive(Debug)]
pub struct Matrix {
    pub matrix: DenseArray,
}

impl Plottable for Matrix {
    open spec fn cells(&self) -> Seq<Seq<Option<i32>>> {
        opt_view(dense_cells(self.matrix))
    }

    open spec fn wf(&self) -> bool {
        &&& dense_is_grid(dense_cells(self.matrix))
        &&& dense_cells(self.matrix).len() >= 1
        &&& dense_cols(dense_cells(self.matrix)) >= 1
    }

    open spec fn extrema_ok(&self, mn: int, mx: int) -> bool {
        is_dense_extrema(dense_cells(self.matrix), mn, mx)
    }

    fn max_and_min(&self) -> (r: (i32, i32)) {
        let ghost d = dense_cells(self.matrix);
        let rows = dense_nrows(&self.matrix);
        let cols = dense_ncols(&self.matrix);
        let mut mn: i32 = 0;
        let mut mx: i32 = 0;
        let mut i: usize = 0;
        while i < rows
            invariant
                i <= rows,
                rows == d.len(),
                d == dense_cells(self.matrix),
                mn <= 0 <= mx,
                forall|ii: int| 0 <= ii < d.len() ==> #[trigger] d[ii].len() == cols,
                forall|ii: int, jj: int|
                    ii < i && #[trigger] in_dense(d, ii, jj) ==> mn <= d[ii][jj] <= mx,
                mn == 0 || (exists|ii: int, jj: int|
                    ii < i && #[trigger] in_dense(d, ii, jj) && d[ii][jj] == mn),
                mx == 0 || (exists|ii: int, jj: int|
                    ii < i && #[trigger] in_dense(d, ii, jj) && d[ii][jj] == mx),
            decreases rows - i,
        {
            let mut j: usize = 0;
            while j < cols
                invariant
                    i < rows,
                    j <= cols,
                    rows == d.len(),
                    d == dense_cells(self.matrix),
                    mn <= 0 <= mx,
                    forall|ii: int| 0 <= ii < d.len() ==> #[trigger] d[ii].len() == cols,
                    forall|ii: int, jj: int|
                        (ii < i || (ii == i && jj < j)) && #[trigger] in_dense(d, ii, jj) ==> mn
                            <= d[ii][jj] <= mx,
                    mn == 0 || (exists|ii: int, jj: int|
                        (ii < i || (ii == i && jj < j)) && #[trigger] in_dense(d, ii, jj)
                            && d[ii][jj] == mn),
                    mx == 0 || (exists|ii: int, jj: int|
                        (ii < i || (ii == i && jj < j)) && #[trigger] in_dense(d, ii, jj)
                            && d[ii][jj] == mx),
                decreases cols - j,
            {
                let v = dense_get(&self.matrix, i, j);
                proof {
                    assert(in_dense(d, i as int, j as int));
                }
                if v < mn {
                    mn = v;
                }
                if v > mx {
                    mx = v;
                }
                j = j + 1;
            }
            i = i + 1;
        }
        (mn, mx)
    }

    fn scale_matrix(&self, config: &Config) -> (r: Result<Self, RenderError>) {
        let ghost d = dense_cells(self.matrix);
        let ghost c = opt_view(d);
        proof {
            assert(c[0].len() == d[0].len());
        }
        if config.scaling_factor == 0 {
            return Err(RenderError::InvalidScalingFactor);
        }
        if config.scaling_factor == 1 {
            let m = dense_clone(&self.matrix);
            proof {
                assert forall|ii: int| 0 <= ii < c.len() implies #[trigger] c[ii].len()
                    == grid_cols(c) by {
                    assert(d[ii].len() == dense_cols(d));
                }
                lemma_scale_identity(c);
            }
            return Ok(Matrix { matrix: m });
        }
        let k = config.scaling_factor as usize;
        let ghost ki = config.scaling_factor as int;
        let rows = dense_nrows(&self.matrix);
        let cols = dense_ncols(&self.matrix);
        let srows = rows * k;
        let scols = cols * k;
        assert(srows <= isize::MAX && scols <= isize::MAX) by (nonlinear_arith)
            requires
                srows == rows * k,
                scols == cols * k,
                rows >= 1,
                cols >= 1,
                k >= 1,
                rows * k * (cols * k) <= isize::MAX,
        ;
        let mut out = dense_new(srows, scols);
        let mut i: usize = 0;
        while i < srows
            invariant
                i <= srows,
                k >= 1,
                k == config.scaling_factor,
                ki == k,
                rows == d.len(),
                d == dense_cells(self.matrix),
                srows == rows * k,
                scols == cols * k,
                rows >= 1,
                cols >= 1,
                cols == dense_cols(d),
                forall|ii: int| 0 <= ii < d.len() ==> #[trigger] d[ii].len() == cols,
                dense_cells(out).len() == srows,
                forall|ii: int| 0 <= ii < srows ==> #[trigger] dense_cells(out)[ii].len() == scols,
                forall|ii: int, jj: int|
                    0 <= ii < i && 0 <= jj < scols ==> #[trigger] dense_cells(out)[ii][jj] == d[ii
                        / ki][jj / ki],
            decreases srows - i,
        {
            let mut j: usize = 0;
            while j < scols
                invariant
                    i < srows,
                    j <= scols,
                    k >= 1,
                    ki == k,
                    rows == d.len(),
                    d == dense_cells(self.matrix),
                    srows == rows * k,
                    scols == cols * k,
                    rows >= 1,
                    cols >= 1,
                    cols == dense_cols(d),
                    forall|ii: int| 0 <= ii < d.len() ==> #[trigger] d[ii].len() == cols,
                    dense_cells(out).len() == srows,
                    forall|ii: int|
                        0 <= ii < srows ==> #[trigger] dense_cells(out)[ii].len() == scols,
                    forall|ii: int, jj: int|
                        0 <= ii < i && 0 <= jj < scols ==> #[trigger] dense_cells(out)[ii][jj]
                            == d[ii / ki][jj / ki],
                    forall|jj: int|
                        0 <= jj < j ==> #[trigger] dense_cells(out)[i as int][jj] == d[i as int
                            / ki][jj / ki],
                decreases scols - j,
            {
                assert(i / k < rows && j / k < cols) by (nonlinear_arith)
                    requires
                        i < srows,
                        j < scols,
                        srows == rows * k,
                        scols == cols * k,
                        k >= 1,
                ;
                let oi = i / k;
                let oj = j / k;
                let v = dense_get(&self.matrix, oi, oj);
                dense_set(&mut out, i, j, v);
                j = j + 1;
            }
            i = i + 1;
        }
        proof {
            assert(srows >= 1 && scols >= 1) by (nonlinear_arith)
                requires
                    rows >= 1,
                    cols >= 1,
                    k >= 1,
                    srows == rows * k,
                    scols == cols * k,
            ;
            let so = dense_cells(out);
            let sc = scaled_grid(c, ki);
            assert forall|ii: int| 0 <= ii < srows implies #[trigger] opt_view(so)[ii]
                =~= sc[ii] by {
                assert forall|jj: int| 0 <= jj < scols implies opt_view(so)[ii][jj]
                    == sc[ii][jj] by {
                    assert(ii / ki < rows && jj / ki < cols) by (nonlinear_arith)
                        requires
                            0 <= ii < srows,
                            0 <= jj < scols,
                            srows == rows * ki,
                            scols == cols * ki,
                            ki >= 1,
                    ;
                    assert(d[ii / ki].len() == cols);
                    assert(c[ii / ki][jj / ki] == Some(d[ii / ki][jj / ki]));
                }
            }
            assert(opt_view(so) =~= sc);
        }
        Ok(Matrix { matrix: out })
    }

    fn plot(&self, config: &Config) -> (r: Result<PixelBuffer, RenderError>) {
        let ghost d = dense_cells(self.matrix);
        let ghost c = opt_view(d);
        proof {
            assert(c[0].len() == d[0].len());
            assert forall|ii: int| 0 <= ii < c.len() implies #[trigger] c[ii].len() == grid_cols(
                c,
            ) by {
                assert(d[ii].len() == dense_cols(d));
            }
        }
        let ov = to_opt(&self.matrix);
        let e = self.max_and_min();
        proof {
            lemma_dense_own_extrema_normalize(d, *config, e.0 as int, e.1 as int);
        }
        let r = render(&ov, config, e.0, e.1);
        proof {
            if config.scaling_factor >= 1 {
                assert forall|mn: int, mx: int| is_dense_extrema(d, mn, mx) implies img_pixels(
                    r->Ok_0,
                ) == rendered_image(c, *config, mn, mx) by {
                    lemma_dense_extrema_unique(d, mn, mx, e.0 as int, e.1 as int);
                }
            }
        }
        r
    }
}

} // verus!
