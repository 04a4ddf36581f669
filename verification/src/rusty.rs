//! The rendering pipeline: nearest-neighbor scaling, extrema, rendering.

use vstd::prelude::*;

use crate::arrays::grid_of;
use crate::arrays::opt_cells;
use crate::arrays::opt_clone;
use crate::arrays::opt_get;
use crate::arrays::opt_ncols;
use crate::arrays::opt_new;
use crate::arrays::opt_nrows;
use crate::arrays::opt_set;
use crate::arrays::OptArray;
use crate::imgbuf::image_new;
use crate::imgbuf::image_put;
use crate::imgbuf::img_pixels;
use crate::imgbuf::PixelBuffer;
use crate::types::Cell;
use crate::types::Config;
use crate::types::RenderError;

verus! {

/// The number of columns of a grid: the length of its first row.
pub open spec fn grid_cols(g: Seq<Seq<Option<i32>>>) -> int {
    if g.len() == 0 {
        0
    } else {
        g[0].len() as int
    }
}

/// A rectangular grid: every row as long as the first.
pub open spec fn is_grid(g: Seq<Seq<Option<i32>>>) -> bool {
    forall|i: int| 0 <= i < g.len() ==> #[trigger] g[i].len() == grid_cols(g)
}

/// The cell at `(i, j)` lies in the grid and holds a value.
pub open spec fn present_at(g: Seq<Seq<Option<i32>>>, i: int, j: int) -> bool {
    0 <= i < g.len() && 0 <= j < g[i].len() && g[i][j] is Some
}

/// The value of the cell at `(i, j)`.
pub open spec fn value_at(g: Seq<Seq<Option<i32>>>, i: int, j: int) -> int {
    g[i][j]->Some_0 as int
}

/// Some cell of the grid holds a value.
pub open spec fn has_present(g: Seq<Seq<Option<i32>>>) -> bool {
    exists|i: int, j: int| present_at(g, i, j)
}

/// `(mn, mx)` are the extrema of an optional-cell grid: the minimum and
/// maximum over the values present, or `(0, 0)` when no cell is present.
pub open spec fn is_opt_extrema(g: Seq<Seq<Option<i32>>>, mn: int, mx: int) -> bool {
    &&& forall|i: int, j: int| #[trigger] present_at(g, i, j) ==> mn <= value_at(g, i, j) <= mx
    &&& has_present(g) ==> (exists|i: int, j: int|
        #[trigger] present_at(g, i, j) && value_at(g, i, j) == mn) && (exists|i: int, j: int|
        #[trigger] present_at(g, i, j) && value_at(g, i, j) == mx)
    &&& !has_present(g) ==> mn == 0 && mx == 0
}

/// The grid scaled by the factor `k`: each source cell becomes a `k × k`
/// block of identical values, so destination cell `(i, j)` holds source cell
/// `(i / k, j / k)`.
pub open spec fn scaled_grid(g: Seq<Seq<Option<i32>>>, k: int) -> Seq<Seq<Option<i32>>>
    recommends
        k >= 1,
{
    Seq::new(
        (g.len() * k) as nat,
        |i: int| Seq::new((grid_cols(g) * k) as nat, |j: int| g[i / k][j / k]),
    )
}

/// Law: scaling by factor 1 yields a grid equal in every cell to the input.
pub proof fn lemma_scale_identity(g: Seq<Seq<Option<i32>>>)
    requires
        is_grid(g),
    ensures
        scaled_grid(g, 1) == g,
{
    assert forall|i: int| 0 <= i < g.len() implies #[trigger] scaled_grid(g, 1)[i] =~= g[i] by {
        assert(g[i].len() == grid_cols(g));
    }
    assert(scaled_grid(g, 1) =~= g);
}

/// Law: for a factor `k ≥ 1` the scaled grid has dimensions `(rows·k,
/// cols·k)`, and every destination cell `(i, j)` holds the value of the
/// source cell `(i / k, j / k)`.
pub proof fn lemma_scaled_grid_cells(g: Seq<Seq<Option<i32>>>, k: int)
    requires
        k >= 1,
    ensures
        scaled_grid(g, k).len() == g.len() * k,
        forall|i: int|
            0 <= i < g.len() * k ==> #[trigger] scaled_grid(g, k)[i].len() == grid_cols(g) * k,
        forall|i: int, j: int|
            0 <= i < g.len() * k && 0 <= j < grid_cols(g) * k ==> #[trigger] scaled_grid(g, k)[i][j]
                == g[i / k][j / k],
{
}

/// Compute the extrema of the values present in the matrix.
///
/// Iterates over the present cells only; a matrix with no present cell has
/// extrema `(0, 0)`.
pub fn max_and_min(matrix: &OptArray) -> (r: (i32, i32))
    ensures
        is_opt_extrema(opt_cells(*matrix), r.0 as int, r.1 as int),
{
    let ghost g = opt_cells(*matrix);
    let rows = opt_nrows(matrix);
    let cols = opt_ncols(matrix);
    let mut mn: i32 = 0;
    let mut mx: i32 = 0;
    let mut found: bool = false;
    let mut i: usize = 0;
    while i < rows
        invariant
            i <= rows,
            rows == g.len(),
            g == opt_cells(*matrix),
            forall|ii: int| 0 <= ii < g.len() ==> #[trigger] g[ii].len() == cols,
            !found ==> mn == 0 && mx == 0,
            !found ==> forall|ii: int, jj: int| ii < i ==> !(#[trigger] present_at(g, ii, jj)),
            found ==> (exists|ii: int, jj: int|
                ii < i && #[trigger] present_at(g, ii, jj) && value_at(g, ii, jj) == mn),
            found ==> (exists|ii: int, jj: int|
                ii < i && #[trigger] present_at(g, ii, jj) && value_at(g, ii, jj) == mx),
            forall|ii: int, jj: int|
                ii < i && #[trigger] present_at(g, ii, jj) ==> mn <= value_at(g, ii, jj) <= mx,
        decreases rows - i,
    {
        let mut j: usize = 0;
        while j < cols
            invariant
                i < rows,
                j <= cols,
                rows == g.len(),
                g == opt_cells(*matrix),
                forall|ii: int| 0 <= ii < g.len() ==> #[trigger] g[ii].len() == cols,
                !found ==> mn == 0 && mx == 0,
                !found ==> forall|ii: int, jj: int|
                    ii < i || (ii == i && jj < j) ==> !(#[trigger] present_at(g, ii, jj)),
                found ==> (exists|ii: int, jj: int|
                    (ii < i || (ii == i && jj < j)) && #[trigger] present_at(g, ii, jj)
                        && value_at(g, ii, jj) == mn),
                found ==> (exists|ii: int, jj: int|
                    (ii < i || (ii == i && jj < j)) && #[trigger] present_at(g, ii, jj)
                        && value_at(g, ii, jj) == mx),
                forall|ii: int, jj: int|
                    (ii < i || (ii == i && jj < j)) && #[trigger] present_at(g, ii, jj) ==> mn
                        <= value_at(g, ii, jj) <= mx,
            decreases cols - j,
        {
            let c = opt_get(matrix, i, j);
            match c {
                Some(v) => {
                    proof {
                        assert(present_at(g, i as int, j as int));
                    }
                    if !found {
                        found = true;
                        mn = v;
                        mx = v;
                    } else {
                        if v < mn {
                            mn = v;
                        }
                        if v > mx {
                            mx = v;
                        }
                    }
                },
                None => {},
            }
            j = j + 1;
        }
        i = i + 1;
    }
    (mn, mx)
}

/// Scale the matrix by the factor set in [`Config`].
///
/// Nearest-neighbor replication: destination cell `(i, j)` is copied from
/// source cell `(i / k, j / k)`. A factor of 1 returns a value-equal copy of
/// the input; a factor of 0 is rejected.
pub fn scale_matrix(matrix: &OptArray, config: &Config) -> (r: Result<OptArray, RenderError>)
    requires
        is_grid(opt_cells(*matrix)),
        opt_cells(*matrix).len() >= 1,
        grid_cols(opt_cells(*matrix)) >= 1,
        opt_cells(*matrix).len() * config.scaling_factor <= usize::MAX,
        grid_cols(opt_cells(*matrix)) * config.scaling_factor <= usize::MAX,
        opt_cells(*matrix).len() * config.scaling_factor * (grid_cols(opt_cells(*matrix))
            * config.scaling_factor) <= isize::MAX,
    ensures
        config.scaling_factor == 0 ==> r === Err(RenderError::InvalidScalingFactor),
        config.scaling_factor >= 1 ==> (r matches Ok(s) && opt_cells(s) == scaled_grid(
            opt_cells(*matrix),
            config.scaling_factor as int,
        )),
{
    let ghost g = opt_cells(*matrix);
    if config.scaling_factor == 0 {
        return Err(RenderError::InvalidScalingFactor);
    }
    if config.scaling_factor == 1 {
        let c = opt_clone(matrix);
        proof {
            lemma_scale_identity(g);
        }
        return Ok(c);
    }
    let k = config.scaling_factor as usize;
    let rows = opt_nrows(matrix);
    let cols = opt_ncols(matrix);
    let srows = rows * k;
    let scols = cols * k;
    assert(srows <= isize::MAX && scols <= isize::MAX) by (nonlinear_arith)
        requires
            srows == rows * k,
            scols == cols * k,
            rows >= 1,
            cols >= 1,
            k >= 1,
            rows * k * (cols * k) <= isize::MAX,
    ;
    let mut out = opt_new(srows, scols);
    let mut i: usize = 0;
    while i < srows
        invariant
            i <= srows,
            k >= 1,
            k == config.scaling_factor,
            rows == g.len(),
            g == opt_cells(*matrix),
            srows == rows * k,
            scols == cols * k,
            rows >= 1,
            cols >= 1,
            cols == grid_cols(g),
            forall|ii: int| 0 <= ii < g.len() ==> #[trigger] g[ii].len() == cols,
            opt_cells(out).len() == srows,
            forall|ii: int| 0 <= ii < srows ==> #[trigger] opt_cells(out)[ii].len() == scols,
            forall|ii: int, jj: int|
                0 <= ii < i && 0 <= jj < scols ==> #[trigger] opt_cells(out)[ii][jj] == g[ii / (
                k as int)][jj / (k as int)],
        decreases srows - i,
    {
        let mut j: usize = 0;
        while j < scols
            invariant
                i < srows,
                j <= scols,
                k >= 1,
                rows == g.len(),
                g == opt_cells(*matrix),
                srows == rows * k,
                scols == cols * k,
                rows >= 1,
                cols >= 1,
                cols == grid_cols(g),
                forall|ii: int| 0 <= ii < g.len() ==> #[trigger] g[ii].len() == cols,
                opt_cells(out).len() == srows,
                forall|ii: int| 0 <= ii < srows ==> #[trigger] opt_cells(out)[ii].len() == scols,
                forall|ii: int, jj: int|
                    0 <= ii < i && 0 <= jj < scols ==> #[trigger] opt_cells(out)[ii][jj] == g[ii / (
                    k as int)][jj / (k as int)],
                forall|jj: int|
                    0 <= jj < j ==> #[trigger] opt_cells(out)[i as int][jj] == g[i as int / (
                    k as int)][jj / (k as int)],
            decreases scols - j,
        {
            assert(i / k < rows && j / k < cols) by (nonlinear_arith)
                requires
                    i < srows,
                    j < scols,
                    srows == rows * k,
                    scols == cols * k,
                    k >= 1,
            ;
            let oi = i / k;
            let oj = j / k;
            let v = opt_get(matrix, oi, oj);
            opt_set(&mut out, i, j, v);
            j = j + 1;
        }
        i = i + 1;
    }
    proof {
        assert forall|ii: int| 0 <= ii < srows implies #[trigger] opt_cells(out)[ii]
            =~= scaled_grid(g, k as int)[ii] by {}
        assert(opt_cells(out) =~= scaled_grid(g, k as int));
    }
    Ok(out)
}

/// The diagonal highlight color.
pub open spec fn red() -> (u8, u8, u8, u8) {
    (255u8, 0u8, 0u8, 125u8)
}

/// The boundary line color.
pub open spec fn blue() -> (u8, u8, u8, u8) {
    (0u8, 0u8, 255u8, 255u8)
}

/// The color of absent and zero cells.
pub open spec fn white() -> (u8, u8, u8, u8) {
    (255u8, 255u8, 255u8, 255u8)
}

/// The flat color of present cells when shading is off.
pub open spec fn black() -> (u8, u8, u8, u8) {
    (0u8, 0u8, 0u8, 255u8)
}

/// An untouched pixel of a fresh buffer.
pub open spec fn transparent() -> (u8, u8, u8, u8) {
    (0u8, 0u8, 0u8, 0u8)
}

/// Magnitude-to-alpha scaling: the ceiling of `255·num/den`, clamped into the
/// byte range. A negative `den` (an extremum of the sign opposite to the
/// value's) makes the quotient negative, which clamps to 0.
pub open spec fn alpha_of(num: int, den: int) -> u8
    recommends
        num >= 1,
        den != 0,
{
    if den < 0 {
        0u8
    } else {
        let a = (255 * num + den - 1) / den;
        if a > 255 {
            255u8
        } else if a < 0 {
            0u8
        } else {
            a as u8
        }
    }
}

/// The color of one matrix cell: absent and zero cells are white; other cells
/// are flat black when shading is off, and otherwise a red or black shade
/// whose alpha scales the value against the extremum of its sign.
pub open spec fn cell_color(c: Option<i32>, cfg: Config, mn: int, mx: int) -> (u8, u8, u8, u8) {
    match c {
        None => white(),
        Some(v) => if v == 0 {
            white()
        } else if !cfg.with_color {
            black()
        } else if v > 0 {
            (255u8, 0u8, 0u8, alpha_of(v as int, mx))
        } else {
            (
                0u8,
                0u8,
                0u8,
                alpha_of(
                    -(v as int),
                    if mn < 0 {
                        -mn
                    } else {
                        mn
                    },
                ),
            )
        },
    }
}

/// Normalization against the extrema fails: shading is on and some present
/// value would be divided by an extremum that is zero.
pub open spec fn norm_fails(g: Seq<Seq<Option<i32>>>, cfg: Config, mn: int, mx: int) -> bool {
    cfg.with_color && exists|i: int, j: int|
        #[trigger] present_at(g, i, j) && ((value_at(g, i, j) > 0 && mx == 0) || (value_at(g, i, j)
            < 0 && mn == 0))
}

/// The color of the output pixel at `(x, y)`, for a grid with extrema
/// `(mn, mx)`.
///
/// Annotations come first: the diagonal, then the boundary lines. In the
/// boundary condition the row test stands outside the `draw_boundaries`
/// conjunction on purpose: a row on a multiple of the scaling factor is
/// drawn even when the flag is off. A border pixel (`x == cols` or `y == rows`) that
/// no annotation claims is left untouched. Everything else shows the cell at
/// row `y`, column `x`.
pub open spec fn rendered_pixel(
    g: Seq<Seq<Option<i32>>>,
    cfg: Config,
    mn: int,
    mx: int,
    x: int,
    y: int,
) -> (u8, u8, u8, u8)
    recommends
        cfg.scaling_factor >= 1,
{
    let rows = g.len() as int;
    let cols = grid_cols(g);
    let k = cfg.scaling_factor as int;
    if cfg.annotate_image && cfg.draw_diagonal && x == y {
        red()
    } else if cfg.annotate_image && ((cfg.draw_boundaries && x % k == 0) || y % k == 0) {
        blue()
    } else if x == cols || y == rows {
        transparent()
    } else {
        cell_color(g[y][x], cfg, mn, mx)
    }
}

/// The coordinates of a `w × h` pixel buffer.
pub open spec fn pix_dom(w: int, h: int) -> Set<(int, int)> {
    Set::new(|p: (int, int)| 0 <= p.0 < w && 0 <= p.1 < h)
}

/// The full output of rendering a grid with extrema `(mn, mx)`: one pixel for
/// every coordinate of the `(cols+1) × (rows+1)` buffer.
pub open spec fn rendered_image(g: Seq<Seq<Option<i32>>>, cfg: Config, mn: int, mx: int) -> Map<
    (int, int),
    (u8, u8, u8, u8),
> {
    Map::new(
        |p: (int, int)| 0 <= p.0 <= grid_cols(g) && 0 <= p.1 <= g.len(),
        |p: (int, int)| rendered_pixel(g, cfg, mn, mx, p.0, p.1),
    )
}

/// Compute the alpha channel of a shaded cell: the ceiling of `255·num/den`,
/// clamped into the byte range.
fn alpha_exec(num: i64, den: i64) -> (r: u8)
    requires
        1 <= num <= 0x8000_0000,
        den != 0,
        -0x8000_0000 <= den <= 0x8000_0000,
    ensures
        r == alpha_of(num as int, den as int),
{
    if den < 0 {
        0u8
    } else {
        let n: u64 = num as u64;
        let d: u64 = den as u64;
        let a: u64 = (255 * n + d - 1) / d;
        if a > 255 {
            255u8
        } else {
            a as u8
        }
    }
}

/// Decide whether rendering the matrix against the extrema `(mn, mx)` would
/// divide by a zero extremum.
fn norm_check(matrix: &OptArray, config: &Config, mn: i32, mx: i32) -> (b: bool)
    ensures
        b == norm_fails(opt_cells(*matrix), *config, mn as int, mx as int),
{
    let ghost g = opt_cells(*matrix);
    if !config.with_color {
        return false;
    }
    if mn != 0 && mx != 0 {
        return false;
    }
    let rows = opt_nrows(matrix);
    let cols = opt_ncols(matrix);
    let mut i: usize = 0;
    while i < rows
        invariant
            i <= rows,
            rows == g.len(),
            g == opt_cells(*matrix),
            config.with_color,
            forall|ii: int| 0 <= ii < g.len() ==> #[trigger] g[ii].len() == cols,
            forall|ii: int, jj: int|
                ii < i && #[trigger] present_at(g, ii, jj) ==> !((value_at(g, ii, jj) > 0 && mx
                    == 0) || (value_at(g, ii, jj) < 0 && mn == 0)),
        decreases rows - i,
    {
        let mut j: usize = 0;
        while j < cols
            invariant
                i < rows,
                j <= cols,
                rows == g.len(),
                g == opt_cells(*matrix),
                config.with_color,
                forall|ii: int| 0 <= ii < g.len() ==> #[trigger] g[ii].len() == cols,
                forall|ii: int, jj: int|
                    (ii < i || (ii == i && jj < j)) && #[trigger] present_at(g, ii, jj) ==> !((
                    value_at(g, ii, jj) > 0 && mx == 0) || (value_at(g, ii, jj) < 0 && mn == 0)),
            decreases cols - j,
        {
            let c = opt_get(matrix, i, j);
            match c {
                Some(v) => {
                    if (v > 0 && mx == 0) || (v < 0 && mn == 0) {
                        proof {
                            assert(present_at(g, i as int, j as int));
                        }
                        return true;
                    }
                },
                None => {},
            }
            j = j + 1;
        }
        i = i + 1;
    }
    false
}

/// Render the matrix into a fresh pixel buffer against the given extrema.
///
/// The buffer is one pixel wider and taller than the matrix, to carry the
/// final boundary lines. A scaling factor of 0 is rejected before any
/// allocation; a zero extremum that some present value would be normalized
/// against is reported instead of dividing by it.
pub fn render(matrix: &OptArray, config: &Config, min: i32, max: i32) -> (r: Result<
    PixelBuffer,
    RenderError,
>)
    requires
        is_grid(opt_cells(*matrix)),
        opt_cells(*matrix).len() >= 1,
        grid_cols(opt_cells(*matrix)) >= 1,
        opt_cells(*matrix).len() + 1 <= u32::MAX,
        grid_cols(opt_cells(*matrix)) + 1 <= u32::MAX,
        4 * (grid_cols(opt_cells(*matrix)) + 1) * (opt_cells(*matrix).len() + 1) <= usize::MAX,
    ensures
        config.scaling_factor == 0 ==> r === Err(RenderError::InvalidScalingFactor),
        config.scaling_factor >= 1 && norm_fails(
            opt_cells(*matrix),
            *config,
            min as int,
            max as int,
        ) ==> r === Err(RenderError::Normalization),
        config.scaling_factor >= 1 && !norm_fails(
            opt_cells(*matrix),
            *config,
            min as int,
            max as int,
        ) ==> (r matches Ok(img) && img_pixels(img) == rendered_image(
            opt_cells(*matrix),
            *config,
            min as int,
            max as int,
        )),
{
    let ghost g = opt_cells(*matrix);
    if config.scaling_factor == 0 {
        return Err(RenderError::InvalidScalingFactor);
    }
    if norm_check(matrix, config, min, max) {
        return Err(RenderError::Normalization);
    }
    let rows = opt_nrows(matrix);
    let cols = opt_ncols(matrix);
    let rows32: u32 = rows as u32;
    let cols32: u32 = cols as u32;
    let width: u32 = cols32 + 1;
    let height: u32 = rows32 + 1;
    let k32: u32 = config.scaling_factor as u32;
    let mut img = image_new(width, height);
    proof {
        assert(img_pixels(img).dom() =~= pix_dom(width as int, height as int));
    }
    let mut x: u32 = 0;
    while x < width
        invariant
            x <= width,
            rows == g.len(),
            g == opt_cells(*matrix),
            rows >= 1,
            cols >= 1,
            cols == grid_cols(g),
            rows + 1 <= u32::MAX,
            cols + 1 <= u32::MAX,
            rows32 == rows,
            cols32 == cols,
            width == cols + 1,
            height == rows + 1,
            k32 == config.scaling_factor,
            1 <= k32 <= 255,
            !norm_fails(g, *config, min as int, max as int),
            forall|ii: int| 0 <= ii < g.len() ==> #[trigger] g[ii].len() == cols,
            img_pixels(img).dom() == pix_dom(width as int, height as int),
            forall|p: (int, int)|
                #[trigger] pix_dom(width as int, height as int).contains(p) && p.0 < x
                    ==> img_pixels(img)[p] == rendered_pixel(
                    g,
                    *config,
                    min as int,
                    max as int,
                    p.0,
                    p.1,
                ),
            forall|p: (int, int)|
                #[trigger] pix_dom(width as int, height as int).contains(p) && p.0 >= x
                    ==> img_pixels(img)[p] == transparent(),
        decreases width - x,
    {
        let mut y: u32 = 0;
        while y < height
            invariant
                x < width,
                y <= height,
                rows == g.len(),
                g == opt_cells(*matrix),
                rows >= 1,
                cols >= 1,
                cols == grid_cols(g),
                rows + 1 <= u32::MAX,
                cols + 1 <= u32::MAX,
                rows32 == rows,
                cols32 == cols,
                width == cols + 1,
                height == rows + 1,
                k32 == config.scaling_factor,
                1 <= k32 <= 255,
                !norm_fails(g, *config, min as int, max as int),
                forall|ii: int| 0 <= ii < g.len() ==> #[trigger] g[ii].len() == cols,
                img_pixels(img).dom() == pix_dom(width as int, height as int),
                forall|p: (int, int)|
                    #[trigger] pix_dom(width as int, height as int).contains(p) && (p.0 < x || (p.0
                        == x && p.1 < y)) ==> img_pixels(img)[p] == rendered_pixel(
                        g,
                        *config,
                        min as int,
                        max as int,
                        p.0,
                        p.1,
                    ),
                forall|p: (int, int)|
                    #[trigger] pix_dom(width as int, height as int).contains(p) && !(p.0 < x || (p.0
                        == x && p.1 < y)) ==> img_pixels(img)[p] == transparent(),
            decreases height - y,
        {
            let ghost p0 = (x as int, y as int);
            proof {
                assert(pix_dom(width as int, height as int).contains(p0));
            }
            if config.annotate_image && config.draw_diagonal && x == y {
                image_put(&mut img, x, y, (255u8, 0u8, 0u8, 125u8));
            } else if config.annotate_image && ((config.draw_boundaries && x % k32 == 0) || y % k32
                == 0) {
                image_put(&mut img, x, y, (0u8, 0u8, 255u8, 255u8));
            } else if x == cols32 || y == rows32 {
                // the border pixel stays untouched
                proof {
                    assert(img_pixels(img)[p0] == rendered_pixel(
                        g,
                        *config,
                        min as int,
                        max as int,
                        p0.0,
                        p0.1,
                    ));
                }
            } else {
                // the matrix is indexed row-first, so the cell of pixel (x, y)
                // is at row y, column x
                let c = opt_get(matrix, y as usize, x as usize);
                match c {
                    None => {
                        image_put(&mut img, x, y, (255u8, 255u8, 255u8, 255u8));
                    },
                    Some(v) => {
                        if v == 0 {
                            image_put(&mut img, x, y, (255u8, 255u8, 255u8, 255u8));
                        } else if !config.with_color {
                            image_put(&mut img, x, y, (0u8, 0u8, 0u8, 255u8));
                        } else if v > 0 {
                            proof {
                                assert(present_at(g, y as int, x as int));
                                assert(max != 0);
                            }
                            let a = alpha_exec(v as i64, max as i64);
                            image_put(&mut img, x, y, (255u8, 0u8, 0u8, a));
                        } else {
                            proof {
                                assert(present_at(g, y as int, x as int));
                                assert(min != 0);
                            }
                            let mag: i64 = -(v as i64);
                            let den: i64 = if min < 0 {
                                -(min as i64)
                            } else {
                                min as i64
                            };
                            let a = alpha_exec(mag, den);
                            image_put(&mut img, x, y, (0u8, 0u8, 0u8, a));
                        }
                    },
                }
            }
            proof {
                assert(img_pixels(img).dom() =~= pix_dom(width as int, height as int));
            }
            y = y + 1;
        }
        x = x + 1;
    }
    proof {
        assert(img_pixels(img) =~= rendered_image(g, *config, min as int, max as int));
    }
    Ok(img)
}

/// The extrema of a grid pin each other down: two extrema pairs of one grid
/// are equal.
pub proof fn lemma_extrema_unique(g: Seq<Seq<Option<i32>>>, a1: int, b1: int, a2: int, b2: int)
    requires
        is_opt_extrema(g, a1, b1),
        is_opt_extrema(g, a2, b2),
    ensures
        a1 == a2,
        b1 == b2,
{
    if has_present(g) {
        let (i1, j1) = choose|i: int, j: int| #[trigger] present_at(g, i, j) && value_at(g, i, j) == a1;
        let (i2, j2) = choose|i: int, j: int| #[trigger] present_at(g, i, j) && value_at(g, i, j) == a2;
        assert(a2 <= value_at(g, i1, j1));
        assert(a1 <= value_at(g, i2, j2));
        let (i3, j3) = choose|i: int, j: int| #[trigger] present_at(g, i, j) && value_at(g, i, j) == b1;
        let (i4, j4) = choose|i: int, j: int| #[trigger] present_at(g, i, j) && value_at(g, i, j) == b2;
        assert(value_at(g, i3, j3) <= b2);
        assert(value_at(g, i4, j4) <= b1);
    }
}

/// Extrema computed from the grid itself never leave a present value without
/// a nonzero extremum of its sign, so normalization cannot fail against them.
pub proof fn lemma_own_extrema_normalize(g: Seq<Seq<Option<i32>>>, cfg: Config, mn: int, mx: int)
    requires
        is_opt_extrema(g, mn, mx),
    ensures
        !norm_fails(g, cfg, mn, mx),
{
    assert forall|i: int, j: int| #[trigger] present_at(g, i, j) implies !((value_at(g, i, j) > 0
        && mx == 0) || (value_at(g, i, j) < 0 && mn == 0)) by {
        assert(mn <= value_at(g, i, j) <= mx);
    }
}

/// Generate the visualization of the matrix: compute its extrema and render
/// every cell against them.
///
/// The buffer is one pixel wider and taller than the matrix. A scaling factor
/// of 0 is rejected; extrema taken from the matrix itself never fail to
/// normalize, so every other configuration renders.
pub fn generate_image(matrix: &OptArray, config: &Config) -> (r: Result<PixelBuffer, RenderError>)
    requires
        is_grid(opt_cells(*matrix)),
        opt_cells(*matrix).len() >= 1,
        grid_cols(opt_cells(*matrix)) >= 1,
        opt_cells(*matrix).len() + 1 <= u32::MAX,
        grid_cols(opt_cells(*matrix)) + 1 <= u32::MAX,
        4 * (grid_cols(opt_cells(*matrix)) + 1) * (opt_cells(*matrix).len() + 1) <= usize::MAX,
    ensures
        config.scaling_factor == 0 ==> r === Err(RenderError::InvalidScalingFactor),
        config.scaling_factor >= 1 ==> (r matches Ok(img) && forall|mn: int, mx: int|
            is_opt_extrema(opt_cells(*matrix), mn, mx) ==> img_pixels(img) == rendered_image(
                opt_cells(*matrix),
                *config,
                mn,
                mx,
            )),
{
    let ghost g = opt_cells(*matrix);
    let e = max_and_min(matrix);
    proof {
        lemma_own_extrema_normalize(g, *config, e.0 as int, e.1 as int);
    }
    let r = render(matrix, config, e.0, e.1);
    proof {
        if config.scaling_factor >= 1 {
            assert forall|mn: int, mx: int| is_opt_extrema(g, mn, mx) implies img_pixels(
                r->Ok_0,
            ) == rendered_image(g, *config, mn, mx) by {
                lemma_extrema_unique(g, mn, mx, e.0 as int, e.1 as int);
            }
        }
    }
    r
}

/// Law: with annotations off, every non-border pixel of a grid whose present
/// cells are all zero is white, whatever the extrema are.
pub proof fn lemma_blank_interior_white(
    g: Seq<Seq<Option<i32>>>,
    cfg: Config,
    mn: int,
    mx: int,
    x: int,
    y: int,
)
    requires
        is_grid(g),
        !cfg.annotate_image,
        cfg.scaling_factor >= 1,
        0 <= x < grid_cols(g),
        0 <= y < g.len(),
        forall|i: int, j: int| #[trigger] present_at(g, i, j) ==> value_at(g, i, j) == 0,
    ensures
        rendered_pixel(g, cfg, mn, mx, x, y) == white(),
{
    assert(g[y].len() == grid_cols(g));
    if g[y][x] is Some {
        assert(present_at(g, y, x));
    }
}

/// Law: with the diagonal annotation on, the pixel at every coordinate
/// `(x, x)` is red, taking precedence over boundary and value coloring.
pub proof fn lemma_diagonal_red(g: Seq<Seq<Option<i32>>>, cfg: Config, mn: int, mx: int, x: int)
    requires
        cfg.annotate_image,
        cfg.draw_diagonal,
    ensures
        rendered_pixel(g, cfg, mn, mx, x, x) == red(),
{
}

/// Law: the buffer rendered from a grid scaled by `k ≥ 1` has the domain
/// `(cols·k + 1) × (rows·k + 1)`, whatever the cells hold.
pub proof fn lemma_output_dims(g: Seq<Seq<Option<i32>>>, cfg: Config, k: int, mn: int, mx: int)
    requires
        k >= 1,
    ensures
        rendered_image(scaled_grid(g, k), cfg, mn, mx).dom() == pix_dom(
            grid_cols(g) * k + 1,
            g.len() * k + 1,
        ),
{
    let sg = scaled_grid(g, k);
    if g.len() == 0 {
        assert(sg.len() == 0);
        assert(grid_cols(sg) == 0 && grid_cols(g) == 0);
    } else {
        assert(g.len() * k >= 1) by (nonlinear_arith)
            requires
                g.len() >= 1,
                k >= 1,
        ;
        assert(grid_cols(sg) == grid_cols(g) * k);
    }
    assert(rendered_image(sg, cfg, mn, mx).dom() =~= pix_dom(
        grid_cols(g) * k + 1,
        g.len() * k + 1,
    ));
}

/// Law: scaling a matrix of all-absent cells by `k ≥ 1` and rendering it
/// without annotations yields, at the scaled dimensions, a buffer whose
/// non-border pixels are all white; the border row and column stay untouched.
pub proof fn lemma_scale_render_absent(
    g: Seq<Seq<Option<i32>>>,
    cfg: Config,
    mn: int,
    mx: int,
    x: int,
    y: int,
)
    requires
        is_grid(g),
        g.len() >= 1,
        grid_cols(g) >= 1,
        !cfg.annotate_image,
        cfg.scaling_factor >= 1,
        forall|i: int, j: int| 0 <= i < g.len() && 0 <= j < g[i].len() ==> g[i][j] is None,
        0 <= x <= grid_cols(g) * cfg.scaling_factor,
        0 <= y <= g.len() * cfg.scaling_factor,
    ensures
        rendered_pixel(scaled_grid(g, cfg.scaling_factor as int), cfg, mn, mx, x, y) == (if x
            == grid_cols(g) * cfg.scaling_factor || y == g.len() * cfg.scaling_factor {
            transparent()
        } else {
            white()
        }),
{
    let k = cfg.scaling_factor as int;
    let sg = scaled_grid(g, k);
    assert(sg.len() == g.len() * k);
    assert(g.len() * k >= 1 && grid_cols(g) * k >= 1) by (nonlinear_arith)
        requires
            g.len() >= 1,
            grid_cols(g) >= 1,
            k >= 1,
    ;
    assert(grid_cols(sg) == grid_cols(g) * k);
    if x < grid_cols(g) * k && y < g.len() * k {
        assert(y / k < g.len() && x / k < grid_cols(g)) by (nonlinear_arith)
            requires
                0 <= y < g.len() * k,
                0 <= x < grid_cols(g) * k,
                k >= 1,
        ;
        assert(g[y / k].len() == grid_cols(g));
        assert(sg[y][x] == g[y / k][x / k]);
        assert(g[y / k][x / k] is None);
    }
}

/// The record's position lies inside the declared dimensions.
pub open spec fn record_in_bounds(c: Cell, nrow: int, ncol: int) -> bool {
    c.position.x < nrow && c.position.y < ncol
}

/// The grid that placing the records into an all-absent `nrow × ncol` grid
/// yields: each record's value at row `x`, column `y` of its position, later
/// records overwriting earlier ones.
pub open spec fn placed_cells(cs: Seq<Cell>, nrow: nat, ncol: nat) -> Seq<Seq<Option<i32>>>
    decreases cs.len(),
{
    if cs.len() == 0 {
        grid_of(nrow, ncol, None::<i32>)
    } else {
        let g = placed_cells(cs.drop_last(), nrow, ncol);
        let c = cs.last();
        let i = c.position.x as int;
        g.update(i, g[i].update(c.position.y as int, Some(c.value)))
    }
}

/// Build an optional-cell matrix from ingested records: place each record's
/// value at its position, row `x` and column `y`, leaving every other cell
/// absent. A declared dimension of zero, or a record placed outside the
/// declared bounds, is rejected before any cell is written.
pub fn cells_to_matrix(cells: &Vec<Cell>, nrow: usize, ncol: usize) -> (r: Result<
    OptArray,
    RenderError,
>)
    requires
        nrow * ncol <= isize::MAX,
    ensures
        (nrow == 0 || ncol == 0 || exists|t: int|
            0 <= t < cells@.len() && !(#[trigger] record_in_bounds(
                cells@[t],
                nrow as int,
                ncol as int,
            ))) ==> r === Err(RenderError::InvalidDimensions),
        !(nrow == 0 || ncol == 0 || exists|t: int|
            0 <= t < cells@.len() && !(#[trigger] record_in_bounds(
                cells@[t],
                nrow as int,
                ncol as int,
            ))) ==> (r matches Ok(m) && opt_cells(m) == placed_cells(
            cells@,
            nrow as nat,
            ncol as nat,
        ) && opt_cells(m).len() == nrow && grid_cols(opt_cells(m)) == ncol && is_grid(
            opt_cells(m),
        )),
{
    if nrow == 0 || ncol == 0 {
        return Err(RenderError::InvalidDimensions);
    }
    let mut t: usize = 0;
    while t < cells.len()
        invariant
            t <= cells@.len(),
            forall|s: int|
                0 <= s < t ==> #[trigger] record_in_bounds(cells@[s], nrow as int, ncol as int),
        decreases cells@.len() - t,
    {
        let c = cells[t];
        if !((c.position.x as usize) < nrow && (c.position.y as usize) < ncol) {
            proof {
                assert(!record_in_bounds(cells@[t as int], nrow as int, ncol as int));
            }
            return Err(RenderError::InvalidDimensions);
        }
        t = t + 1;
    }
    assert(nrow <= isize::MAX && ncol <= isize::MAX) by (nonlinear_arith)
        requires
            nrow >= 1,
            ncol >= 1,
            nrow * ncol <= isize::MAX,
    ;
    let mut out = opt_new(nrow, ncol);
    proof {
        assert(cells@.take(0) =~= Seq::<Cell>::empty());
    }
    let mut t: usize = 0;
    while t < cells.len()
        invariant
            t <= cells@.len(),
            nrow >= 1,
            ncol >= 1,
            forall|s: int|
                0 <= s < cells@.len() ==> #[trigger] record_in_bounds(
                    cells@[s],
                    nrow as int,
                    ncol as int,
                ),
            opt_cells(out) == placed_cells(cells@.take(t as int), nrow as nat, ncol as nat),
            opt_cells(out).len() == nrow,
            forall|i: int| 0 <= i < nrow ==> #[trigger] opt_cells(out)[i].len() == ncol,
        decreases cells@.len() - t,
    {
        let c = cells[t];
        proof {
            assert(record_in_bounds(cells@[t as int], nrow as int, ncol as int));
        }
        let i = c.position.x as usize;
        let j = c.position.y as usize;
        opt_set(&mut out, i, j, Some(c.value));
        proof {
            assert(cells@.take(t as int + 1).drop_last() =~= cells@.take(t as int));
            assert(cells@.take(t as int + 1).last() == cells@[t as int]);
        }
        t = t + 1;
    }
    proof {
        assert(cells@.take(cells@.len() as int) =~= cells@);
    }
    Ok(out)
}

} // verus!
