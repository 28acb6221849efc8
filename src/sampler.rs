use vstd::prelude::*;
use crate::geometry::{Vec2, in_range};

verus! {

/// Brightness samples, row-major with the top row first.
pub struct Raster {
    pub width: usize,
    pub height: usize,
    pub pixels: Vec<u8>,
}

/// A square cell of the sampling grid; `row` counts from the top.
#[derive(Clone, Copy, Debug, PartialEq, Eq, Structural)]
pub struct Cell {
    pub col: usize,
    pub row: usize,
}

impl Raster {
    pub open spec fn wf(&self) -> bool {
        self.pixels@.len() == self.width * self.height
    }

    /// Whether the pixel at column `x` and row `y` exceeds `threshold`.
    pub open spec fn bright(&self, x: int, y: int, threshold: u8) -> bool {
        self.pixels@[y * self.width + x] > threshold
    }
}

/// Whether the pixel (`x`, `y`) lies in the raster, is bright and falls in
/// cell `c` of a grid of `cell_size` pixels.
pub open spec fn hit(r: &Raster, cell_size: int, threshold: u8, x: int, y: int, c: Cell) -> bool {
    &&& 0 <= x < r.width
    &&& 0 <= y < r.height
    &&& x / cell_size == c.col
    &&& y / cell_size == c.row
    &&& r.bright(x, y, threshold)
}

/// Whether some bright pixel falls in cell `c`.
pub open spec fn occupied(r: &Raster, cell_size: int, threshold: u8, c: Cell) -> bool {
    exists|x: int, y: int| #[trigger] hit(r, cell_size, threshold, x, y, c)
}

/// Whether pixel (`x1`, `y1`) comes before (`x2`, `y2`) in a row-by-row scan.
pub open spec fn scanned_before(x1: int, y1: int, x2: int, y2: int) -> bool {
    y1 < y2 || (y1 == y2 && x1 < x2)
}

/// Whether, for any two distinct cells of `cells`, the earlier one holds a bright
/// pixel that a row-by-row scan meets before every bright pixel of the later.
pub open spec fn in_scan_order(r: &Raster, cell_size: int, threshold: u8, cells: Seq<Cell>) -> bool {
    forall|k1: int, k2: int, x: int, y: int|
        #![trigger cells[k1], hit(r, cell_size, threshold, x, y, cells[k2])]
        0 <= k1 < k2 < cells.len() && cells[k1] != cells[k2] && hit(r, cell_size, threshold, x, y, cells[k2])
            ==> exists|x1: int, y1: int|
            #![trigger hit(r, cell_size, threshold, x1, y1, cells[k1])]
            hit(r, cell_size, threshold, x1, y1, cells[k1]) && scanned_before(x1, y1, x, y)
}

/// The number of cells needed to cover `len` pixels.
pub open spec fn cells_for(len: int, cell_size: int) -> int {
    len / cell_size + if len % cell_size == 0 {
        0int
    } else {
        1int
    }
}

proof fn lemma_cell_below(x: int, len: int, cs: int)
    requires
        0 <= x < len,
        cs > 0,
    ensures
        0 <= x / cs < cells_for(len, cs),
        cells_for(len, cs) <= len,
{
    vstd::arithmetic::div_mod::lemma_fundamental_div_mod(x, cs);
    vstd::arithmetic::div_mod::lemma_fundamental_div_mod(len, cs);
    vstd::arithmetic::div_mod::lemma_div_pos_is_pos(x, cs);
    vstd::arithmetic::div_mod::lemma_mod_bound(x, cs);
    vstd::arithmetic::div_mod::lemma_mod_bound(len, cs);
    let q = x / cs;
    let qq = len / cs;
    assert(q < qq + 1) by (nonlinear_arith)
        requires
            x == cs * q + x % cs,
            len == cs * qq + len % cs,
            0 <= x % cs < cs,
            0 <= len % cs < cs,
            x < len,
            cs > 0,
    ;
    if len % cs == 0 {
        assert(q < qq) by (nonlinear_arith)
            requires
                x == cs * q + x % cs,
                len == cs * qq,
                0 <= x % cs < cs,
                x < len,
                cs > 0,
        ;
    }
    assert(qq <= len) by (nonlinear_arith)
        requires
            len == cs * qq + len % cs,
            0 <= len % cs,
            cs > 0,
            len >= 0,
    ;
    if len % cs != 0 {
        assert(qq < len) by (nonlinear_arith)
            requires
                len == cs * qq + len % cs,
                0 < len % cs,
                cs > 0,
                len >= 0,
        ;
    }
}

proof fn lemma_pixel_index(x: int, y: int, w: int, h: int)
    requires
        0 <= x < w,
        0 <= y < h,
    ensures
        0 <= y * w + x < w * h,
{
    assert(0 <= y * w + x < w * h) by (nonlinear_arith)
        requires
            0 <= x < w,
            0 <= y < h,
    ;
}

/// Finds the cells of a `cell_size` grid over the raster that hold at least
/// one pixel brighter than `threshold`. Each such cell is listed once, in the
/// order in which a row-by-row scan first meets it.
pub fn sample_cells(raster: &Raster, cell_size: usize, threshold: u8) -> (cells: Vec<Cell>)
    requires
        raster.wf(),
        cell_size > 0,
    ensures
        forall|k: int|
            0 <= k < cells@.len() ==> occupied(raster, cell_size as int, threshold, #[trigger] cells@[k]),
        forall|c: Cell| occupied(raster, cell_size as int, threshold, c) ==> #[trigger] cells@.contains(c),
        forall|k1: int, k2: int| 0 <= k1 < k2 < cells@.len() ==> cells@[k1] != cells@[k2],
        in_scan_order(raster, cell_size as int, threshold, cells@),
{
    let w = raster.width;
    let h = raster.height;
    let cs = cell_size;
    let mut cells: Vec<Cell> = Vec::new();
    if w == 0 || h == 0 {
        proof {
            assert forall|c: Cell| occupied(raster, cs as int, threshold, c) implies #[trigger] cells@.contains(c) by {
                let (x, y) = choose|x: int, y: int| #[trigger] hit(raster, cs as int, threshold, x, y, c);
            }
        }
        return cells;
    }
    proof {
        lemma_cell_below(0, w as int, cs as int);
        lemma_cell_below(0, h as int, cs as int);
    }
    let cols: usize = w / cs + if w % cs == 0 { 0 } else { 1 };
    let rows: usize = h / cs + if h % cs == 0 { 0 } else { 1 };
    let mut visited: Vec<Vec<bool>> = Vec::new();
    let mut r: usize = 0;
    while r < rows
        invariant
            r <= rows,
            visited@.len() == r,
            forall|i: int| 0 <= i < r ==> (#[trigger] visited@[i])@.len() == cols,
            forall|i: int, j: int| 0 <= i < r && 0 <= j < cols ==> !(#[trigger] visited@[i]@[j]),
        decreases rows - r,
    {
        let mut line: Vec<bool> = Vec::new();
        let mut c: usize = 0;
        while c < cols
            invariant
                c <= cols,
                line@.len() == c,
                forall|j: int| 0 <= j < c ==> !(#[trigger] line@[j]),
            decreases cols - c,
        {
            line.push(false);
            c += 1;
        }
        visited.push(line);
        r += 1;
    }
    let ghost mut fx: Seq<int> = Seq::empty();
    let ghost mut fy: Seq<int> = Seq::empty();
    let total = raster.pixels.len();
    let mut y: usize = 0;
    while y < h
        invariant
            total == w * h,
            raster.wf(),
            w == raster.width,
            h == raster.height,
            w > 0,
            fx.len() == cells@.len(),
            fy.len() == cells@.len(),
            forall|k: int| 0 <= k < cells@.len() ==> hit(raster, cs as int, threshold, #[trigger] fx[k], fy[k], cells@[k]),
            forall|k: int, xx: int, yy: int|
                0 <= k < cells@.len() && #[trigger] hit(raster, cs as int, threshold, xx, yy, cells@[k])
                    ==> !scanned_before(xx, yy, fx[k], fy[k]),
            forall|k1: int, k2: int|
                #![trigger fx[k1], fx[k2]] 0 <= k1 < k2 < cells@.len() ==> scanned_before(fx[k1], fy[k1], fx[k2], fy[k2]),
            forall|k: int| 0 <= k < cells@.len() ==> #[trigger] fy[k] < y,
            cs == cell_size,
            cs > 0,
            cols == cells_for(w as int, cs as int),
            rows == cells_for(h as int, cs as int),
            y <= h,
            visited@.len() == rows,
            forall|i: int| 0 <= i < rows ==> (#[trigger] visited@[i])@.len() == cols,
            forall|i: int, j: int|
                0 <= i < rows && 0 <= j < cols ==> (#[trigger] visited@[i]@[j] <==> cells@.contains(
                    Cell { col: j as usize, row: i as usize },
                )),
            forall|k: int|
                0 <= k < cells@.len() ==> (#[trigger] cells@[k]).row < rows && cells@[k].col < cols
                    && occupied(raster, cs as int, threshold, cells@[k]),
            forall|k1: int, k2: int| 0 <= k1 < k2 < cells@.len() ==> cells@[k1] != cells@[k2],
            forall|xx: int, yy: int|
                0 <= xx < w && 0 <= yy < y && #[trigger] raster.bright(xx, yy, threshold)
                    ==> visited@[yy / cs as int]@[xx / cs as int],
        decreases h - y,
    {
        let mut x: usize = 0;
        while x < w
            invariant
                total == w * h,
                raster.wf(),
            fx.len() == cells@.len(),
                fy.len() == cells@.len(),
                forall|k: int| 0 <= k < cells@.len() ==> hit(raster, cs as int, threshold, #[trigger] fx[k], fy[k], cells@[k]),
                forall|k: int, xx: int, yy: int|
                    0 <= k < cells@.len() && #[trigger] hit(raster, cs as int, threshold, xx, yy, cells@[k])
                        ==> !scanned_before(xx, yy, fx[k], fy[k]),
                forall|k1: int, k2: int|
                    #![trigger fx[k1], fx[k2]] 0 <= k1 < k2 < cells@.len() ==> scanned_before(fx[k1], fy[k1], fx[k2], fy[k2]),
                forall|k: int| 0 <= k < cells@.len() ==> scanned_before(#[trigger] fx[k], fy[k], x as int, y as int),
                w == raster.width,
                h == raster.height,
                cs == cell_size,
                cs > 0,
                cols == cells_for(w as int, cs as int),
                rows == cells_for(h as int, cs as int),
                y < h,
                x <= w,
                visited@.len() == rows,
                forall|i: int| 0 <= i < rows ==> (#[trigger] visited@[i])@.len() == cols,
                forall|i: int, j: int|
                    0 <= i < rows && 0 <= j < cols ==> (#[trigger] visited@[i]@[j]
                        <==> cells@.contains(Cell { col: j as usize, row: i as usize })),
                forall|k: int|
                    0 <= k < cells@.len() ==> (#[trigger] cells@[k]).row < rows && cells@[k].col
                        < cols && occupied(raster, cs as int, threshold, cells@[k]),
                forall|k1: int, k2: int| 0 <= k1 < k2 < cells@.len() ==> cells@[k1] != cells@[k2],
                forall|xx: int, yy: int|
                    0 <= xx < w && 0 <= yy < y && #[trigger] raster.bright(xx, yy, threshold)
                        ==> visited@[yy / cs as int]@[xx / cs as int],
                forall|xx: int|
                    0 <= xx < x && #[trigger] raster.bright(xx, y as int, threshold)
                        ==> visited@[(y / cs) as int]@[xx / cs as int],
            decreases w - x,
        {
            proof {
                lemma_pixel_index(x as int, y as int, w as int, h as int);
                lemma_cell_below(x as int, w as int, cs as int);
                lemma_cell_below(y as int, h as int, cs as int);
            }
            let ghost v0 = visited@;
            let p = raster.pixels[y * w + x];
            if p > threshold {
                let col = x / cs;
                let row = y / cs;
                if !visited[row][col] {
                    let cell = Cell { col, row };
                    let ghost old_cells = cells@;
                    let ghost old_visited = visited@;
                    proof {
                        assert(hit(raster, cs as int, threshold, x as int, y as int, cell));
                    }
                    cells.push(cell);
                    proof {
                        let fx0 = fx;
                        let fy0 = fy;
                        fx = fx.push(x as int);
                        fy = fy.push(y as int);
                        assert forall|k: int| 0 <= k < cells@.len() implies hit(raster, cs as int, threshold, #[trigger] fx[k], fy[k], cells@[k]) by {
                            if k < old_cells.len() {
                                assert(cells@[k] == old_cells[k]);
                                assert(fx[k] == fx0[k] && fy[k] == fy0[k]);
                            }
                        }
                        assert forall|k: int, xx: int, yy: int|
                            0 <= k < cells@.len() && #[trigger] hit(raster, cs as int, threshold, xx, yy, cells@[k])
                                implies !scanned_before(xx, yy, fx[k], fy[k]) by {
                            if k < old_cells.len() {
                                assert(cells@[k] == old_cells[k]);
                                assert(fx[k] == fx0[k] && fy[k] == fy0[k]);
                                assert(hit(raster, cs as int, threshold, xx, yy, old_cells[k]));
                            } else {
                                if scanned_before(xx, yy, x as int, y as int) {
                                    assert(raster.bright(xx, yy, threshold));
                                    assert(old_visited[row as int]@[col as int]);
                                }
                            }
                        }
                        assert forall|k1: int, k2: int|
                            #![trigger fx[k1], fx[k2]] 0 <= k1 < k2 < cells@.len() implies scanned_before(fx[k1], fy[k1], fx[k2], fy[k2]) by {
                            assert(fx[k1] == fx0[k1] && fy[k1] == fy0[k1]);
                            if k2 < old_cells.len() {
                                assert(fx[k2] == fx0[k2] && fy[k2] == fy0[k2]);
                            }
                        }
                    }
                    let mut line = visited[row].clone();
                    line.set(col, true);
                    visited.set(row, line);
                    proof {
                        assert forall|i: int, j: int|
                            0 <= i < rows && 0 <= j < cols implies (#[trigger] visited@[i]@[j]
                            <==> cells@.contains(Cell { col: j as usize, row: i as usize })) by {
                            let cj = Cell { col: j as usize, row: i as usize };
                            if i == row && j == col {
                                assert(cells@[cells@.len() - 1] == cj);
                            } else {
                                assert(old_visited[i]@[j] == visited@[i]@[j]);
                                if old_cells.contains(cj) {
                                    let k = choose|k: int| 0 <= k < old_cells.len() && old_cells[k] == cj;
                                    assert(cells@[k] == cj);
                                }
                                if cells@.contains(cj) {
                                    let k = choose|k: int| 0 <= k < cells@.len() && cells@[k] == cj;
                                    assert(k < old_cells.len());
                                    assert(old_cells[k] == cj);
                                }
                            }
                        }
                        assert forall|k: int| 0 <= k < old_cells.len() implies cells@[k] != cell by {
                            assert(old_cells.contains(old_cells[k]));
                        }
                    }
                }
            }
            proof {
                assert forall|i: int, j: int|
                    0 <= i < rows && 0 <= j < cols && #[trigger] v0[i]@[j] implies visited@[i]@[j] by {
                    assert(v0[i]@[j] <==> cells@.contains(Cell { col: j as usize, row: i as usize })
                        || visited@[i]@[j]);
                }
                assert forall|xx: int, yy: int|
                    0 <= xx < w && 0 <= yy < y && #[trigger] raster.bright(xx, yy, threshold)
                        implies visited@[yy / cs as int]@[xx / cs as int] by {
                    lemma_cell_below(xx, w as int, cs as int);
                    lemma_cell_below(yy, h as int, cs as int);
                    assert(v0[yy / cs as int]@[xx / cs as int]);
                }
                assert forall|xx: int|
                    0 <= xx <= x && #[trigger] raster.bright(xx, y as int, threshold)
                        implies visited@[(y / cs) as int]@[xx / cs as int] by {
                    lemma_cell_below(xx, w as int, cs as int);
                    lemma_cell_below(y as int, h as int, cs as int);
                    if xx < x {
                        assert(v0[(y / cs) as int]@[xx / cs as int]);
                    }
                }
            }
            x += 1;
        }
        proof {
            assert forall|k: int| 0 <= k < cells@.len() implies #[trigger] fy[k] < y + 1 by {
                assert(scanned_before(fx[k], fy[k], x as int, y as int));
            }
        }
        y += 1;
    }
    proof {
        assert forall|c: Cell| occupied(raster, cs as int, threshold, c) implies #[trigger] cells@.contains(c) by {
            let (xx, yy) = choose|xx: int, yy: int| #[trigger] hit(raster, cs as int, threshold, xx, yy, c);
            lemma_cell_below(xx, w as int, cs as int);
            lemma_cell_below(yy, h as int, cs as int);
            assert(raster.bright(xx, yy, threshold));
            assert(visited@[c.row as int]@[c.col as int]);
        }
        let cs_i = cell_size as int;
        let cl = cells@;
        assert forall|k1: int, k2: int, x: int, y: int|
            #![trigger cl[k1], hit(raster, cs_i, threshold, x, y, cl[k2])]
            0 <= k1 < k2 < cl.len() && cl[k1] != cl[k2] && hit(raster, cs_i, threshold, x, y, cl[k2])
                implies exists|x1: int, y1: int|
                #![trigger hit(raster, cs_i, threshold, x1, y1, cl[k1])]
                hit(raster, cs_i, threshold, x1, y1, cl[k1]) && scanned_before(x1, y1, x, y) by {
            assert(hit(raster, cell_size as int, threshold, fx[k1], fy[k1], cells@[k1]));
            assert(!scanned_before(x, y, fx[k2], fy[k2]));
            assert(scanned_before(fx[k1], fy[k1], fx[k2], fy[k2]));
        }
        assert(in_scan_order(raster, cs_i, threshold, cl));
    }
    cells
}

/// The centre of cell `c` relative to the centre of a `width` by `height`
/// raster, with `y` pointing up, in half-pixel units (so that it is exact).
pub fn cell_center_doubled(width: usize, height: usize, cell_size: usize, c: Cell) -> (r: Vec2)
    requires
        in_range(
            (
                (2 * c.col + 1) * cell_size - width,
                height - (2 * c.row + 1) * cell_size,
            ),
        ),
    ensures
        r@ == ((2 * c.col + 1) * cell_size - width, height - (2 * c.row + 1) * cell_size),
{
    let x: i128 = (2 * c.col as i128 + 1) * cell_size as i128 - width as i128;
    let y: i128 = height as i128 - (2 * c.row as i128 + 1) * cell_size as i128;
    Vec2 { x: x as i64, y: y as i64 }
}

} // verus!
