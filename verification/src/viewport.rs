//! Visible-tile grid.
//!
//! Given the integer tile under the camera centre and how many tiles
//! are needed on each side of it (both found from the camera with Web
//! Mercator arithmetic), decide which `(x, y, z)` tiles to draw and at
//! which column / row offset from the centre tile. Rows past the poles
//! are dropped; columns wrap across the antimeridian.
use crate::source::TileKey;
use vstd::arithmetic::div_mod::{lemma_fundamental_div_mod, lemma_fundamental_div_mod_converse};
use vstd::prelude::*;

verus! {

/// One tile selected for display, with its offset in whole tiles from
/// the centre tile (`col` to the right, `row` downwards).
#[derive(Clone, Copy, Debug, PartialEq, Eq, Structural)]
pub struct GridTile {
    pub key: TileKey,
    pub col: i64,
    pub row: i64,
}

/// `2^z`, the number of tiles along each axis at zoom `z`.
pub open spec fn tiles_per_axis(z: u8) -> int {
    vstd::arithmetic::power2::pow2(z as nat) as int
}

/// First row drawn: the top of the requested band, clipped at the
/// north edge of the world.
pub open spec fn first_row(cy: i64, above: i64) -> int {
    if cy - above < 0 {
        0
    } else {
        cy - above
    }
}

/// Last row drawn: the bottom of the requested band, clipped at the
/// south edge of the world.
pub open spec fn last_row(z: u8, cy: i64, below: i64) -> int {
    if cy + below > tiles_per_axis(z) - 1 {
        tiles_per_axis(z) - 1
    } else {
        cy + below
    }
}

/// Number of rows drawn.
pub open spec fn row_count(z: u8, cy: i64, above: i64, below: i64) -> int {
    if last_row(z, cy, below) < first_row(cy, above) {
        0
    } else {
        last_row(z, cy, below) - first_row(cy, above) + 1
    }
}

/// Number of columns drawn per row.
pub open spec fn col_count(left: i64, right: i64) -> int {
    if left + right + 1 < 0 {
        0
    } else {
        left + right + 1
    }
}

/// The tile drawn at absolute tile row `ty` and (unwrapped) column `tx`.
pub open spec fn grid_cell(z: u8, cx: i64, cy: i64, tx: int, ty: int) -> GridTile {
    GridTile {
        key: TileKey { x: (tx % tiles_per_axis(z)) as u32, y: ty as u32, z },
        col: (tx - cx) as i64,
        row: (ty - cy) as i64,
    }
}

/// `t` wrapped into `[0, m)`: the Euclidean remainder.
fn wrap_index(t: i64, m: i64) -> (r: i64)
    requires
        m > 0,
    ensures
        r == t as int % m as int,
        0 <= r < m,
{
    if t >= 0 {
        t % m
    } else {
        let a: i64 = (-(t + 1)) % m;
        let r: i64 = m - 1 - a;
        proof {
            let q = (-(t + 1)) as int / m as int;
            lemma_fundamental_div_mod((-(t + 1)) as int, m as int);
            assert(t as int == (-q - 1) * m + r) by (nonlinear_arith)
                requires
                    (-(t + 1)) as int == m * q + a,
                    r == m - 1 - a,
            ;
            lemma_fundamental_div_mod_converse(t as int, m as int, -q - 1, r as int);
        }
        r
    }
}

/// The tiles to draw, row-major (top-to-bottom, left-to-right within a
/// row): rows `cy - above ..= cy + below` clipped to the world,
/// columns `cx - left ..= cx + right`, wrapped across the antimeridian.
/// At zoom 63 the world size `2^63` does not fit an `i64`; it
/// overflows to a negative count that clips every row, so the grid is
/// empty.
pub fn tile_grid(z: u8, cx: i64, cy: i64, left: i64, right: i64, above: i64, below: i64) -> (out: Vec<GridTile>)
    requires
        z < 64,
        i64::MIN <= cx - left <= i64::MAX,
        i64::MIN <= cx + right <= i64::MAX,
        i64::MIN <= cy - above <= i64::MAX,
        i64::MIN <= cy + below <= i64::MAX,
        i64::MIN <= left + right <= i64::MAX,
        i64::MIN <= above + below <= i64::MAX,
        i64::MIN <= (left + right) * (above + below) <= i64::MAX,
    ensures
        z == 63 ==> out@.len() == 0,
        z < 63 ==> out@.len() == row_count(z, cy, above, below) * col_count(left, right),
        z < 63 ==> forall|i: int|
            0 <= i < out@.len() ==> #[trigger] out@[i] == grid_cell(
                z,
                cx,
                cy,
                cx - left + i % col_count(left, right),
                first_row(cy, above) + i / col_count(left, right),
            ),
        z < 63 ==> forall|i: int|
            0 <= i < out@.len() ==> {
                &&& (#[trigger] out@[i]).key.x == ((cx - left + i % col_count(left, right))
                    % tiles_per_axis(z)) as u32
                &&& out@[i].key.y == (first_row(cy, above) + i / col_count(left, right)) as u32
                &&& out@[i].key.z == z
                &&& out@[i].col == cx - left + i % col_count(left, right) - cx
                &&& out@[i].row == first_row(cy, above) + i / col_count(left, right) - cy
            },
{
    if z >= 63 {
        return Vec::new();
    }
    let m64: u64 = 1u64 << (z as u64);
    proof {
        vstd::bits::lemma_u64_pow2_no_overflow(z as nat);
        vstd::bits::lemma_u64_shl_is_mul(1, z as u64);
        assert(1u64 << (z as u64) <= 0x7fff_ffff_ffff_ffffu64) by (bit_vector)
            requires
                z < 63,
        ;
    }
    let m: i64 = m64 as i64;
    let ghost ncols = col_count(left, right);
    let ghost r_lo = first_row(cy, above);
    let mut out: Vec<GridTile> = Vec::new();
    let x_lo: i64 = cx - left;
    let x_hi: i64 = cx + right;
    let y_lo: i64 = cy - above;
    let y_hi: i64 = cy + below;
    let r_first: i64 = if y_lo < 0 { 0 } else { y_lo };
    let r_last: i64 = if y_hi > m - 1 { m - 1 } else { y_hi };
    let mut ty: i64 = r_first;
    while ty <= r_last
        invariant
            m as int == tiles_per_axis(z),
            m > 0,
            x_lo == cx - left,
            x_hi == cx + right,
            ncols == col_count(left, right),
            r_lo == first_row(cy, above),
            r_first == r_lo,
            r_last == last_row(z, cy, below),
            r_first <= ty,
            ty <= r_last + 1 || r_last < r_first,
            r_last < r_first ==> ty == r_first,
            y_lo == cy - above,
            y_hi == cy + below,
            y_lo <= r_first,
            r_last <= y_hi,
            r_first >= 0,
            r_last < m,
            out@.len() == (ty - r_lo) * ncols,
            forall|i: int|
                0 <= i < out@.len() ==> #[trigger] out@[i] == grid_cell(
                    z,
                    cx,
                    cy,
                    cx - left + i % ncols,
                    r_lo + i / ncols,
                ),
        decreases r_last + 1 - ty,
    {
        let ghost base = out@.len();
        let mut tx: i64 = x_lo;
        let mut done_cols: bool = x_lo > x_hi;
        while !done_cols
            invariant
                m as int == tiles_per_axis(z),
                m > 0,
                0 <= ty < m,
                cy - above <= ty <= cy + below,
                x_lo == cx - left,
                x_hi == cx + right,
                ncols == col_count(left, right),
                r_lo == first_row(cy, above),
                r_lo <= ty,
                base == (ty - r_lo) * ncols,
                x_lo <= tx,
                !done_cols ==> tx <= x_hi,
                out@.len() == base + (if x_lo > x_hi {
                    0
                } else if done_cols {
                    ncols
                } else {
                    tx - x_lo
                }),
                forall|i: int|
                    0 <= i < out@.len() ==> #[trigger] out@[i] == grid_cell(
                        z,
                        cx,
                        cy,
                        cx - left + i % ncols,
                        r_lo + i / ncols,
                    ),
            decreases x_hi - tx, (if done_cols { 0int } else { 1int }),
        {
            let wx = wrap_index(tx, m);
            let ghost k = out@.len() as int;
            proof {
                lemma_fundamental_div_mod_converse(k, ncols, ty - r_lo, tx - x_lo);
            }
            out.push(GridTile {
                key: TileKey { x: wx as u32, y: ty as u32, z },
                col: tx - cx,
                row: ty - cy,
            });
            if tx == x_hi {
                done_cols = true;
            } else {
                tx = tx + 1;
            }
        }
        assert(out@.len() == (ty + 1 - r_lo) * ncols) by (nonlinear_arith)
            requires
                out@.len() == base + ncols,
                base == (ty - r_lo) * ncols,
        ;
        ty = ty + 1;
    }
    assert(out@.len() == row_count(z, cy, above, below) * col_count(left, right));
    assert forall|i: int| 0 <= i < out@.len() implies {
        &&& (#[trigger] out@[i]).key.x == ((cx - left + i % col_count(left, right)) % tiles_per_axis(
            z,
        )) as u32
        &&& out@[i].key.y == (first_row(cy, above) + i / col_count(left, right)) as u32
        &&& out@[i].key.z == z
        &&& out@[i].col == cx - left + i % col_count(left, right) - cx
        &&& out@[i].row == first_row(cy, above) + i / col_count(left, right) - cy
    } by {
        let n = col_count(left, right);
        assert(out@[i] == grid_cell(z, cx, cy, cx - left + i % n, first_row(cy, above) + i / n));
        assert(n > 0) by (nonlinear_arith)
            requires
                0 <= i < row_count(z, cy, above, below) * n,
                n >= 0,
                row_count(z, cy, above, below) >= 0,
        ;
        vstd::arithmetic::div_mod::lemma_fundamental_div_mod(i, n);
        assert(0 <= i / n) by (nonlinear_arith)
            requires
                i >= 0,
                n > 0,
        ;
        assert(i / n < row_count(z, cy, above, below)) by (nonlinear_arith)
            requires
                i == n * (i / n) + i % n,
                0 <= i % n < n,
                i < row_count(z, cy, above, below) * n,
                n > 0,
        ;
    }
    out
}

/// The arguments `tile_grid` accepts.
pub open spec fn grid_args_ok(z: u8, cx: i64, cy: i64, left: i64, right: i64, above: i64, below: i64) -> bool {
    &&& z < 63
    &&& i64::MIN <= cx - left <= i64::MAX
    &&& i64::MIN <= cx + right <= i64::MAX
    &&& i64::MIN <= cy - above <= i64::MAX
    &&& i64::MIN <= cy + below <= i64::MAX
}

/// Every drawn tile lies inside the world at its zoom: rows are
/// clipped at the poles and columns wrap across the antimeridian.
pub proof fn law_grid_tiles_are_in_world(
    z: u8,
    cx: i64,
    cy: i64,
    left: i64,
    right: i64,
    above: i64,
    below: i64,
    i: int,
)
    requires
        grid_args_ok(z, cx, cy, left, right, above, below),
        0 <= i < row_count(z, cy, above, below) * col_count(left, right),
    ensures
        ({
            let t = grid_cell(
                z,
                cx,
                cy,
                cx - left + i % col_count(left, right),
                first_row(cy, above) + i / col_count(left, right),
            );
            &&& (t.key.x as int) < tiles_per_axis(z)
            &&& (t.key.y as int) < tiles_per_axis(z)
            &&& t.key.z == z
        }),
{
    let n = col_count(left, right);
    let rows = row_count(z, cy, above, below);
    vstd::arithmetic::power2::lemma_pow2_pos(z as nat);
    vstd::arithmetic::power2::lemma2_to64();
    vstd::arithmetic::power2::lemma2_to64_rest();
    if z <= 32 {
        vstd::arithmetic::power2::lemma_pow2_strictly_increases(z as nat, 33);
    } else {
        vstd::arithmetic::power2::lemma_pow2_strictly_increases(32, z as nat);
    }
    assert(n > 0 && rows > 0) by (nonlinear_arith)
        requires
            0 <= i < rows * n,
            n >= 0,
            rows >= 0,
    ;
    lemma_fundamental_div_mod(i, n);
    assert(i / n < rows) by (nonlinear_arith)
        requires
            i == n * (i / n) + i % n,
            0 <= i % n < n,
            i < rows * n,
            n > 0,
    ;
    assert(0 <= i / n) by (nonlinear_arith)
        requires
            i >= 0,
            n > 0,
    ;
    let tx = cx - left + i % n;
    let m = tiles_per_axis(z);
    assert(0 <= tx % m < m);
}

/// No two drawn tiles share a pixel slot: distinct grid positions have
/// distinct (column, row) offsets.
pub proof fn law_grid_positions_are_distinct(
    z: u8,
    cx: i64,
    cy: i64,
    left: i64,
    right: i64,
    above: i64,
    below: i64,
    i: int,
    j: int,
)
    requires
        grid_args_ok(z, cx, cy, left, right, above, below),
        0 <= i < row_count(z, cy, above, below) * col_count(left, right),
        0 <= j < row_count(z, cy, above, below) * col_count(left, right),
        i != j,
    ensures
        ({
            let n = col_count(left, right);
            let a = grid_cell(z, cx, cy, cx - left + i % n, first_row(cy, above) + i / n);
            let b = grid_cell(z, cx, cy, cx - left + j % n, first_row(cy, above) + j / n);
            a.col != b.col || a.row != b.row
        }),
{
    let n = col_count(left, right);
    let rows = row_count(z, cy, above, below);
    assert(n > 0) by (nonlinear_arith)
        requires
            0 <= i < rows * n,
            n >= 0,
            rows >= 0,
    ;
    lemma_fundamental_div_mod(i, n);
    lemma_fundamental_div_mod(j, n);
    assert(i / n < rows && j / n < rows) by (nonlinear_arith)
        requires
            i == n * (i / n) + i % n,
            j == n * (j / n) + j % n,
            0 <= i % n < n,
            0 <= j % n < n,
            i < rows * n,
            j < rows * n,
            n > 0,
    ;
    assert(0 <= i / n && 0 <= j / n) by (nonlinear_arith)
        requires
            i >= 0,
            j >= 0,
            n > 0,
    ;
    if i % n == j % n && i / n == j / n {
        assert(i == j);
    }
    // the offsets are the positions shifted by constants and fit in i64
    assert(-left <= i % n - left <= right);
    assert(-left <= j % n - left <= right);
}

/// A band that reaches at least as far on every side yields at least
/// as many tiles.
pub proof fn law_wider_band_has_more_tiles(
    z: u8,
    cy: i64,
    left: i64,
    right: i64,
    above: i64,
    below: i64,
    left2: i64,
    right2: i64,
    above2: i64,
    below2: i64,
)
    requires
        left <= left2,
        right <= right2,
        above <= above2,
        below <= below2,
    ensures
        row_count(z, cy, above, below) * col_count(left, right) <= row_count(z, cy, above2, below2)
            * col_count(left2, right2),
{
    let r1 = row_count(z, cy, above, below);
    let r2 = row_count(z, cy, above2, below2);
    let c1 = col_count(left, right);
    let c2 = col_count(left2, right2);
    assert(0 <= r1 <= r2);
    assert(0 <= c1 <= c2);
    assert(r1 * c1 <= r2 * c2) by (nonlinear_arith)
        requires
            0 <= r1 <= r2,
            0 <= c1 <= c2,
    ;
}

/// Columns wrap across the antimeridian: two drawn cells of one row
/// whose unwrapped columns are a world width `2^z` apart show the same
/// tile column, and every drawn column is the unwrapped one taken
/// modulo `2^z`.
pub proof fn law_grid_columns_wrap(
    z: u8,
    cx: i64,
    cy: i64,
    left: i64,
    right: i64,
    above: i64,
    below: i64,
    i: int,
    j: int,
)
    requires
        grid_args_ok(z, cx, cy, left, right, above, below),
        0 <= i < row_count(z, cy, above, below) * col_count(left, right),
        0 <= j < row_count(z, cy, above, below) * col_count(left, right),
        i / col_count(left, right) == j / col_count(left, right),
        i % col_count(left, right) == j % col_count(left, right) + tiles_per_axis(z),
    ensures
        ({
            let n = col_count(left, right);
            let a = grid_cell(z, cx, cy, cx - left + i % n, first_row(cy, above) + i / n);
            let b = grid_cell(z, cx, cy, cx - left + j % n, first_row(cy, above) + j / n);
            &&& a.key == b.key
            &&& 0 <= a.key.x as int
            &&& a.key.x as int == ((cx - left + i % n) % tiles_per_axis(z)) as u32
        }),
{
    let n = col_count(left, right);
    let m = tiles_per_axis(z);
    vstd::arithmetic::power2::lemma_pow2_pos(z as nat);
    let tj = cx - left + j % n;
    vstd::arithmetic::div_mod::lemma_mod_add_multiples_vanish(tj, m);
    assert(cx - left + i % n == tj + m);
}

} // verus!
