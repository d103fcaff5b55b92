//! The grid of tiles in which frames are sent, and the pace at which they are.

use vstd::prelude::*;

use crate::frame::{covered, Rect};
use crate::rows::{lemma_piece_bounds, piece_count};

verus! {

/// How frames are quantized and cut up.
#[derive(Debug, Clone, Copy, PartialEq, Eq, Structural)]
pub struct CompressionMode {
    /// Laid over every byte of every pixel.
    pub mask: u8,
    /// Columns of a tile.
    pub tile_w: usize,
    /// Rows of a tile.
    pub tile_h: usize,
}

impl CompressionMode {
    /// Whether a frame can be cut into tiles of this size.
    pub open spec fn valid(self) -> bool {
        &&& 0 < self.tile_w <= usize::MAX - u16::MAX
        &&& 0 < self.tile_h <= usize::MAX - u16::MAX
    }

    /// Whether a frame can be cut into tiles of this size.
    pub fn is_valid(&self) -> (r: bool)
        ensures
            r == self.valid(),
    {
        let limit: usize = usize::MAX - 65535;
        0 < self.tile_w && self.tile_w <= limit && 0 < self.tile_h && self.tile_h <= limit
    }
}

/// The tile in column `c` and row `r` of the grid over an area of the given size.
pub open spec fn grid_tile(mode: CompressionMode, width: int, height: int, c: int, r: int) -> Rect {
    Rect {
        x: (c * mode.tile_w) as usize,
        y: (r * mode.tile_h) as usize,
        width: (if width - c * mode.tile_w < mode.tile_w {
            width - c * mode.tile_w
        } else {
            mode.tile_w as int
        }) as usize,
        height: (if height - r * mode.tile_h < mode.tile_h {
            height - r * mode.tile_h
        } else {
            mode.tile_h as int
        }) as usize,
    }
}

/// Whether a pixel of the tile is a changed one.
pub open spec fn tile_dirty(tile: Rect, changed: spec_fn(int, int) -> bool) -> bool {
    exists|px: int, py: int| #[trigger] tile.covers(px, py) && changed(px, py)
}

/// The tiles with changed pixels among the first `n`, row by row.
pub open spec fn dirty_tiles(
    mode: CompressionMode,
    width: int,
    height: int,
    changed: spec_fn(int, int) -> bool,
    n: int,
) -> Seq<Rect>
    decreases n,
{
    if n <= 0 {
        Seq::empty()
    } else {
        let cols = piece_count(width, mode.tile_w as int);
        let before = dirty_tiles(mode, width, height, changed, n - 1);
        let tile = grid_tile(mode, width, height, (n - 1) % cols, (n - 1) / cols);
        if tile_dirty(tile, changed) {
            before.push(tile)
        } else {
            before
        }
    }
}

/// Number of tiles in the grid.
pub open spec fn grid_size(mode: CompressionMode, width: int, height: int) -> int {
    piece_count(width, mode.tile_w as int) * piece_count(height, mode.tile_h as int)
}

/// Whether the rectangle and the tile in column `c` and row `r` share a pixel.
spec fn hits(mode: CompressionMode, rect: Rect, c: int, r: int) -> bool {
    &&& c * mode.tile_w < rect.x + rect.width
    &&& rect.x < (c + 1) * mode.tile_w
    &&& r * mode.tile_h < rect.y + rect.height
    &&& rect.y < (r + 1) * mode.tile_h
}

/// The mark of the tile in column `c` and row `r`.
spec fn mark(dirty: Seq<bool>, cols: int, c: int, r: int) -> bool {
    dirty[r * cols + c]
}

/// Whether one of the rectangles shares a pixel with the tile.
spec fn hit(mode: CompressionMode, rects: Seq<Rect>, c: int, r: int) -> bool {
    exists|i: int| 0 <= i < rects.len() && hits(mode, #[trigger] rects[i], c, r)
}

/// A tile of the grid lies in the area and is not empty.
pub proof fn lemma_grid_tile(mode: CompressionMode, width: int, height: int, c: int, r: int)
    requires
        mode.valid(),
        0 <= width <= u16::MAX,
        0 <= height <= u16::MAX,
        0 <= c < piece_count(width, mode.tile_w as int),
        0 <= r < piece_count(height, mode.tile_h as int),
    ensures
        ({
            let tile = grid_tile(mode, width, height, c, r);
            &&& tile.within(width, height)
            &&& 0 < tile.width <= mode.tile_w
            &&& 0 < tile.height <= mode.tile_h
            &&& tile.x == c * mode.tile_w
            &&& tile.y == r * mode.tile_h
        }),
{
    lemma_piece_bounds(width, mode.tile_w as int, c);
    lemma_piece_bounds(height, mode.tile_h as int, r);
}

/// Every pixel of the area lies in the tile whose column and row come from dividing its own.
pub proof fn lemma_pixel_in_grid(mode: CompressionMode, width: int, height: int, px: int, py: int)
    requires
        mode.valid(),
        width <= u16::MAX,
        height <= u16::MAX,
        0 <= px < width,
        0 <= py < height,
    ensures
        ({
            let c = px / mode.tile_w as int;
            let r = py / mode.tile_h as int;
            &&& 0 <= c < piece_count(width, mode.tile_w as int)
            &&& 0 <= r < piece_count(height, mode.tile_h as int)
            &&& grid_tile(mode, width, height, c, r).covers(px, py)
        }),
{
    lemma_index_in_pieces(width, mode.tile_w as int, px);
    lemma_index_in_pieces(height, mode.tile_h as int, py);
    lemma_grid_tile(mode, width, height, px / mode.tile_w as int, py / mode.tile_h as int);
}

proof fn lemma_index_in_pieces(len: int, size: int, at: int)
    requires
        size > 0,
        0 <= at < len,
    ensures
        0 <= at / size < piece_count(len, size),
        (at / size) * size <= at < (at / size) * size + size,
{
    let q = at / size;
    let n = piece_count(len, size);
    vstd::arithmetic::div_mod::lemma_fundamental_div_mod(at, size);
    vstd::arithmetic::div_mod::lemma_fundamental_div_mod(len + size - 1, size);
    assert(q * size == size * q) by (nonlinear_arith);
    assert(q >= 0) by (nonlinear_arith)
        requires
            at == size * q + at % size,
            at % size < size,
            at >= 0,
            size > 0,
    ;
    assert(q < n) by (nonlinear_arith)
        requires
            at == size * q + at % size,
            at % size >= 0,
            len + size - 1 == size * n + (len + size - 1) % size,
            (len + size - 1) % size < size,
            at < len,
            size > 0,
    ;
}

/// Two tiles of the grid that share a pixel are the same tile.
pub proof fn lemma_grid_disjoint(
    mode: CompressionMode,
    width: int,
    height: int,
    c1: int,
    r1: int,
    c2: int,
    r2: int,
    px: int,
    py: int,
)
    requires
        mode.valid(),
        0 <= width <= u16::MAX,
        0 <= height <= u16::MAX,
        0 <= c1 < piece_count(width, mode.tile_w as int),
        0 <= r1 < piece_count(height, mode.tile_h as int),
        0 <= c2 < piece_count(width, mode.tile_w as int),
        0 <= r2 < piece_count(height, mode.tile_h as int),
        grid_tile(mode, width, height, c1, r1).covers(px, py),
        grid_tile(mode, width, height, c2, r2).covers(px, py),
    ensures
        c1 == c2,
        r1 == r2,
{
    lemma_grid_tile(mode, width, height, c1, r1);
    lemma_grid_tile(mode, width, height, c2, r2);
    let tw = mode.tile_w as int;
    let th = mode.tile_h as int;
    crate::frame::lemma_cell_distinct(tw, c1, px - c1 * tw, c2, px - c2 * tw);
    crate::frame::lemma_cell_distinct(th, r1, py - r1 * th, r2, py - r2 * th);
}

proof fn lemma_hit(mode: CompressionMode, width: int, height: int, rects: Seq<Rect>, c: int, r: int)
    requires
        mode.valid(),
        0 <= width <= u16::MAX,
        0 <= height <= u16::MAX,
        0 <= c < piece_count(width, mode.tile_w as int),
        0 <= r < piece_count(height, mode.tile_h as int),
        forall|i: int|
            0 <= i < rects.len() ==> (#[trigger] rects[i]).within(width, height) && rects[i].width > 0
                && rects[i].height > 0,
    ensures
        hit(mode, rects, c, r) <==> tile_dirty(
            grid_tile(mode, width, height, c, r),
            |px: int, py: int| covered(rects, px, py),
        ),
{
    let tile = grid_tile(mode, width, height, c, r);
    let changed = |px: int, py: int| covered(rects, px, py);
    lemma_grid_tile(mode, width, height, c, r);
    lemma_piece_bounds(width, mode.tile_w as int, c);
    lemma_piece_bounds(height, mode.tile_h as int, r);
    if hit(mode, rects, c, r) {
        let i = choose|i: int| 0 <= i < rects.len() && hits(mode, #[trigger] rects[i], c, r);
        let rect = rects[i];
        let px = if rect.x < tile.x {
            tile.x as int
        } else {
            rect.x as int
        };
        let py = if rect.y < tile.y {
            tile.y as int
        } else {
            rect.y as int
        };
        assert(rects[i].covers(px, py));
        assert(covered(rects, px, py));
        assert(tile.covers(px, py) && changed(px, py));
    }
    if tile_dirty(tile, changed) {
        let (px, py) = choose|px: int, py: int| #[trigger] tile.covers(px, py) && changed(px, py);
        let i = choose|i: int| 0 <= i < rects.len() && (#[trigger] rects[i]).covers(px, py);
        assert(hits(mode, rects[i], c, r));
    }
}

/// Marks the tiles that share a pixel with the rectangle.
fn mark_rect(dirty: &mut Vec<bool>, cols: usize, rows: usize, mode: CompressionMode, rect: Rect)
    requires
        mode.valid(),
        old(dirty)@.len() == cols * rows,
        rect.width > 0,
        rect.height > 0,
        rect.x + rect.width <= u16::MAX,
        rect.y + rect.height <= u16::MAX,
        rect.x + rect.width <= cols * mode.tile_w,
        rect.y + rect.height <= rows * mode.tile_h,
    ensures
        final(dirty)@.len() == old(dirty)@.len(),
        forall|c: int, r: int|
            0 <= c < cols && 0 <= r < rows ==> (#[trigger] mark(final(dirty)@, cols as int, c, r) <==> mark(old(dirty)@, cols as int, c, r) || hits(mode, rect, c, r)),
{
    let start_col: usize = rect.x / mode.tile_w;
    let end_all: usize = (rect.x + rect.width + mode.tile_w - 1) / mode.tile_w;
    let end_col: usize = if end_all < cols {
        end_all
    } else {
        cols
    };
    let start_row: usize = rect.y / mode.tile_h;
    let end_rows: usize = (rect.y + rect.height + mode.tile_h - 1) / mode.tile_h;
    let end_row: usize = if end_rows < rows {
        end_rows
    } else {
        rows
    };
    let ghost before = dirty@;
    proof {
        assert forall|c: int| #![trigger c * mode.tile_w] 0 <= c < cols implies (start_col <= c < end_col <==> c * mode.tile_w
            < rect.x + rect.width && rect.x < (c + 1) * mode.tile_w) by {
            lemma_touch(rect.x as int, rect.x + rect.width, mode.tile_w as int, c);
        }
        assert forall|r: int| #![trigger r * mode.tile_h] 0 <= r < rows implies (start_row <= r < end_row <==> r * mode.tile_h
            < rect.y + rect.height && rect.y < (r + 1) * mode.tile_h) by {
            lemma_touch(rect.y as int, rect.y + rect.height, mode.tile_h as int, r);
        }
    }
    let mut r: usize = start_row;
    while r < end_row
        invariant
            start_row <= r,
            r <= end_row || r == start_row,
            end_row <= rows,
            end_col <= cols,
            dirty@.len() == cols * rows,
            before.len() == dirty@.len(),
            forall|cc: int, rr: int|
                0 <= cc < cols && 0 <= rr < rows ==> (#[trigger] mark(dirty@, cols as int, cc, rr) <==> mark(before, cols as int, cc, rr) || (start_row <= rr < r && start_col <= cc < end_col)),
        decreases end_row - r,
    {
        let mut c: usize = start_col;
        while c < end_col
            invariant
                start_row <= r < end_row,
                end_row <= rows,
                start_col <= c,
                c <= end_col || c == start_col,
                end_col <= cols,
                dirty@.len() == cols * rows,
                before.len() == dirty@.len(),
                forall|cc: int, rr: int|
                    0 <= cc < cols && 0 <= rr < rows ==> (#[trigger] mark(dirty@, cols as int, cc, rr)
                        <==> mark(before, cols as int, cc, rr) || (start_row <= rr < r && start_col <= cc
                        < end_col) || (rr == r && start_col <= cc < c)),
            decreases end_col - c,
        {
            let ghost mid = dirty@;
            let len: usize = dirty.len();
            proof {
                lemma_grid_index(cols as int, rows as int, c as int, r as int);
            }
            let at: usize = r * cols + c;
            dirty.set(at, true);
            assert forall|cc: int, rr: int|
                0 <= cc < cols && 0 <= rr < rows implies (#[trigger] mark(dirty@, cols as int, cc, rr)
                <==> mark(before, cols as int, cc, rr) || (start_row <= rr < r && start_col <= cc < end_col) || (
            rr == r && start_col <= cc < c + 1)) by {
                lemma_grid_index(cols as int, rows as int, cc, rr);
                assert(mark(mid, cols as int, cc, rr) <==> mark(before, cols as int, cc, rr) || (start_row <= rr < r && start_col
                    <= cc < end_col) || (rr == r && start_col <= cc < c));
                if rr * cols + cc == at {
                    crate::frame::lemma_cell_distinct(cols as int, rr, cc, r as int, c as int);
                }
            }
            c = c + 1;
        }
        r = r + 1;
    }
    assert forall|cc: int, rr: int| 0 <= cc < cols && 0 <= rr < rows implies (#[trigger] mark(dirty@, cols as int, cc, rr) <==> mark(before, cols as int, cc, rr) || hits(mode, rect, cc, rr)) by {
        assert(start_col <= cc < end_col <==> cc * mode.tile_w < rect.x + rect.width && rect.x < (cc + 1)
            * mode.tile_w);
        assert(start_row <= rr < end_row <==> rr * mode.tile_h < rect.y + rect.height && rect.y < (rr
            + 1) * mode.tile_h);
    }
}

proof fn lemma_grid_index(cols: int, rows: int, c: int, r: int)
    requires
        0 <= c < cols,
        0 <= r < rows,
    ensures
        0 <= r * cols + c < cols * rows,
        r * cols >= 0,
        (r * cols + c) % cols == c,
        (r * cols + c) / cols == r,
{
    assert(0 <= r * cols && r * cols + c < cols * rows) by (nonlinear_arith)
        requires
            0 <= c < cols,
            0 <= r < rows,
    ;
    vstd::arithmetic::div_mod::lemma_fundamental_div_mod_converse(r * cols + c, cols, r, c);
}

/// A run from `from` to `to` reaches the piece `c` exactly where its end pieces enclose it.
proof fn lemma_touch(from: int, to: int, size: int, c: int)
    requires
        0 <= from < to,
        size > 0,
        c >= 0,
    ensures
        from / size <= c < (to + size - 1) / size <==> c * size < to && from < (c + 1) * size,
{
    let a = from / size;
    let b = (to + size - 1) / size;
    vstd::arithmetic::div_mod::lemma_fundamental_div_mod(from, size);
    vstd::arithmetic::div_mod::lemma_fundamental_div_mod(to + size - 1, size);
    assert(a <= c <==> from < (c + 1) * size) by (nonlinear_arith)
        requires
            from == size * a + from % size,
            0 <= from % size < size,
            size > 0,
    ;
    assert(c < b <==> c * size < to) by (nonlinear_arith)
        requires
            to + size - 1 == size * b + (to + size - 1) % size,
            0 <= (to + size - 1) % size < size,
            size > 0,
    ;
}

/// What changed pixels are counts only inside the area.
pub proof fn lemma_dirty_tiles_agree(
    mode: CompressionMode,
    width: int,
    height: int,
    changed1: spec_fn(int, int) -> bool,
    changed2: spec_fn(int, int) -> bool,
    n: int,
)
    requires
        mode.valid(),
        0 <= width <= u16::MAX,
        0 <= height <= u16::MAX,
        0 <= n <= grid_size(mode, width, height),
        forall|px: int, py: int|
            0 <= px < width && 0 <= py < height ==> #[trigger] changed1(px, py) == changed2(px, py),
    ensures
        dirty_tiles(mode, width, height, changed1, n) == dirty_tiles(mode, width, height, changed2, n),
    decreases n,
{
    if n > 0 {
        lemma_dirty_tiles_agree(mode, width, height, changed1, changed2, n - 1);
        let cols = piece_count(width, mode.tile_w as int);
        let rows = piece_count(height, mode.tile_h as int);
        lemma_grid_place(cols, rows, n - 1);
        lemma_grid_tile(mode, width, height, (n - 1) % cols, (n - 1) / cols);
        let tile = grid_tile(mode, width, height, (n - 1) % cols, (n - 1) / cols);
        if tile_dirty(tile, changed1) {
            let (px, py) = choose|px: int, py: int| #[trigger] tile.covers(px, py) && changed1(px, py);
            assert(tile.covers(px, py) && changed2(px, py));
        }
        if tile_dirty(tile, changed2) {
            let (px, py) = choose|px: int, py: int| #[trigger] tile.covers(px, py) && changed2(px, py);
            assert(changed1(px, py) == changed2(px, py));
            assert(tile.covers(px, py) && changed1(px, py));
        }
    }
}

proof fn lemma_grid_place(cols: int, rows: int, i: int)
    requires
        cols >= 0,
        rows >= 0,
        0 <= i < cols * rows,
    ensures
        cols > 0,
        0 <= i % cols < cols,
        0 <= i / cols < rows,
        (i / cols) * cols + i % cols == i,
{
    assert(cols > 0) by (nonlinear_arith)
        requires
            cols >= 0,
            rows >= 0,
            0 < cols * rows,
    ;
    vstd::arithmetic::div_mod::lemma_fundamental_div_mod(i, cols);
    let q = i / cols;
    assert(0 <= q < rows) by (nonlinear_arith)
        requires
            i == cols * q + i % cols,
            0 <= i % cols < cols,
            0 <= i < cols * rows,
    ;
    assert(q * cols == cols * q) by (nonlinear_arith);
}

/// Every tile that is sent is a tile of the grid with a changed pixel.
pub proof fn lemma_dirty_tiles_sound(
    mode: CompressionMode,
    width: int,
    height: int,
    changed: spec_fn(int, int) -> bool,
    n: int,
)
    requires
        mode.valid(),
        0 <= width <= u16::MAX,
        0 <= height <= u16::MAX,
        0 <= n <= grid_size(mode, width, height),
    ensures
        dirty_tiles(mode, width, height, changed, n).len() <= n,
        forall|k: int|
            0 <= k < dirty_tiles(mode, width, height, changed, n).len() ==> {
                let tile = #[trigger] dirty_tiles(mode, width, height, changed, n)[k];
                &&& tile.within(width, height)
                &&& 0 < tile.width <= mode.tile_w
                &&& 0 < tile.height <= mode.tile_h
                &&& tile_dirty(tile, changed)
            },
    decreases n,
{
    if n > 0 {
        lemma_dirty_tiles_sound(mode, width, height, changed, n - 1);
        let cols = piece_count(width, mode.tile_w as int);
        lemma_grid_place(cols, piece_count(height, mode.tile_h as int), n - 1);
        lemma_grid_tile(mode, width, height, (n - 1) % cols, (n - 1) / cols);
    }
}

/// Every changed pixel of the area lies in a tile that is sent.
pub proof fn lemma_dirty_tiles_cover(
    mode: CompressionMode,
    width: int,
    height: int,
    changed: spec_fn(int, int) -> bool,
    px: int,
    py: int,
)
    requires
        mode.valid(),
        width <= u16::MAX,
        height <= u16::MAX,
        0 <= px < width,
        0 <= py < height,
        changed(px, py),
    ensures
        covered(dirty_tiles(mode, width, height, changed, grid_size(mode, width, height)), px, py),
{
    let c = px / mode.tile_w as int;
    let r = py / mode.tile_h as int;
    let cols = piece_count(width, mode.tile_w as int);
    let rows = piece_count(height, mode.tile_h as int);
    lemma_pixel_in_grid(mode, width, height, px, py);
    lemma_grid_index(cols, rows, c, r);
    let tile = grid_tile(mode, width, height, c, r);
    assert(tile.covers(px, py) && changed(px, py));
    lemma_dirty_tiles_has(mode, width, height, changed, r * cols + c, grid_size(mode, width, height));
    let all = dirty_tiles(mode, width, height, changed, grid_size(mode, width, height));
    let k = choose|k: int| 0 <= k < all.len() && #[trigger] all[k] == tile;
    assert(all[k].covers(px, py));
}

proof fn lemma_dirty_tiles_has(
    mode: CompressionMode,
    width: int,
    height: int,
    changed: spec_fn(int, int) -> bool,
    i: int,
    n: int,
)
    requires
        0 <= i < n,
        ({
            let cols = piece_count(width, mode.tile_w as int);
            tile_dirty(grid_tile(mode, width, height, i % cols, i / cols), changed)
        }),
    ensures
        ({
            let cols = piece_count(width, mode.tile_w as int);
            let all = dirty_tiles(mode, width, height, changed, n);
            exists|k: int|
                0 <= k < all.len() && #[trigger] all[k] == grid_tile(
                    mode,
                    width,
                    height,
                    i % cols,
                    i / cols,
                )
        }),
    decreases n,
{
    let cols = piece_count(width, mode.tile_w as int);
    let all = dirty_tiles(mode, width, height, changed, n);
    let tile = grid_tile(mode, width, height, i % cols, i / cols);
    if i == n - 1 {
        assert(all[all.len() - 1] == tile);
    } else {
        lemma_dirty_tiles_has(mode, width, height, changed, i, n - 1);
        let before = dirty_tiles(mode, width, height, changed, n - 1);
        let k = choose|k: int| 0 <= k < before.len() && #[trigger] before[k] == tile;
        assert(all[k] == tile);
    }
}

/// The tiles of the grid that share a pixel with one of the rectangles, row by row.
pub fn tiles_of(mode: CompressionMode, width: u16, height: u16, diffs: &Vec<Rect>) -> (r: Vec<Rect>)
    requires
        mode.valid(),
        forall|i: int|
            0 <= i < diffs@.len() ==> (#[trigger] diffs@[i]).within(width as int, height as int)
                && diffs@[i].width > 0 && diffs@[i].height > 0,
    ensures
        r@ == dirty_tiles(
            mode,
            width as int,
            height as int,
            |px: int, py: int| covered(diffs@, px, py),
            grid_size(mode, width as int, height as int),
        ),
{
    let full_width: usize = width as usize;
    let full_height: usize = height as usize;
    let cols: usize = (full_width + mode.tile_w - 1) / mode.tile_w;
    let rows: usize = (full_height + mode.tile_h - 1) / mode.tile_h;
    proof {
        lemma_grid_bounds(mode, width as int, height as int);
    }
    let total: usize = cols * rows;
    let mut dirty: Vec<bool> = vec![false; total];
    assert forall|c: int, r: int| 0 <= c < cols && 0 <= r < rows implies !(#[trigger] mark(
        dirty@,
        cols as int,
        c,
        r,
    )) by {
        lemma_grid_index(cols as int, rows as int, c, r);
    }
    let mut i: usize = 0;
    while i < diffs.len()
        invariant
            i <= diffs@.len(),
            mode.valid(),
            dirty@.len() == cols * rows,
            width <= cols * mode.tile_w,
            height <= rows * mode.tile_h,
            forall|k: int|
                0 <= k < diffs@.len() ==> (#[trigger] diffs@[k]).within(width as int, height as int)
                    && diffs@[k].width > 0 && diffs@[k].height > 0,
            forall|c: int, r: int|
                0 <= c < cols && 0 <= r < rows ==> (#[trigger] mark(dirty@, cols as int, c, r) <==> hit(
                    mode,
                    diffs@.take(i as int),
                    c,
                    r,
                )),
        decreases diffs@.len() - i,
    {
        let ghost before = dirty@;
        let rect = diffs[i];
        assert(diffs@[i as int].within(width as int, height as int));
        mark_rect(&mut dirty, cols, rows, mode, rect);
        assert forall|c: int, r: int| 0 <= c < cols && 0 <= r < rows implies (#[trigger] mark(
            dirty@,
            cols as int,
            c,
            r,
        ) <==> hit(mode, diffs@.take(i + 1), c, r)) by {
            let done = diffs@.take(i as int);
            let next = diffs@.take(i + 1);
            assert(mark(before, cols as int, c, r) <==> hit(mode, done, c, r));
            if hit(mode, done, c, r) {
                let k = choose|k: int| 0 <= k < done.len() && hits(mode, #[trigger] done[k], c, r);
                assert(hits(mode, next[k], c, r));
            }
            if hits(mode, rect, c, r) {
                assert(hits(mode, next[i as int], c, r));
            }
            if hit(mode, next, c, r) {
                let k = choose|k: int| 0 <= k < next.len() && hits(mode, #[trigger] next[k], c, r);
                if k < i {
                    assert(hits(mode, done[k], c, r));
                }
            }
        }
        i = i + 1;
    }
    assert(diffs@.take(i as int) =~= diffs@);
    let ghost changed = |px: int, py: int| covered(diffs@, px, py);
    let mut tiles: Vec<Rect> = Vec::new();
    let mut r: usize = 0;
    while r < rows
        invariant
            r <= rows,
            mode.valid(),
            cols == piece_count(width as int, mode.tile_w as int),
            rows == piece_count(height as int, mode.tile_h as int),
            full_width == width,
            full_height == height,
            dirty@.len() == cols * rows,
            total == cols * rows,
            forall|cc: int, rr: int|
                0 <= cc < cols && 0 <= rr < rows ==> (#[trigger] mark(dirty@, cols as int, cc, rr)
                    <==> hit(mode, diffs@, cc, rr)),
            forall|k: int|
                0 <= k < diffs@.len() ==> (#[trigger] diffs@[k]).within(width as int, height as int)
                    && diffs@[k].width > 0 && diffs@[k].height > 0,
            changed == (|px: int, py: int| covered(diffs@, px, py)),
            tiles@ == dirty_tiles(mode, width as int, height as int, changed, r * cols),
        decreases rows - r,
    {
        let mut c: usize = 0;
        while c < cols
            invariant
                r < rows,
                c <= cols,
                mode.valid(),
                cols == piece_count(width as int, mode.tile_w as int),
                rows == piece_count(height as int, mode.tile_h as int),
                full_width == width,
                full_height == height,
                dirty@.len() == cols * rows,
                total == cols * rows,
                forall|cc: int, rr: int|
                    0 <= cc < cols && 0 <= rr < rows ==> (#[trigger] mark(dirty@, cols as int, cc, rr)
                        <==> hit(mode, diffs@, cc, rr)),
                forall|k: int|
                    0 <= k < diffs@.len() ==> (#[trigger] diffs@[k]).within(
                        width as int,
                        height as int,
                    ) && diffs@[k].width > 0 && diffs@[k].height > 0,
                changed == (|px: int, py: int| covered(diffs@, px, py)),
                tiles@ == dirty_tiles(mode, width as int, height as int, changed, r * cols + c),
            decreases cols - c,
        {
            proof {
                lemma_grid_index(cols as int, rows as int, c as int, r as int);
                lemma_hit(mode, width as int, height as int, diffs@, c as int, r as int);
                lemma_grid_tile(mode, width as int, height as int, c as int, r as int);
                lemma_piece_bounds(width as int, mode.tile_w as int, c as int);
                lemma_piece_bounds(height as int, mode.tile_h as int, r as int);
                assert(mark(dirty@, cols as int, c as int, r as int) <==> hit(mode, diffs@, c as int, r as int));
            }
            if dirty[r * cols + c] {
                let x: usize = c * mode.tile_w;
                let y: usize = r * mode.tile_h;
                let w: usize = if full_width - x < mode.tile_w {
                    full_width - x
                } else {
                    mode.tile_w
                };
                let h: usize = if full_height - y < mode.tile_h {
                    full_height - y
                } else {
                    mode.tile_h
                };
                tiles.push(Rect { x, y, width: w, height: h });
            }
            c = c + 1;
        }
        assert((r + 1) * cols == r * cols + cols) by (nonlinear_arith);
        r = r + 1;
    }
    assert(rows * cols == cols * rows) by (nonlinear_arith);
    tiles
}

pub proof fn lemma_grid_bounds(mode: CompressionMode, width: int, height: int)
    requires
        mode.valid(),
        0 <= width <= u16::MAX,
        0 <= height <= u16::MAX,
    ensures
        0 <= piece_count(width, mode.tile_w as int) <= width,
        0 <= piece_count(height, mode.tile_h as int) <= height,
        width <= piece_count(width, mode.tile_w as int) * mode.tile_w,
        height <= piece_count(height, mode.tile_h as int) * mode.tile_h,
        0 <= grid_size(mode, width, height) <= width * height <= u32::MAX,
{
    lemma_pieces_bound(width, mode.tile_w as int);
    lemma_pieces_bound(height, mode.tile_h as int);
    let cols = piece_count(width, mode.tile_w as int);
    let rows = piece_count(height, mode.tile_h as int);
    assert(0 <= cols * rows <= width * height <= u32::MAX) by (nonlinear_arith)
        requires
            0 <= cols <= width <= u16::MAX,
            0 <= rows <= height <= u16::MAX,
    ;
}

proof fn lemma_pieces_bound(len: int, size: int)
    requires
        len >= 0,
        size > 0,
    ensures
        0 <= piece_count(len, size) <= len,
        len <= piece_count(len, size) * size,
{
    let n = piece_count(len, size);
    vstd::arithmetic::div_mod::lemma_fundamental_div_mod(len + size - 1, size);
    assert(0 <= n <= len && len <= n * size) by (nonlinear_arith)
        requires
            len + size - 1 == size * n + (len + size - 1) % size,
            0 <= (len + size - 1) % size < size,
            len >= 0,
            size > 0,
    ;
}

/// Nanoseconds of a millisecond.
pub const NANOS_PER_MILLI: u64 = 1_000_000;

/// Milliseconds between two updates in which `dirty` of `total` tiles change.
///
/// A share of up to 5% goes out at once. Larger ones wait, so that the intermediate frames of an
/// animation are left out.
pub open spec fn cooldown_millis(dirty: int, total: int) -> int {
    if dirty * 100 <= total * 5 {
        0
    } else if dirty * 100 <= total * 10 {
        33
    } else if dirty * 100 <= total * 20 {
        50
    } else if dirty * 100 <= total * 30 {
        100
    } else if dirty * 100 <= total * 50 {
        300
    } else if dirty * 100 <= total * 60 {
        180
    } else if dirty * 100 <= total * 70 {
        250
    } else {
        500
    }
}

/// Milliseconds between two updates in which `dirty` of `total` tiles change.
pub fn required_cooldown(dirty: usize, total: usize) -> (r: u64)
    requires
        dirty <= u32::MAX,
        total <= u32::MAX,
    ensures
        r == cooldown_millis(dirty as int, total as int),
{
    let share: u64 = dirty as u64 * 100;
    let whole: u64 = total as u64;
    if share <= whole * 5 {
        0
    } else if share <= whole * 10 {
        33
    } else if share <= whole * 20 {
        50
    } else if share <= whole * 30 {
        100
    } else if share <= whole * 50 {
        300
    } else if share <= whole * 60 {
        180
    } else if share <= whole * 70 {
        250
    } else {
        500
    }
}

/// How long a frame waits, by the share of its tiles that changed: not at all up to a twentieth, so that
/// typing and the mouse are seen at once, and half a second where more than seven tenths did. No frame
/// waits longer than that, and none of more than a twentieth goes without a pause.
pub proof fn lemma_pauses(dirty: int, total: int)
    requires
        0 <= dirty <= total,
    ensures
        dirty * 20 <= total <==> cooldown_millis(dirty, total) == 0,
        dirty * 20 > total && dirty * 10 <= total ==> cooldown_millis(dirty, total) == 33,
        dirty * 10 > total && dirty * 5 <= total ==> cooldown_millis(dirty, total) == 50,
        dirty * 5 > total && dirty * 10 <= total * 3 ==> cooldown_millis(dirty, total) == 100,
        dirty * 10 > total * 3 && dirty * 2 <= total ==> cooldown_millis(dirty, total) == 300,
        dirty * 2 > total && dirty * 10 <= total * 6 ==> cooldown_millis(dirty, total) == 180,
        dirty * 10 > total * 6 && dirty * 10 <= total * 7 ==> cooldown_millis(dirty, total) == 250,
        dirty * 10 > total * 7 ==> cooldown_millis(dirty, total) == 500,
        0 <= cooldown_millis(dirty, total) <= 500,
        dirty * 10 > total * 3 ==> cooldown_millis(dirty, total) >= 180,
{
}

} // verus!
