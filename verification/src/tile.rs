//! The tile grid: a fixed-size layer of tiles and the cells a region touches.

use vstd::prelude::*;
use crate::rect::Rect;
use crate::sprite::StaticSprite;

verus! {

/// One cell of the world.
#[derive(Clone, Copy, Debug, PartialEq, Eq, Structural)]
pub enum Tile {
    /// Nothing: drawn as sky, never in the way.
    Empty,
    /// A sprite, in the way of the actor when the flag is set.
    Static(StaticSprite, bool),
    /// Scenery drawn from the given sheet rectangle, never in the way.
    Background(Rect),
    /// Ground drawn from the given sheet rectangle, always in the way.
    Floor(Rect),
}

impl Tile {
    /// Whether the tile blocks the actor.
    pub open spec fn solid(self) -> bool {
        match self {
            Tile::Floor(_) => true,
            Tile::Static(_, solid) => solid,
            _ => false,
        }
    }

    /// Whether the tile blocks the actor.
    pub fn is_solid(&self) -> (solid: bool)
        ensures
            solid == self.solid(),
    {
        match self {
            Tile::Floor(_) => true,
            Tile::Static(_, solid) => *solid,
            _ => false,
        }
    }
}

/// What a layer holds: its shape and, row by row, the tile of every cell.
pub struct Grid<T> {
    /// Number of columns.
    pub width: int,
    /// Number of rows.
    pub height: int,
    /// Horizontal size of one cell in world units.
    pub tile_width: int,
    /// Vertical size of one cell in world units.
    pub tile_height: int,
    /// The tiles in row-major order.
    pub cells: Seq<T>,
}

/// The index of the cell that holds coordinate `lo`, or of the first cell
/// when `lo` lies before the grid.
pub open spec fn first_index(lo: int, size: int) -> int {
    if lo < 0 {
        0
    } else {
        lo / size
    }
}

/// The index of the cell that holds the last coordinate before `hi`, or of
/// the last of `count` cells when that coordinate lies past the grid.
pub open spec fn last_index(hi: int, size: int, count: int) -> int {
    if (hi - 1) / size >= count {
        count - 1
    } else {
        (hi - 1) / size
    }
}

/// The place of cell `(col, row)` in a row-by-row listing of the cells of
/// `block`.
pub open spec fn slot(block: Rect, col: int, row: int) -> int {
    (row - block.y) * block.width + (col - block.x)
}

/// Whether a grid of these dimensions can be built: nothing is zero, every
/// world coordinate of the grid fits in an `i32`, and the cells can be counted
/// in a `usize`.
pub open spec fn valid_dimensions(width: int, height: int, tile_width: int, tile_height: int) -> bool {
    &&& 0 < width
    &&& 0 < height
    &&& 0 < tile_width
    &&& 0 < tile_height
    &&& width * tile_width <= i32::MAX
    &&& height * tile_height <= i32::MAX
    &&& width * height <= usize::MAX
}

impl<T> Grid<T> {
    /// The shape is valid and there is one tile per cell.
    pub open spec fn wf(self) -> bool {
        &&& valid_dimensions(self.width, self.height, self.tile_width, self.tile_height)
        &&& self.cells.len() == self.width * self.height
    }

    /// Whether `(col, row)` names a cell of the grid.
    pub open spec fn in_bounds(self, col: int, row: int) -> bool {
        0 <= col < self.width && 0 <= row < self.height
    }

    /// The tile of cell `(col, row)`.
    pub open spec fn tile(self, col: int, row: int) -> T
        recommends
            self.in_bounds(col, row),
    {
        self.cells[row * self.width + col]
    }

    /// The same grid with the tile of cell `(col, row)` replaced.
    pub open spec fn with_tile(self, col: int, row: int, tile: T) -> Grid<T>
        recommends
            self.in_bounds(col, row),
    {
        Grid { cells: self.cells.update(row * self.width + col, tile), ..self }
    }

    /// The world-space extent of the whole grid.
    pub open spec fn extent(self) -> Rect {
        Rect {
            x: 0,
            y: 0,
            width: (self.width * self.tile_width) as u32,
            height: (self.height * self.tile_height) as u32,
        }
    }

    /// The world-space footprint of cell `(col, row)`.
    pub open spec fn cell_rect(self, col: int, row: int) -> Rect
        recommends
            self.in_bounds(col, row),
    {
        Rect {
            x: (col * self.tile_width) as i32,
            y: (row * self.tile_height) as i32,
            width: self.tile_width as u32,
            height: self.tile_height as u32,
        }
    }

    /// The world-space footprint of a block of cells, given as a rectangle of
    /// columns and rows.
    pub open spec fn block_rect(self, block: Rect) -> Rect {
        Rect {
            x: (block.x * self.tile_width) as i32,
            y: (block.y * self.tile_height) as i32,
            width: (block.width * self.tile_width) as u32,
            height: (block.height * self.tile_height) as u32,
        }
    }

    /// Whether `block`, read as first column, first row, number of columns
    /// and number of rows, names at least one cell and only cells of the grid.
    pub open spec fn holds_block(self, block: Rect) -> bool {
        &&& 0 <= block.x
        &&& 0 <= block.y
        &&& 0 < block.width
        &&& 0 < block.height
        &&& block.x + block.width <= self.width
        &&& block.y + block.height <= self.height
    }

    /// Whether the region `[left, right) x [top, bottom)` covers a point of
    /// the grid's extent.
    pub open spec fn reaches(self, left: int, right: int, top: int, bottom: int) -> bool {
        &&& left < right
        &&& top < bottom
        &&& left < self.width * self.tile_width
        &&& 0 < right
        &&& top < self.height * self.tile_height
        &&& 0 < bottom
    }

    /// The block of cells that the region `[left, right) x [top, bottom)`
    /// touches: first column, first row, number of columns, number of rows.
    /// `None` when the region covers no point of the grid.
    pub open spec fn cells_in(self, left: int, right: int, top: int, bottom: int) -> Option<Rect> {
        if self.reaches(left, right, top, bottom) {
            let c0 = first_index(left, self.tile_width);
            let c1 = last_index(right, self.tile_width, self.width);
            let r0 = first_index(top, self.tile_height);
            let r1 = last_index(bottom, self.tile_height, self.height);
            Some(
                Rect {
                    x: c0 as i32,
                    y: r0 as i32,
                    width: (c1 - c0 + 1) as u32,
                    height: (r1 - r0 + 1) as u32,
                },
            )
        } else {
            None
        }
    }

    /// Whether `cells` lists the cells of `block` row by row, each row from
    /// left to right, each cell as its column and row.
    pub open spec fn lists_block(block: Rect, cells: Seq<(i32, i32)>) -> bool {
        &&& cells.len() == block.width * block.height
        &&& forall|col: int, row: int|
            block.contains_point(col, row) ==> cells[#[trigger] slot(block, col, row)] == (
                col as i32,
                row as i32,
            )
    }

    /// Whether `cells` lists, row by row, the cells that rectangle `r`
    /// touches.
    pub open spec fn lists_overlap(self, r: Rect, cells: Seq<(i32, i32)>) -> bool {
        match self.overlap(r) {
            Some(block) => Self::lists_block(block, cells),
            None => cells.len() == 0,
        }
    }

    /// The block of cells that rectangle `r` touches.
    pub open spec fn overlap(self, r: Rect) -> Option<Rect> {
        self.cells_in(r.left(), r.right(), r.top(), r.bottom())
    }
}

/// Floor division brackets its dividend.
proof fn lemma_div_brackets(x: int, d: int)
    by (nonlinear_arith)
    requires
        0 < d,
    ensures
        (x / d) * d <= x < (x / d) * d + d,
{
}

/// A multiple of the divisor at or below the dividend bounds the quotient
/// from below.
proof fn lemma_div_at_least(x: int, d: int, q: int)
    by (nonlinear_arith)
    requires
        0 < d,
        q * d <= x,
    ensures
        q <= x / d,
{
}

/// A multiple of the divisor above the dividend bounds the quotient from
/// above.
proof fn lemma_div_below(x: int, d: int, q: int)
    by (nonlinear_arith)
    requires
        0 < d,
        x < q * d,
    ensures
        x / d < q,
{
}

/// Floor division keeps the order of dividends.
proof fn lemma_div_monotone(x: int, y: int, d: int)
    by (nonlinear_arith)
    requires
        0 < d,
        x <= y,
    ensures
        x / d <= y / d,
{
}

/// Multiplying both sides of `a <= b` by a positive factor keeps the order.
pub(crate) proof fn lemma_scale_le(a: int, b: int, d: int)
    by (nonlinear_arith)
    requires
        0 < d,
        a <= b,
    ensures
        a * d <= b * d,
{
}

/// A row-major index of a cell inside the grid lies inside the cell sequence.
proof fn lemma_index_in_range(width: int, height: int, col: int, row: int)
    by (nonlinear_arith)
    requires
        0 <= col < width,
        0 <= row < height,
    ensures
        0 <= row * width + col < width * height,
{
}

/// Along one axis, a region that reaches a grid of `count` cells of `size`
/// touches a first and a last cell of the grid, in that order.
proof fn lemma_axis_range(lo: int, hi: int, size: int, count: int)
    requires
        0 < size,
        0 < count,
        lo < hi,
        lo < count * size,
        0 < hi,
    ensures
        0 <= first_index(lo, size) <= last_index(hi, size, count) < count,
{
    lemma_div_at_least(hi - 1, size, 0);
    if lo >= 0 {
        lemma_div_at_least(lo, size, 0);
        lemma_div_below(lo, size, count);
        lemma_div_monotone(lo, hi - 1, size);
    }
}

/// A well-formed grid has at most `i32::MAX` columns and rows.
pub proof fn lemma_counts_fit<T>(g: Grid<T>)
    requires
        g.wf(),
    ensures
        g.width <= i32::MAX,
        g.height <= i32::MAX,
{
    lemma_scale_le(1, g.tile_width, g.width);
    lemma_scale_le(1, g.tile_height, g.height);
    assert(g.tile_width * g.width == g.width * g.tile_width) by (nonlinear_arith);
    assert(g.tile_height * g.height == g.height * g.tile_height) by (nonlinear_arith);
}

/// The block of cells that a region touches lies in the grid, and its first
/// and last column and row are those of the region's edges.
pub proof fn lemma_cells_in_block<T>(g: Grid<T>, left: int, right: int, top: int, bottom: int)
    requires
        g.wf(),
    ensures
        g.cells_in(left, right, top, bottom) is Some <==> g.reaches(left, right, top, bottom),
        g.cells_in(left, right, top, bottom) matches Some(block) ==> {
            &&& g.holds_block(block)
            &&& block.x == first_index(left, g.tile_width)
            &&& block.x + block.width - 1 == last_index(right, g.tile_width, g.width)
            &&& block.y == first_index(top, g.tile_height)
            &&& block.y + block.height - 1 == last_index(bottom, g.tile_height, g.height)
        },
{
    if g.reaches(left, right, top, bottom) {
        lemma_axis_range(left, right, g.tile_width, g.width);
        lemma_axis_range(top, bottom, g.tile_height, g.height);
        lemma_scale_le(1, g.tile_width, g.width);
        lemma_scale_le(1, g.tile_height, g.height);
    }
}

/// Along one axis, cell `i` lies between the first and the last cell that a
/// region touches exactly when the cell and the region share a coordinate.
proof fn lemma_axis_exact(lo: int, hi: int, size: int, count: int, i: int)
    requires
        0 < size,
        0 < count,
        0 <= i < count,
        lo < hi,
    ensures
        (first_index(lo, size) <= i <= last_index(hi, size, count)) <==> (i * size < hi && lo < (i
            + 1) * size),
{
    assert((i + 1) * size == i * size + size) by (nonlinear_arith);
    lemma_scale_le(0, i, size);
    if lo >= 0 {
        if lo < (i + 1) * size {
            lemma_div_below(lo, size, i + 1);
        } else {
            lemma_div_at_least(lo, size, i + 1);
        }
    }
    if i * size < hi {
        lemma_div_at_least(hi - 1, size, i);
    } else {
        lemma_div_below(hi - 1, size, i);
    }
}

/// A cell of the grid lies in the block that a region touches exactly when
/// the cell's footprint and the region have a point in common.
pub proof fn lemma_cells_in_exact<T>(
    g: Grid<T>,
    left: int,
    right: int,
    top: int,
    bottom: int,
    col: int,
    row: int,
)
    requires
        g.wf(),
        g.in_bounds(col, row),
    ensures
        (g.cells_in(left, right, top, bottom) matches Some(block) && block.x <= col < block.x
            + block.width && block.y <= row < block.y + block.height) <==> (left < right && top
            < bottom && col * g.tile_width < right && left < (col + 1) * g.tile_width && row
            * g.tile_height < bottom && top < (row + 1) * g.tile_height),
{
    lemma_cells_in_block(g, left, right, top, bottom);
    lemma_scale_le(0, col, g.tile_width);
    lemma_scale_le(0, row, g.tile_height);
    lemma_scale_le(col + 1, g.width, g.tile_width);
    lemma_scale_le(row + 1, g.height, g.tile_height);
    if left < right && top < bottom {
        lemma_axis_exact(left, right, g.tile_width, g.width, col);
        lemma_axis_exact(top, bottom, g.tile_height, g.height, row);
    }
}

/// The footprint of a cell of a well-formed grid, edge by edge.
pub proof fn lemma_cell_footprint<T>(g: Grid<T>, col: int, row: int)
    requires
        g.wf(),
        g.in_bounds(col, row),
    ensures
        g.cell_rect(col, row).left() == col * g.tile_width,
        g.cell_rect(col, row).right() == (col + 1) * g.tile_width,
        g.cell_rect(col, row).top() == row * g.tile_height,
        g.cell_rect(col, row).bottom() == (row + 1) * g.tile_height,
        !g.cell_rect(col, row).is_empty(),
        g.extent().encloses(g.cell_rect(col, row)),
{
    lemma_scale_le(0, col, g.tile_width);
    lemma_scale_le(0, row, g.tile_height);
    lemma_scale_le(col + 1, g.width, g.tile_width);
    lemma_scale_le(row + 1, g.height, g.tile_height);
    assert((col + 1) * g.tile_width == col * g.tile_width + g.tile_width) by (nonlinear_arith);
    assert((row + 1) * g.tile_height == row * g.tile_height + g.tile_height) by (nonlinear_arith);
}

/// A cell of the grid lies in the block that a rectangle touches exactly
/// when the cell's footprint overlaps the rectangle.
pub proof fn lemma_overlap_exact<T>(g: Grid<T>, r: Rect, col: int, row: int)
    requires
        g.wf(),
        g.in_bounds(col, row),
    ensures
        (g.overlap(r) matches Some(block) && block.contains_point(col, row)) <==> g.cell_rect(
            col,
            row,
        ).overlaps(r),
{
    lemma_cells_in_exact(g, r.left(), r.right(), r.top(), r.bottom(), col, row);
    lemma_cell_footprint(g, col, row);
}

/// A rectangle that is exactly the footprint of one cell touches that cell
/// and no other: an edge that lies on a tile boundary does not reach into the
/// cell beyond it.
pub proof fn lemma_cell_touches_itself<T>(g: Grid<T>, col: int, row: int)
    requires
        g.wf(),
        g.in_bounds(col, row),
    ensures
        g.overlap(g.cell_rect(col, row)) == Some(
            Rect { x: col as i32, y: row as i32, width: 1, height: 1 },
        ),
{
    lemma_counts_fit(g);
    lemma_cell_footprint(g, col, row);
    lemma_cells_in_block(
        g,
        col * g.tile_width,
        (col + 1) * g.tile_width,
        row * g.tile_height,
        (row + 1) * g.tile_height,
    );
    lemma_div_at_least(col * g.tile_width, g.tile_width, col);
    lemma_div_below(col * g.tile_width, g.tile_width, col + 1);
    lemma_div_at_least((col + 1) * g.tile_width - 1, g.tile_width, col);
    lemma_div_below((col + 1) * g.tile_width - 1, g.tile_width, col + 1);
    lemma_div_at_least(row * g.tile_height, g.tile_height, row);
    lemma_div_below(row * g.tile_height, g.tile_height, row + 1);
    lemma_div_at_least((row + 1) * g.tile_height - 1, g.tile_height, row);
    lemma_div_below((row + 1) * g.tile_height - 1, g.tile_height, row + 1);
}

/// A rectangle that covers a point and lies within the grid's extent is
/// enclosed by the footprint of the block of cells it touches.
pub proof fn lemma_overlap_covers<T>(g: Grid<T>, r: Rect)
    requires
        g.wf(),
        !r.is_empty(),
        g.extent().encloses(r),
    ensures
        g.overlap(r) matches Some(block) && g.holds_block(block) && g.block_rect(block).encloses(r),
{
    lemma_cells_in_block(g, r.left(), r.right(), r.top(), r.bottom());
    let block = g.overlap(r).unwrap();
    lemma_block_footprint(r.left(), r.right(), g.tile_width, g.width);
    lemma_block_footprint(r.top(), r.bottom(), g.tile_height, g.height);
}

/// A rectangle that lies wholly to one side of the grid's extent touches no
/// cell.
pub proof fn lemma_overlap_outside<T>(g: Grid<T>, r: Rect)
    requires
        g.wf(),
        r.right() <= 0 || g.extent().right() <= r.left() || r.bottom() <= 0 || g.extent().bottom()
            <= r.top(),
    ensures
        g.overlap(r) is None,
{
}

/// Along one axis, the cells that an interval within the grid touches span
/// the interval.
proof fn lemma_block_footprint(lo: int, hi: int, size: int, count: int)
    requires
        0 < size,
        0 < count,
        0 <= lo < hi <= count * size,
    ensures
        0 <= first_index(lo, size) * size <= lo,
        hi <= (last_index(hi, size, count) - first_index(lo, size) + 1) * size + first_index(
            lo,
            size,
        ) * size,
        0 <= (last_index(hi, size, count) - first_index(lo, size) + 1) * size <= count * size,
{
    let first = first_index(lo, size);
    let last = last_index(hi, size, count);
    lemma_axis_range(lo, hi, size, count);
    lemma_div_brackets(lo, size);
    lemma_div_brackets(hi - 1, size);
    lemma_div_below(hi - 1, size, count);
    assert((last - first + 1) * size + first * size == last * size + size) by (nonlinear_arith);
    lemma_scale_le(0, first, size);
    lemma_scale_le(first, count, size);
    lemma_scale_le(0, last - first + 1, size);
    lemma_scale_le(last - first + 1, count, size);
}

/// Every entry of a listing of the cells that a rectangle touches is a cell
/// of the grid whose footprint overlaps the rectangle.
pub proof fn lemma_listed_cell_overlaps<T>(g: Grid<T>, r: Rect, cells: Seq<(i32, i32)>, k: int)
    requires
        g.wf(),
        g.lists_overlap(r, cells),
        0 <= k < cells.len(),
    ensures
        g.in_bounds(cells[k].0 as int, cells[k].1 as int),
        g.cell_rect(cells[k].0 as int, cells[k].1 as int).overlaps(r),
{
    lemma_counts_fit(g);
    lemma_cells_in_block(g, r.left(), r.right(), r.top(), r.bottom());
    let block = g.overlap(r).unwrap();
    let n = block.width as int;
    let row = block.y + k / n;
    let col = block.x + k % n;
    lemma_div_brackets(k, n);
    assert(k == (k / n) * n + k % n) by (nonlinear_arith)
        requires
            n > 0,
    ;
    lemma_div_at_least(k, n, 0);
    assert(block.width * block.height == block.height * n) by (nonlinear_arith)
        requires
            n == block.width,
    ;
    lemma_div_below(k, n, block.height as int);
    assert(block.contains_point(col, row));
    assert(slot(block, col, row) == k);
    lemma_overlap_exact(g, r, col, row);
}

/// A grid of tiles of type `T`, fixed in shape once built.
pub struct Layer<T> {
    tiles: Vec<Option<T>>,
    default: T,
    width: u32,
    height: u32,
    tile_width: u32,
    tile_height: u32,
}

impl<T> View for Layer<T> {
    type V = Grid<T>;

    closed spec fn view(&self) -> Grid<T> {
        Grid {
            width: self.width as int,
            height: self.height as int,
            tile_width: self.tile_width as int,
            tile_height: self.tile_height as int,
            cells: Seq::new(
                self.tiles@.len(),
                |i: int|
                    match self.tiles@[i] {
                        Some(t) => t,
                        None => self.default,
                    },
            ),
        }
    }
}

impl<T> Layer<T> {
    /// Every layer that exists is well formed.
    #[verifier::type_invariant]
    pub open spec fn well_formed(&self) -> bool {
        self@.wf()
    }

    /// Tells whether a layer of these dimensions can be built.
    pub fn dimensions_ok(width: u32, height: u32, tile_width: u32, tile_height: u32) -> (ok: bool)
        ensures
            ok == valid_dimensions(width as int, height as int, tile_width as int, tile_height as int),
    {
        if width == 0 || height == 0 || tile_width == 0 || tile_height == 0 {
            return false;
        }
        assert(width * tile_width <= u64::MAX && height * tile_height <= u64::MAX && width * height
            <= u64::MAX) by (nonlinear_arith)
            requires
                width <= u32::MAX,
                height <= u32::MAX,
                tile_width <= u32::MAX,
                tile_height <= u32::MAX,
        ;
        let extent_w: u64 = width as u64 * tile_width as u64;
        let extent_h: u64 = height as u64 * tile_height as u64;
        let count: u64 = width as u64 * height as u64;
        extent_w <= i32::MAX as u64 && extent_h <= i32::MAX as u64 && count <= usize::MAX as u64
    }

    /// A layer of `width` by `height` cells, each `tile_width` by
    /// `tile_height` world units, with `tile` in every cell.
    pub fn new(width: u32, height: u32, tile_width: u32, tile_height: u32, tile: T) -> (layer: Layer<T>)
        requires
            valid_dimensions(width as int, height as int, tile_width as int, tile_height as int),
        ensures
            layer@.wf(),
            layer@.width == width,
            layer@.height == height,
            layer@.tile_width == tile_width,
            layer@.tile_height == tile_height,
            layer@.cells == Seq::new((width * height) as nat, |i: int| tile),
    {
        let count: usize = width as usize * height as usize;
        let mut tiles: Vec<Option<T>> = Vec::new();
        let mut i: usize = 0;
        while i < count
            invariant
                i <= count,
                tiles@.len() == i,
                forall|k: int| 0 <= k < i ==> tiles@[k] is None,
            decreases count - i,
        {
            tiles.push(None);
            i += 1;
        }
        let layer = Layer { tiles, default: tile, width, height, tile_width, tile_height };
        assert(layer@.cells =~= Seq::new((width * height) as nat, |i: int| tile));
        layer
    }

    /// Like [`Layer::new`], but answers `None` for dimensions that no layer
    /// can have.
    pub fn try_new(width: u32, height: u32, tile_width: u32, tile_height: u32, tile: T) -> (made:
        Option<Layer<T>>)
        ensures
            made is Some <==> valid_dimensions(
                width as int,
                height as int,
                tile_width as int,
                tile_height as int,
            ),
            made matches Some(layer) ==> {
                &&& layer@.wf()
                &&& layer@.width == width
                &&& layer@.height == height
                &&& layer@.tile_width == tile_width
                &&& layer@.tile_height == tile_height
                &&& layer@.cells == Seq::new((width * height) as nat, |i: int| tile)
            },
    {
        if Self::dimensions_ok(width, height, tile_width, tile_height) {
            Some(Self::new(width, height, tile_width, tile_height, tile))
        } else {
            None
        }
    }

    /// Number of columns.
    pub fn width(&self) -> (n: u32)
        ensures
            n == self@.width,
    {
        self.width
    }

    /// Number of rows.
    pub fn height(&self) -> (n: u32)
        ensures
            n == self@.height,
    {
        self.height
    }

    /// Horizontal size of one cell in world units.
    pub fn tile_width(&self) -> (n: u32)
        ensures
            n == self@.tile_width,
    {
        self.tile_width
    }

    /// Vertical size of one cell in world units.
    pub fn tile_height(&self) -> (n: u32)
        ensures
            n == self@.tile_height,
    {
        self.tile_height
    }

    /// The tile of cell `(x, y)`, or `None` when the grid has no such cell.
    pub fn get_tile(&self, x: i32, y: i32) -> (found: Option<&T>)
        ensures
            found is Some <==> self@.in_bounds(x as int, y as int),
            found matches Some(t) ==> *t == self@.tile(x as int, y as int),
    {
        proof {
            use_type_invariant(self);
        }
        if x < 0 || y < 0 || x as u32 >= self.width || y as u32 >= self.height {
            return None;
        }
        proof {
            lemma_index_in_range(self.width as int, self.height as int, x as int, y as int);
            lemma_scale_le(y as int, self.height as int - 1, self.width as int);
        }
        let offset: usize = y as usize * self.width as usize + x as usize;
        match &self.tiles[offset] {
            Some(t) => Some(t),
            None => Some(&self.default),
        }
    }

    /// Puts `tile` into cell `(x, y)` and answers `true`; leaves the layer as
    /// it is and answers `false` when the grid has no such cell.
    pub fn set_tile(&mut self, x: i32, y: i32, tile: T) -> (stored: bool)
        ensures
            stored == old(self)@.in_bounds(x as int, y as int),
            stored ==> final(self)@ == old(self)@.with_tile(x as int, y as int, tile),
            !stored ==> final(self)@ == old(self)@,
    {
        proof {
            use_type_invariant(&*self);
        }
        if x < 0 || y < 0 || x as u32 >= self.width || y as u32 >= self.height {
            return false;
        }
        proof {
            lemma_index_in_range(self.width as int, self.height as int, x as int, y as int);
            lemma_scale_le(y as int, self.height as int - 1, self.width as int);
        }
        let offset: usize = y as usize * self.width as usize + x as usize;
        self.tiles[offset] = Some(tile);
        assert(self@.cells =~= old(self)@.with_tile(x as int, y as int, tile).cells);
        true
    }

    /// The block of cells that the region `[left, right) x [top, bottom)`
    /// touches, or `None` when it covers no point of the grid.
    pub fn cells_between(&self, left: i64, right: i64, top: i64, bottom: i64) -> (cells: Option<Rect>)
        ensures
            cells == self@.cells_in(left as int, right as int, top as int, bottom as int),
    {
        proof {
            use_type_invariant(self);
        }
        let extent_w: i64 = self.width as i64 * self.tile_width as i64;
        let extent_h: i64 = self.height as i64 * self.tile_height as i64;
        if left >= right || top >= bottom || left >= extent_w || right <= 0 || top >= extent_h
            || bottom <= 0 {
            return None;
        }
        let c0: i64 = Self::first_cell(left, self.tile_width);
        let c1: i64 = Self::last_cell(right, self.tile_width, self.width);
        let r0: i64 = Self::first_cell(top, self.tile_height);
        let r1: i64 = Self::last_cell(bottom, self.tile_height, self.height);
        proof {
            lemma_axis_range(left as int, right as int, self.tile_width as int, self.width as int);
            lemma_axis_range(top as int, bottom as int, self.tile_height as int, self.height as int);
        }
        Some(Rect::new(c0 as i32, r0 as i32, (c1 - c0 + 1) as u32, (r1 - r0 + 1) as u32))
    }

    /// The index along one axis of the first cell at or after coordinate `lo`.
    fn first_cell(lo: i64, size: u32) -> (i: i64)
        requires
            0 < size,
        ensures
            i == first_index(lo as int, size as int),
    {
        if lo < 0 {
            0
        } else {
            lo / size as i64
        }
    }

    /// The index along one axis of the last of `count` cells before
    /// coordinate `hi`.
    fn last_cell(hi: i64, size: u32, count: u32) -> (i: i64)
        requires
            0 < size,
            0 < count,
            0 < hi,
        ensures
            i == last_index(hi as int, size as int, count as int),
    {
        let i: i64 = (hi - 1) / size as i64;
        if i >= count as i64 {
            count as i64 - 1
        } else {
            i
        }
    }

    /// The block of cells that `rect` touches: first column, first row,
    /// number of columns, number of rows. `None` when `rect` is empty or lies
    /// wholly outside the grid.
    pub fn find_intersecting(&self, rect: &Rect) -> (cells: Option<Rect>)
        ensures
            cells == self@.overlap(*rect),
    {
        self.cells_between(
            rect.x as i64,
            rect.x as i64 + rect.width as i64,
            rect.y as i64,
            rect.y as i64 + rect.height as i64,
        )
    }

    /// The cells that `rect` touches, row by row from the top and each row
    /// from the left, each as its column and row.
    pub fn intersecting(&self, rect: &Rect) -> (cells: Vec<(i32, i32)>)
        ensures
            self@.lists_overlap(*rect, cells@),
            forall|k: int|
                0 <= k < cells@.len() ==> self@.in_bounds(
                    (#[trigger] cells@[k]).0 as int,
                    cells@[k].1 as int,
                ),
    {
        proof {
            use_type_invariant(self);
            lemma_counts_fit(self@);
            lemma_cells_in_block(self@, rect.left(), rect.right(), rect.top(), rect.bottom());
        }
        let mut cells: Vec<(i32, i32)> = Vec::new();
        match self.find_intersecting(rect) {
            None => {},
            Some(block) => {
                let c0: i32 = block.x;
                let r0: i32 = block.y;
                let c1: i32 = (block.x as i64 + block.width as i64) as i32;
                let r1: i32 = (block.y as i64 + block.height as i64) as i32;
                let ghost n = block.width as int;
                let mut row: i32 = r0;
                while row < r1
                    invariant
                        self@.holds_block(block),
                        c0 == block.x,
                        r0 == block.y,
                        c1 == block.x + block.width,
                        r1 == block.y + block.height,
                        n == block.width,
                        r0 <= row <= r1,
                        cells@.len() == (row - r0) * n,
                        forall|c: int, r: int|
                            c0 <= c < c1 && r0 <= r < row ==> cells@[#[trigger] slot(block, c, r)] == (
                                c as i32,
                                r as i32,
                            ),
                        forall|k: int|
                            0 <= k < cells@.len() ==> self@.in_bounds(
                                (#[trigger] cells@[k]).0 as int,
                                cells@[k].1 as int,
                            ),
                    decreases r1 - row,
                {
                    let mut col: i32 = c0;
                    while col < c1
                        invariant
                            self@.holds_block(block),
                            c0 == block.x,
                            r0 == block.y,
                            c1 == block.x + block.width,
                            r1 == block.y + block.height,
                            n == block.width,
                            r0 <= row < r1,
                            c0 <= col <= c1,
                            cells@.len() == (row - r0) * n + (col - c0),
                            forall|c: int, r: int|
                                c0 <= c < c1 && r0 <= r < row ==> cells@[#[trigger] slot(block, c, r)]
                                    == (c as i32, r as i32),
                            forall|c: int|
                                c0 <= c < col ==> cells@[#[trigger] slot(block, c, row as int)] == (
                                    c as i32,
                                    row,
                                ),
                            forall|k: int|
                                0 <= k < cells@.len() ==> self@.in_bounds(
                                    (#[trigger] cells@[k]).0 as int,
                                    cells@[k].1 as int,
                                ),
                        decreases c1 - col,
                    {
                        proof {
                            assert forall|c: int, r: int| c0 <= c < c1 && r0 <= r < row implies 0
                                <= #[trigger] slot(block, c, r) < (row - r0) * n by {
                                lemma_index_in_range(n, row - r0, c - c0, r - r0);
                                lemma_scale_le(r - r0 + 1, row - r0, n);
                                assert((r - r0 + 1) * n == (r - r0) * n + n) by (nonlinear_arith);
                            }
                        }
                        cells.push((col, row));
                        col = col + 1;
                    }
                    proof {
                        assert((row + 1 - r0) * n == (row - r0) * n + n) by (nonlinear_arith);
                    }
                    row = row + 1;
                }
                proof {
                    assert(block.width * block.height == (r1 - r0) * n) by (nonlinear_arith)
                        requires
                            n == block.width,
                            r1 - r0 == block.height,
                    ;
                }
            },
        }
        cells
    }

    /// The world-space footprint of cell `(x, y)`.
    fn tile_rect(&self, x: i32, y: i32) -> (r: Rect)
        requires
            self@.in_bounds(x as int, y as int),
        ensures
            r == self@.cell_rect(x as int, y as int),
    {
        proof {
            use_type_invariant(self);
            lemma_cell_footprint(self@, x as int, y as int);
        }
        Rect::new(
            (x as i64 * self.tile_width as i64) as i32,
            (y as i64 * self.tile_height as i64) as i32,
            self.tile_width,
            self.tile_height,
        )
    }

    /// Calls `f` with the tile and the world-space footprint of every cell
    /// that `rect` touches, in the order of [`Layer::intersecting`]; calls
    /// nothing when `rect` touches no cell. Afterwards `f` has been applied
    /// to the tile and the footprint of every cell that `rect` touches.
    pub fn for_each_intersecting<F: FnMut(&T, &Rect)>(&self, rect: &Rect, mut f: F)
        requires
            forall|col: int, row: int|
                self@.in_bounds(col, row) && self@.cell_rect(col, row).overlaps(*rect)
                    ==> call_requires(f, (&self@.tile(col, row), &self@.cell_rect(col, row))),
        ensures
            forall|col: int, row: int|
                self@.in_bounds(col, row) && self@.cell_rect(col, row).overlaps(*rect)
                    ==> call_ensures(
                    f,
                    (&self@.tile(col, row), &#[trigger] self@.cell_rect(col, row)),
                    (),
                ),
    {
        proof {
            use_type_invariant(self);
        }
        let ghost f0 = f;
        let cells = self.intersecting(rect);
        let mut k: usize = 0;
        while k < cells.len()
            invariant
                self@.wf(),
                f == f0,
                k <= cells@.len(),
                self@.lists_overlap(*rect, cells@),
                forall|j: int|
                    0 <= j < cells@.len() ==> self@.in_bounds(
                        (#[trigger] cells@[j]).0 as int,
                        cells@[j].1 as int,
                    ),
                forall|col: int, row: int|
                    self@.in_bounds(col, row) && self@.cell_rect(col, row).overlaps(*rect)
                        ==> call_requires(f, (&self@.tile(col, row), &self@.cell_rect(col, row))),
                forall|j: int|
                    0 <= j < k ==> call_ensures(
                        f0,
                        (
                            &self@.tile((#[trigger] cells@[j]).0 as int, cells@[j].1 as int),
                            &self@.cell_rect(cells@[j].0 as int, cells@[j].1 as int),
                        ),
                        (),
                    ),
            decreases cells@.len() - k,
        {
            let (col, row) = cells[k];
            let position = self.tile_rect(col, row);
            match self.get_tile(col, row) {
                Some(tile) => {
                    proof {
                        lemma_listed_cell_overlaps(self@, *rect, cells@, k as int);
                    }
                    f(tile, &position)
                },
                None => {},
            }
            k = k + 1;
        }
        proof {
            assert forall|col: int, row: int|
                self@.in_bounds(col, row) && self@.cell_rect(col, row).overlaps(
                    *rect,
                ) implies call_ensures(
                f,
                (&self@.tile(col, row), &#[trigger] self@.cell_rect(col, row)),
                (),
            ) by {
                lemma_counts_fit(self@);
                lemma_overlap_exact(self@, *rect, col, row);
                let block = self@.overlap(*rect).unwrap();
                lemma_index_in_range(
                    block.width as int,
                    block.height as int,
                    col - block.x,
                    row - block.y,
                );
                let j = slot(block, col, row);
                assert(cells@[j] == (col as i32, row as i32));
            }
        }
    }

    /// The world-space extent of the whole grid.
    pub fn to_rect(&self) -> (extent: Rect)
        ensures
            extent == self@.extent(),
            extent.x == 0,
            extent.y == 0,
            extent.width == self@.width * self@.tile_width,
            extent.height == self@.height * self@.tile_height,
    {
        proof {
            use_type_invariant(self);
        }
        Rect::new(0, 0, self.width * self.tile_width, self.height * self.tile_height)
    }
}

} // verus!
