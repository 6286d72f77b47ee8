//! Swept collision: how far the player may travel along each axis before a
//! solid tile is in the way, and the state the player is left in.

use vstd::prelude::*;
use crate::player::Player;
use crate::rect::{saturate, saturating, Rect};
use crate::tile::{
    lemma_cell_footprint, lemma_cells_in_block, lemma_cells_in_exact, lemma_counts_fit,
    lemma_scale_le, Grid, Layer, Tile,
};

verus! {

/// An axis of travel. The player is moved along the horizontal axis first,
/// then along the vertical one.
#[derive(Clone, Copy, Debug, PartialEq, Eq, Structural)]
pub enum Axis {
    /// Columns are crossed one after the other; a line is a column.
    Horizontal,
    /// Rows are crossed one after the other; a line is a row.
    Vertical,
}

impl Axis {
    /// The first line of `block` along the axis.
    pub open spec fn first(self, block: Rect) -> int {
        match self {
            Axis::Horizontal => block.x as int,
            Axis::Vertical => block.y as int,
        }
    }

    /// The last line of `block` along the axis.
    pub open spec fn last(self, block: Rect) -> int {
        match self {
            Axis::Horizontal => block.x + block.width - 1,
            Axis::Vertical => block.y + block.height - 1,
        }
    }

    /// The first position of `block` within a line.
    pub open spec fn side_first(self, block: Rect) -> int {
        match self {
            Axis::Horizontal => block.y as int,
            Axis::Vertical => block.x as int,
        }
    }

    /// The last position of `block` within a line.
    pub open spec fn side_last(self, block: Rect) -> int {
        match self {
            Axis::Horizontal => block.y + block.height - 1,
            Axis::Vertical => block.x + block.width - 1,
        }
    }

    /// The size of a tile along the axis.
    pub open spec fn tile_size(self, g: Grid<Tile>) -> int {
        match self {
            Axis::Horizontal => g.tile_width,
            Axis::Vertical => g.tile_height,
        }
    }

    /// Whether the tile at position `across` of line `along` is solid.
    pub open spec fn solid_at(self, g: Grid<Tile>, along: int, across: int) -> bool {
        match self {
            Axis::Horizontal => g.tile(along, across).solid(),
            Axis::Vertical => g.tile(across, along).solid(),
        }
    }

    /// Whether `(along, across)` names a cell of `block`.
    pub open spec fn in_block(self, block: Rect, along: int, across: int) -> bool {
        &&& self.first(block) <= along <= self.last(block)
        &&& self.side_first(block) <= across <= self.side_last(block)
    }
}

/// The signed distance from `edge` to the near side of line `along` for a
/// traveller with velocity `v`: to the line's start when moving forward, to
/// its end when moving backward.
pub open spec fn gap(size: int, along: int, edge: int, v: int) -> int {
    if v > 0 {
        along * size - edge
    } else {
        (along + 1) * size - edge
    }
}

/// Whether line `along` holds a solid tile at one of its positions `a0..=a1`.
pub open spec fn line_blocked(g: Grid<Tile>, axis: Axis, along: int, a0: int, a1: int) -> bool {
    exists|across: int| a0 <= across <= a1 && #[trigger] axis.solid_at(g, along, across)
}

/// The first blocked line among `lo..=hi`.
pub open spec fn first_blocked(g: Grid<Tile>, axis: Axis, lo: int, hi: int, a0: int, a1: int) -> Option<
    int,
>
    decreases hi - lo + 1,
{
    if lo > hi {
        None
    } else if line_blocked(g, axis, lo, a0, a1) {
        Some(lo)
    } else {
        first_blocked(g, axis, lo + 1, hi, a0, a1)
    }
}

/// The last blocked line among `lo..=hi`.
pub open spec fn last_blocked(g: Grid<Tile>, axis: Axis, lo: int, hi: int, a0: int, a1: int) -> Option<
    int,
>
    decreases hi - lo + 1,
{
    if lo > hi {
        None
    } else if line_blocked(g, axis, hi, a0, a1) {
        Some(hi)
    } else {
        last_blocked(g, axis, lo, hi - 1, a0, a1)
    }
}

/// The blocked line of `block` that a traveller with velocity `v` meets
/// first.
pub open spec fn nearest_blocked(g: Grid<Tile>, axis: Axis, block: Rect, v: int) -> Option<int> {
    if v > 0 {
        first_blocked(
            g,
            axis,
            axis.first(block),
            axis.last(block),
            axis.side_first(block),
            axis.side_last(block),
        )
    } else {
        last_blocked(
            g,
            axis,
            axis.first(block),
            axis.last(block),
            axis.side_first(block),
            axis.side_last(block),
        )
    }
}

/// How far a traveller whose leading side is at `edge` gets along `axis`
/// when it sets out with velocity `v`: the whole of `v` unless a solid tile
/// of `block` has its near side closer than that, and then only up to that
/// side (which lies behind `edge` when the traveller is already past it).
pub open spec fn bound(g: Grid<Tile>, axis: Axis, block: Rect, edge: int, v: int) -> int {
    if v == 0 {
        0
    } else {
        match nearest_blocked(g, axis, block, v) {
            None => v,
            Some(along) => {
                let t = gap(axis.tile_size(g), along, edge, v);
                if v > 0 {
                    if t < v {
                        t
                    } else {
                        v
                    }
                } else {
                    if t > v {
                        t
                    } else {
                        v
                    }
                }
            },
        }
    }
}

/// Whether a displacement `d` granted to velocity `v` means the traveller
/// was brought to a halt: nothing is left of the intent, or it was turned
/// back.
pub open spec fn halted(v: int, d: int) -> bool {
    (v > 0 && d <= 0) || (v < 0 && d >= 0)
}

/// The side of a box at `pos` of size `size` that leads when it moves with
/// velocity `v`.
pub open spec fn leading_edge(pos: int, size: int, v: int) -> int {
    if v > 0 {
        pos + size
    } else {
        pos
    }
}

/// `first_blocked` names a blocked line with no blocked line before it, and
/// names none only when no line is blocked.
pub proof fn lemma_first_blocked(g: Grid<Tile>, axis: Axis, lo: int, hi: int, a0: int, a1: int)
    ensures
        match first_blocked(g, axis, lo, hi, a0, a1) {
            Some(i) => lo <= i <= hi && line_blocked(g, axis, i, a0, a1) && forall|j: int|
                lo <= j < i ==> !line_blocked(g, axis, j, a0, a1),
            None => forall|j: int| lo <= j <= hi ==> !line_blocked(g, axis, j, a0, a1),
        },
    decreases hi - lo + 1,
{
    if lo <= hi && !line_blocked(g, axis, lo, a0, a1) {
        lemma_first_blocked(g, axis, lo + 1, hi, a0, a1);
    }
}

/// `last_blocked` names a blocked line with no blocked line after it, and
/// names none only when no line is blocked.
pub proof fn lemma_last_blocked(g: Grid<Tile>, axis: Axis, lo: int, hi: int, a0: int, a1: int)
    ensures
        match last_blocked(g, axis, lo, hi, a0, a1) {
            Some(i) => lo <= i <= hi && line_blocked(g, axis, i, a0, a1) && forall|j: int|
                i < j <= hi ==> !line_blocked(g, axis, j, a0, a1),
            None => forall|j: int| lo <= j <= hi ==> !line_blocked(g, axis, j, a0, a1),
        },
    decreases hi - lo + 1,
{
    if lo <= hi && !line_blocked(g, axis, hi, a0, a1) {
        lemma_last_blocked(g, axis, lo, hi - 1, a0, a1);
    }
}

/// Whether `d` is the furthest a traveller gets without passing the near
/// side of any solid tile of `block`: it is no more than the intent, no more
/// than the gap to any solid tile, and it is the intent itself or the gap to
/// some solid tile. (For backward travel, with the orders reversed.)
pub open spec fn is_bound(g: Grid<Tile>, axis: Axis, block: Rect, edge: int, v: int, d: int) -> bool {
    let size = axis.tile_size(g);
    if v > 0 {
        &&& d <= v
        &&& forall|i: int, k: int|
            axis.in_block(block, i, k) && #[trigger] axis.solid_at(g, i, k) ==> d <= gap(
                size,
                i,
                edge,
                v,
            )
        &&& (d == v || exists|i: int, k: int|
            axis.in_block(block, i, k) && #[trigger] axis.solid_at(g, i, k) && d == gap(
                size,
                i,
                edge,
                v,
            ))
    } else if v < 0 {
        &&& d >= v
        &&& forall|i: int, k: int|
            axis.in_block(block, i, k) && #[trigger] axis.solid_at(g, i, k) ==> d >= gap(
                size,
                i,
                edge,
                v,
            )
        &&& (d == v || exists|i: int, k: int|
            axis.in_block(block, i, k) && #[trigger] axis.solid_at(g, i, k) && d == gap(
                size,
                i,
                edge,
                v,
            ))
    } else {
        d == 0
    }
}

/// `bound` is the one displacement that `is_bound` describes.
pub proof fn lemma_bound_unique(g: Grid<Tile>, axis: Axis, block: Rect, edge: int, v: int, d: int)
    requires
        0 < axis.tile_size(g),
    ensures
        is_bound(g, axis, block, edge, v, d) <==> d == bound(g, axis, block, edge, v),
{
    let size = axis.tile_size(g);
    let lo = axis.first(block);
    let hi = axis.last(block);
    let a0 = axis.side_first(block);
    let a1 = axis.side_last(block);
    let b = bound(g, axis, block, edge, v);
    if v > 0 {
        lemma_first_blocked(g, axis, lo, hi, a0, a1);
        match first_blocked(g, axis, lo, hi, a0, a1) {
            Some(i0) => {
                let k0 = choose|k: int| a0 <= k <= a1 && #[trigger] axis.solid_at(g, i0, k);
                assert(axis.in_block(block, i0, k0));
                assert forall|i: int, k: int|
                    axis.in_block(block, i, k) && #[trigger] axis.solid_at(g, i, k) implies gap(
                    size,
                    i0,
                    edge,
                    v,
                ) <= gap(size, i, edge, v) by {
                    assert(line_blocked(g, axis, i, a0, a1));
                    lemma_scale_le(i0, i, size);
                }
            },
            None => {
                assert forall|i: int, k: int| axis.in_block(block, i, k) implies !#[trigger] axis.solid_at(
                    g,
                    i,
                    k,
                ) by {
                    if axis.solid_at(g, i, k) {
                        assert(line_blocked(g, axis, i, a0, a1));
                    }
                }
            },
        }
        assert(is_bound(g, axis, block, edge, v, b));
    } else if v < 0 {
        lemma_last_blocked(g, axis, lo, hi, a0, a1);
        match last_blocked(g, axis, lo, hi, a0, a1) {
            Some(i0) => {
                let k0 = choose|k: int| a0 <= k <= a1 && #[trigger] axis.solid_at(g, i0, k);
                assert(axis.in_block(block, i0, k0));
                assert forall|i: int, k: int|
                    axis.in_block(block, i, k) && #[trigger] axis.solid_at(g, i, k) implies gap(
                    size,
                    i,
                    edge,
                    v,
                ) <= gap(size, i0, edge, v) by {
                    assert(line_blocked(g, axis, i, a0, a1));
                    lemma_scale_le(i + 1, i0 + 1, size);
                }
            },
            None => {
                assert forall|i: int, k: int| axis.in_block(block, i, k) implies !#[trigger] axis.solid_at(
                    g,
                    i,
                    k,
                ) by {
                    if axis.solid_at(g, i, k) {
                        assert(line_blocked(g, axis, i, a0, a1));
                    }
                }
            },
        }
        assert(is_bound(g, axis, block, edge, v, b));
    }
}

/// The largest distance from the origin at which a leading edge is swept.
const EDGE_LIMIT: i64 = 0x1_0000_0000_0000;

impl Axis {
    /// The first and last line of `block` along the axis, then the first and
    /// last position within a line.
    fn lines(self, block: &Rect) -> (r: (i32, i32, i32, i32))
        requires
            0 <= block.x,
            0 <= block.y,
            0 < block.width,
            0 < block.height,
            block.x + block.width <= i32::MAX,
            block.y + block.height <= i32::MAX,
        ensures
            r.0 == self.first(*block),
            r.1 == self.last(*block),
            r.2 == self.side_first(*block),
            r.3 == self.side_last(*block),
    {
        let c0: i32 = block.x;
        let c1: i32 = (block.x as i64 + block.width as i64 - 1) as i32;
        let r0: i32 = block.y;
        let r1: i32 = (block.y as i64 + block.height as i64 - 1) as i32;
        match self {
            Axis::Horizontal => (c0, c1, r0, r1),
            Axis::Vertical => (r0, r1, c0, c1),
        }
    }

    /// The size of a tile of `layer` along the axis.
    fn size_in(self, layer: &Layer<Tile>) -> (size: i64)
        ensures
            size == self.tile_size(layer@),
    {
        match self {
            Axis::Horizontal => layer.tile_width() as i64,
            Axis::Vertical => layer.tile_height() as i64,
        }
    }

    /// The number of lines of `layer` along the axis.
    spec fn line_count(self, g: Grid<Tile>) -> int {
        match self {
            Axis::Horizontal => g.width,
            Axis::Vertical => g.height,
        }
    }

    /// Whether the tile at position `across` of line `along` is solid.
    fn is_solid_at(self, layer: &Layer<Tile>, along: i32, across: i32) -> (solid: bool)
        requires
            match self {
                Axis::Horizontal => layer@.in_bounds(along as int, across as int),
                Axis::Vertical => layer@.in_bounds(across as int, along as int),
            },
        ensures
            solid == self.solid_at(layer@, along as int, across as int),
    {
        let found = match self {
            Axis::Horizontal => layer.get_tile(along, across),
            Axis::Vertical => layer.get_tile(across, along),
        };
        match found {
            Some(tile) => tile.is_solid(),
            None => false,
        }
    }
}

/// Every line of a block in a well-formed grid lies within the grid's extent.
proof fn lemma_lines_fit(g: Grid<Tile>, axis: Axis, block: Rect, along: int)
    requires
        g.wf(),
        g.holds_block(block),
        axis.first(block) <= along <= axis.last(block),
    ensures
        0 <= along < axis.line_count(g),
        0 <= along * axis.tile_size(g),
        (along + 1) * axis.tile_size(g) == along * axis.tile_size(g) + axis.tile_size(g),
        (along + 1) * axis.tile_size(g) <= i32::MAX,
{
    let size = axis.tile_size(g);
    lemma_scale_le(0, along, size);
    lemma_scale_le(along + 1, axis.line_count(g), size);
    assert((along + 1) * size == along * size + size) by (nonlinear_arith);
}

/// Whether displacement `d` does not pass a tile side at signed distance `t`.
spec fn stops_short(forward: bool, d: int, t: int) -> bool {
    if forward {
        d <= t
    } else {
        d >= t
    }
}

/// Whether line `j` is behind a scan that has come to line `i`, or the scan
/// of the lines is over.
spec fn scanned(forward: bool, open: bool, i: int, j: int) -> bool {
    if !open {
        true
    } else if forward {
        j < i
    } else {
        j > i
    }
}

/// Scans every line across `block` in the direction of travel and narrows the
/// intended displacement `v` to the nearest solid tile.
fn sweep(layer: &Layer<Tile>, axis: Axis, block: &Rect, edge: i64, v: i32) -> (d: i64)
    requires
        layer@.holds_block(*block),
        -EDGE_LIMIT <= edge <= EDGE_LIMIT,
    ensures
        d == bound(layer@, axis, *block, edge as int, v as int),
        -EDGE_LIMIT - 0x1_0000_0000 <= d <= EDGE_LIMIT + 0x1_0000_0000,
{
    proof {
        use_type_invariant(layer);
        lemma_counts_fit(layer@);
    }
    if v == 0 {
        return 0;
    }
    let ghost g = layer@;
    let size: i64 = axis.size_in(layer);
    let (lo, hi, a0, a1) = axis.lines(block);
    let forward: bool = v > 0;
    let mut d: i64 = v as i64;
    let mut a: i32 = a0;
    while a <= a1
        invariant
            g == layer@,
            g.wf(),
            g.holds_block(*block),
            v != 0,
            forward == (v > 0),
            size == axis.tile_size(g),
            lo == axis.first(*block),
            hi == axis.last(*block),
            a0 == axis.side_first(*block),
            a1 == axis.side_last(*block),
            hi < i32::MAX,
            a1 < i32::MAX,
            a0 <= a <= a1 + 1,
            -EDGE_LIMIT <= edge <= EDGE_LIMIT,
            -EDGE_LIMIT - 0x1_0000_0000 <= d <= EDGE_LIMIT + 0x1_0000_0000,
            stops_short(forward, d as int, v as int),
            forall|j: int, k: int|
                lo <= j <= hi && a0 <= k < a && #[trigger] axis.solid_at(g, j, k) ==> stops_short(
                    forward,
                    d as int,
                    gap(size as int, j, edge as int, v as int),
                ),
            d == v || exists|j: int, k: int|
                lo <= j <= hi && a0 <= k < a && #[trigger] axis.solid_at(g, j, k) && d == gap(
                    size as int,
                    j,
                    edge as int,
                    v as int,
                ),
        decreases a1 - a + 1,
    {
        let mut i: i32 = if forward { lo } else { hi };
        let mut open: bool = true;
        while open && lo <= i && i <= hi
            invariant
                g == layer@,
                g.wf(),
                g.holds_block(*block),
                v != 0,
                forward == (v > 0),
                size == axis.tile_size(g),
                lo == axis.first(*block),
                hi == axis.last(*block),
                a0 == axis.side_first(*block),
                a1 == axis.side_last(*block),
                hi < i32::MAX,
                a0 <= a <= a1,
                lo - 1 <= i <= hi + 1,
                forward ==> lo <= i,
                !forward ==> i <= hi,
                -EDGE_LIMIT <= edge <= EDGE_LIMIT,
                -EDGE_LIMIT - 0x1_0000_0000 <= d <= EDGE_LIMIT + 0x1_0000_0000,
                stops_short(forward, d as int, v as int),
                forall|j: int, k: int|
                    lo <= j <= hi && a0 <= k < a && #[trigger] axis.solid_at(g, j, k) ==> stops_short(
                        forward,
                        d as int,
                        gap(size as int, j, edge as int, v as int),
                    ),
                forall|j: int|
                    lo <= j <= hi && scanned(forward, open, i as int, j) && #[trigger] axis.solid_at(
                        g,
                        j,
                        a as int,
                    ) ==> stops_short(forward, d as int, gap(size as int, j, edge as int, v as int)),
                d == v || exists|j: int, k: int|
                    lo <= j <= hi && a0 <= k <= a && #[trigger] axis.solid_at(g, j, k) && d == gap(
                        size as int,
                        j,
                        edge as int,
                        v as int,
                    ),
            decreases (if open { 1int } else { 0int }), (if forward { hi - i + 1 } else { i - lo + 1 }),
        {
            proof {
                lemma_lines_fit(g, axis, *block, i as int);
            }
            let near: i64 = if forward { i as i64 * size } else { (i as i64 + 1) * size };
            let t: i64 = near - edge;
            assert(t == gap(size as int, i as int, edge as int, v as int));
            let out_of_reach: bool = if forward { t > d } else { t < d };
            if out_of_reach {
                proof {
                    assert forall|j: int|
                        lo <= j <= hi && !scanned(forward, open, i as int, j) implies stops_short(
                        forward,
                        d as int,
                        gap(size as int, j, edge as int, v as int),
                    ) by {
                        if forward {
                            lemma_scale_le(i as int, j, size as int);
                        } else {
                            lemma_scale_le(j + 1, i as int + 1, size as int);
                        }
                    }
                }
                open = false;
            } else {
                if axis.is_solid_at(layer, i, a) {
                    d = t;
                }
                if forward {
                    i = i + 1;
                } else {
                    i = i - 1;
                }
            }
        }
        proof {
            assert forall|j: int, k: int|
                lo <= j <= hi && a0 <= k < a + 1 && #[trigger] axis.solid_at(g, j, k) implies stops_short(
                forward,
                d as int,
                gap(size as int, j, edge as int, v as int),
            ) by {
                if k == a {
                    assert(scanned(forward, open, i as int, j));
                }
            }
        }
        a = a + 1;
    }
    proof {
        assert forall|j: int, k: int|
            axis.in_block(*block, j, k) && #[trigger] axis.solid_at(g, j, k) implies stops_short(
            forward,
            d as int,
            gap(size as int, j, edge as int, v as int),
        ) by {}
        assert(is_bound(g, axis, *block, edge as int, v as int, d as int));
        lemma_bound_unique(g, axis, *block, edge as int, v as int, d as int);
    }
    d
}

impl Axis {
    /// The size of a tile across the axis.
    pub open spec fn side_size(self, g: Grid<Tile>) -> int {
        match self {
            Axis::Horizontal => g.tile_height,
            Axis::Vertical => g.tile_width,
        }
    }

    /// Whether the grid has a cell at position `across` of line `along`.
    pub open spec fn in_grid(self, g: Grid<Tile>, along: int, across: int) -> bool {
        match self {
            Axis::Horizontal => g.in_bounds(along, across),
            Axis::Vertical => g.in_bounds(across, along),
        }
    }

    /// The cells that the region touches which spans `lo..hi` along the axis
    /// and `side_lo..side_hi` across it.
    pub open spec fn cells(self, g: Grid<Tile>, lo: int, hi: int, side_lo: int, side_hi: int) -> Option<
        Rect,
    > {
        match self {
            Axis::Horizontal => g.cells_in(lo, hi, side_lo, side_hi),
            Axis::Vertical => g.cells_in(side_lo, side_hi, lo, hi),
        }
    }
}

/// The cells that may stop a box on its way along `axis`: those in the lines
/// that the box crosses when it moves by `v` from `pos`, at the positions in
/// which the box lies across the axis.
pub open spec fn way(g: Grid<Tile>, axis: Axis, pos: int, size: int, side: int, side_size: int, v: int) -> Option<
    Rect,
> {
    axis.cells(
        g,
        if v < 0 {
            pos + v
        } else {
            pos
        },
        if v > 0 {
            pos + size + v
        } else {
            pos + size
        },
        side,
        side + side_size,
    )
}

/// How far the tiles let a box travel along `axis` that sets out with
/// velocity `v`: the whole of `v` where no cell is on its way.
pub open spec fn travel(g: Grid<Tile>, axis: Axis, pos: int, size: int, side: int, side_size: int, v: int) -> int {
    match way(g, axis, pos, size, side, side_size, v) {
        Some(block) => bound(g, axis, block, leading_edge(pos, size, v), v),
        None => v,
    }
}

impl Player {
    /// The horizontal displacement the tiles grant the player where it is:
    /// bounded by the solid tiles in the columns its box crosses on the way,
    /// in the rows the box is in.
    pub open spec fn travel_x(self, g: Grid<Tile>) -> int {
        travel(
            g,
            Axis::Horizontal,
            self.x as int,
            self.w as int,
            self.y as int,
            self.h as int,
            self.dx as int,
        )
    }

    /// The vertical displacement the tiles grant the player where it is:
    /// bounded by the solid tiles in the rows its box crosses on the way, in
    /// the columns the box is in.
    pub open spec fn travel_y(self, g: Grid<Tile>) -> int {
        travel(
            g,
            Axis::Vertical,
            self.y as int,
            self.h as int,
            self.x as int,
            self.w as int,
            self.dy as int,
        )
    }

    /// The player after the horizontal pass: moved sideways by what the
    /// tiles grant, and without horizontal speed when it was halted.
    pub open spec fn moved_x(self, g: Grid<Tile>) -> Player {
        Player {
            x: saturate(self.x + self.travel_x(g)) as i32,
            dx: if halted(self.dx as int, self.travel_x(g)) {
                0
            } else {
                self.dx
            },
            ..self
        }
    }

    /// The player after the vertical pass: moved down or up by what the
    /// tiles grant, without vertical speed when it was halted, and on the
    /// ground exactly when a fall was halted.
    pub open spec fn moved_y(self, g: Grid<Tile>) -> Player {
        Player {
            y: saturate(self.y + self.travel_y(g)) as i32,
            dy: if halted(self.dy as int, self.travel_y(g)) {
                0
            } else {
                self.dy
            },
            on_ground: self.dy > 0 && self.travel_y(g) <= 0,
            ..self
        }
    }

    /// The player after its velocity has been played out against the tiles:
    /// the horizontal pass, then the vertical pass from where the first has
    /// left it.
    pub open spec fn resolved(self, g: Grid<Tile>) -> Player {
        self.moved_x(g).moved_y(g)
    }

    /// The player after one whole tick: gravity, then collision.
    pub open spec fn stepped(self, g: Grid<Tile>) -> Player {
        self.updated().resolved(g)
    }

    /// Plays the velocity out against the solid tiles of `layer`, one axis
    /// after the other.
    ///
    /// First the player moves sideways as far as its horizontal speed asks,
    /// or up to the near side of the nearest solid tile in the rows its box
    /// is in. Then, from where that has left it, it moves down or up as far
    /// as its vertical speed asks, or up to the near side of the nearest
    /// solid tile in the columns its box is in. An axis that is halted loses
    /// its speed. `on_ground` is set anew: true exactly when a fall was
    /// halted, so only with a solid tile directly beneath the player.
    ///
    /// Because the axes are played out in turn, a player that moves
    /// diagonally toward the corner of a tile passes beside the tile first
    /// and then comes down on it, where a move along the diagonal would have
    /// met the corner. A player whose box overlaps a solid tile when the
    /// pass begins is moved back to that tile's near side.
    pub fn resolve(&mut self, layer: &Layer<Tile>)
        ensures
            *final(self) == old(self).resolved(layer@),
    {
        let move_x: i64 = pass(layer, Axis::Horizontal, self.x, self.w, self.y, self.h, self.dx);
        if (self.dx > 0 && move_x <= 0) || (self.dx < 0 && move_x >= 0) {
            self.dx = 0;
        }
        self.x = saturating(self.x as i64 + move_x);
        let move_y: i64 = pass(layer, Axis::Vertical, self.y, self.h, self.x, self.w, self.dy);
        self.on_ground = self.dy > 0 && move_y <= 0;
        if (self.dy > 0 && move_y <= 0) || (self.dy < 0 && move_y >= 0) {
            self.dy = 0;
        }
        self.y = saturating(self.y as i64 + move_y);
    }

    /// One whole tick: gravity, then collision.
    pub fn step(&mut self, layer: &Layer<Tile>)
        ensures
            *final(self) == old(self).stepped(layer@),
    {
        self.update();
        self.resolve(layer);
    }
}

/// Finds the cells on the way of a box along `axis` and narrows the intended
/// displacement `v` to the nearest solid tile among them.
fn pass(layer: &Layer<Tile>, axis: Axis, pos: i32, size: u32, side: i32, side_size: u32, v: i32) -> (d:
    i64)
    ensures
        d == travel(
            layer@,
            axis,
            pos as int,
            size as int,
            side as int,
            side_size as int,
            v as int,
        ),
        -EDGE_LIMIT - 0x1_0000_0000 <= d <= EDGE_LIMIT + 0x1_0000_0000,
{
    proof {
        use_type_invariant(layer);
    }
    let from: i64 = pos as i64;
    let to: i64 = pos as i64 + size as i64;
    let lo: i64 = if v < 0 { from + v as i64 } else { from };
    let hi: i64 = if v > 0 { to + v as i64 } else { to };
    let side_lo: i64 = side as i64;
    let side_hi: i64 = side as i64 + side_size as i64;
    let edge: i64 = if v > 0 { to } else { from };
    let found = match axis {
        Axis::Horizontal => {
            proof {
                lemma_cells_in_block(layer@, lo as int, hi as int, side_lo as int, side_hi as int);
            }
            layer.cells_between(lo, hi, side_lo, side_hi)
        },
        Axis::Vertical => {
            proof {
                lemma_cells_in_block(layer@, side_lo as int, side_hi as int, lo as int, hi as int);
            }
            layer.cells_between(side_lo, side_hi, lo, hi)
        },
    };
    match found {
        Some(block) => sweep(layer, axis, &block, edge, v),
        None => v as i64,
    }
}

/// Whether the box lies, across the axis, where position `across` of a line
/// lies.
pub open spec fn beside(g: Grid<Tile>, axis: Axis, side: int, side_size: int, across: int) -> bool {
    across * axis.side_size(g) < side + side_size && side < (across + 1) * axis.side_size(g)
}

/// Whether the box overlaps the cell at position `across` of line `along`.
pub open spec fn hits(
    g: Grid<Tile>,
    axis: Axis,
    pos: int,
    size: int,
    side: int,
    side_size: int,
    along: int,
    across: int,
) -> bool {
    &&& beside(g, axis, side, side_size, across)
    &&& along * axis.tile_size(g) < pos + size
    &&& pos < (along + 1) * axis.tile_size(g)
}

/// Whether the box overlaps no solid tile.
pub open spec fn free(g: Grid<Tile>, axis: Axis, pos: int, size: int, side: int, side_size: int) -> bool {
    forall|along: int, across: int|
        axis.in_grid(g, along, across) && #[trigger] axis.solid_at(g, along, across) ==> !hits(
            g,
            axis,
            pos,
            size,
            side,
            side_size,
            along,
            across,
        )
}

/// Whether `d` is the furthest that a box gets along `axis` with velocity
/// `v` without entering a solid tile: it goes the way of `v` and no further
/// than `v`, it passes the near side of no solid tile ahead of the box in
/// the lines' positions where the box lies, and it is the whole of `v` or
/// ends on the near side of such a tile.
pub open spec fn is_travel(
    g: Grid<Tile>,
    axis: Axis,
    pos: int,
    size: int,
    side: int,
    side_size: int,
    v: int,
    d: int,
) -> bool {
    let ts = axis.tile_size(g);
    if v > 0 {
        &&& 0 <= d <= v
        &&& forall|i: int, k: int|
            axis.in_grid(g, i, k) && #[trigger] axis.solid_at(g, i, k) && beside(
                g,
                axis,
                side,
                side_size,
                k,
            ) && pos + size <= i * ts ==> d <= i * ts - (pos + size)
        &&& (d == v || exists|i: int, k: int|
            axis.in_grid(g, i, k) && #[trigger] axis.solid_at(g, i, k) && beside(
                g,
                axis,
                side,
                side_size,
                k,
            ) && d == i * ts - (pos + size))
    } else if v < 0 {
        &&& v <= d <= 0
        &&& forall|i: int, k: int|
            axis.in_grid(g, i, k) && #[trigger] axis.solid_at(g, i, k) && beside(
                g,
                axis,
                side,
                side_size,
                k,
            ) && (i + 1) * ts <= pos ==> d >= (i + 1) * ts - pos
        &&& (d == v || exists|i: int, k: int|
            axis.in_grid(g, i, k) && #[trigger] axis.solid_at(g, i, k) && beside(
                g,
                axis,
                side,
                side_size,
                k,
            ) && d == (i + 1) * ts - pos)
    } else {
        d == 0
    }
}

/// A cell of the grid is among the cells that a region touches exactly when
/// the cell's footprint and the region have a point in common, along either
/// axis.
proof fn lemma_cells_exact(
    g: Grid<Tile>,
    axis: Axis,
    lo: int,
    hi: int,
    side_lo: int,
    side_hi: int,
    along: int,
    across: int,
)
    requires
        g.wf(),
        axis.in_grid(g, along, across),
    ensures
        (axis.cells(g, lo, hi, side_lo, side_hi) matches Some(block) && axis.in_block(
            block,
            along,
            across,
        )) <==> (lo < hi && side_lo < side_hi && along * axis.tile_size(g) < hi && lo < (along + 1)
            * axis.tile_size(g) && across * axis.side_size(g) < side_hi && side_lo < (across + 1)
            * axis.side_size(g)),
        (along + 1) * axis.tile_size(g) == along * axis.tile_size(g) + axis.tile_size(g),
        0 < axis.tile_size(g),
{
    match axis {
        Axis::Horizontal => lemma_cells_in_exact(g, lo, hi, side_lo, side_hi, along, across),
        Axis::Vertical => lemma_cells_in_exact(g, side_lo, side_hi, lo, hi, across, along),
    }
    let ts = axis.tile_size(g);
    assert((along + 1) * ts == along * ts + ts) by (nonlinear_arith);
}

/// The cells that a region touches are cells of the grid, along either axis.
proof fn lemma_cells_in_grid(g: Grid<Tile>, axis: Axis, lo: int, hi: int, side_lo: int, side_hi: int)
    requires
        g.wf(),
    ensures
        axis.cells(g, lo, hi, side_lo, side_hi) matches Some(block) ==> g.holds_block(block)
            && forall|i: int, k: int| #[trigger] axis.in_block(block, i, k) ==> axis.in_grid(g, i, k),
{
    match axis {
        Axis::Horizontal => lemma_cells_in_block(g, lo, hi, side_lo, side_hi),
        Axis::Vertical => lemma_cells_in_block(g, side_lo, side_hi, lo, hi),
    }
}

/// What the tiles grant a box that overlaps no solid tile is the furthest
/// it gets without entering one.
pub proof fn lemma_travel_is_furthest(
    g: Grid<Tile>,
    axis: Axis,
    pos: int,
    size: int,
    side: int,
    side_size: int,
    v: int,
)
    requires
        g.wf(),
        0 < size,
        0 < side_size,
        free(g, axis, pos, size, side, side_size),
    ensures
        is_travel(
            g,
            axis,
            pos,
            size,
            side,
            side_size,
            v,
            travel(g, axis, pos, size, side, side_size, v),
        ),
{
    let ts = axis.tile_size(g);
    let edge = leading_edge(pos, size, v);
    let lo = if v < 0 {
        pos + v
    } else {
        pos
    };
    let hi = if v > 0 {
        pos + size + v
    } else {
        pos + size
    };
    let d = travel(g, axis, pos, size, side, side_size, v);
    let found = way(g, axis, pos, size, side, side_size, v);
    lemma_cells_in_grid(g, axis, lo, hi, side, side + side_size);
    if v != 0 {
        if found is Some {
            let block = found.unwrap();
            lemma_bound_unique(g, axis, block, edge, v, d);
            if d != v {
                let (i, k) = choose|i: int, k: int|
                    axis.in_block(block, i, k) && #[trigger] axis.solid_at(g, i, k) && d == gap(
                        ts,
                        i,
                        edge,
                        v,
                    );
                lemma_cells_exact(g, axis, lo, hi, side, side + side_size, i, k);
                assert(!hits(g, axis, pos, size, side, side_size, i, k));
                assert(beside(g, axis, side, side_size, k));
            }
        }
        assert forall|i: int, k: int|
            axis.in_grid(g, i, k) && #[trigger] axis.solid_at(g, i, k) && beside(
                g,
                axis,
                side,
                side_size,
                k,
            ) && (if v > 0 {
                pos + size <= i * ts
            } else {
                (i + 1) * ts <= pos
            }) implies (if v > 0 {
            d <= i * ts - (pos + size)
        } else {
            d >= (i + 1) * ts - pos
        }) by {
            lemma_cells_exact(g, axis, lo, hi, side, side + side_size, i, k);
            if found is Some {
                let block = found.unwrap();
                lemma_bound_unique(g, axis, block, edge, v, d);
                if axis.in_block(block, i, k) {
                    assert(stops_short(v > 0, d, gap(ts, i, edge, v)));
                }
            }
        }
    }
}

/// A box that overlaps no solid tile overlaps none after it has moved by
/// what the tiles grant it, held within `i32`.
pub proof fn lemma_travel_keeps_free(
    g: Grid<Tile>,
    axis: Axis,
    pos: int,
    size: int,
    side: int,
    side_size: int,
    v: int,
)
    requires
        g.wf(),
        0 < size,
        0 < side_size,
        i32::MIN <= pos <= i32::MAX,
        free(g, axis, pos, size, side, side_size),
    ensures
        free(
            g,
            axis,
            saturate(pos + travel(g, axis, pos, size, side, side_size, v)),
            size,
            side,
            side_size,
        ),
{
    let ts = axis.tile_size(g);
    let d = travel(g, axis, pos, size, side, side_size, v);
    let at = saturate(pos + d);
    lemma_travel_is_furthest(g, axis, pos, size, side, side_size, v);
    assert forall|i: int, k: int|
        axis.in_grid(g, i, k) && #[trigger] axis.solid_at(g, i, k) implies !hits(
        g,
        axis,
        at,
        size,
        side,
        side_size,
        i,
        k,
    ) by {
        assert((i + 1) * ts == i * ts + ts) by (nonlinear_arith);
        assert(!hits(g, axis, pos, size, side, side_size, i, k));
    }
}

impl Player {
    /// Whether the player's box is in row `row`.
    pub open spec fn in_row(self, g: Grid<Tile>, row: int) -> bool {
        row * g.tile_height < self.y + self.h && self.y < (row + 1) * g.tile_height
    }

    /// Whether the player's box is in column `col`.
    pub open spec fn in_col(self, g: Grid<Tile>, col: int) -> bool {
        col * g.tile_width < self.x + self.w && self.x < (col + 1) * g.tile_width
    }

    /// Whether a solid tile lies directly beneath the player: its top side
    /// is level with the player's bottom side, in a column the player's box
    /// is in.
    pub open spec fn supported(self, g: Grid<Tile>) -> bool {
        exists|col: int, row: int|
            {
                &&& g.in_bounds(col, row)
                &&& #[trigger] g.tile(col, row).solid()
                &&& row * g.tile_height == self.y + self.h
                &&& self.in_col(g, col)
            }
    }

    /// Whether the player's box overlaps no solid tile.
    pub open spec fn clear(self, g: Grid<Tile>) -> bool {
        forall|col: int, row: int|
            g.in_bounds(col, row) && #[trigger] g.tile(col, row).solid() ==> !g.cell_rect(
                col,
                row,
            ).overlaps(self.rect())
    }

    /// The signed distance from the player's leading side to the near side
    /// of column `col`, for the way the player moves sideways.
    pub open spec fn gap_x(self, g: Grid<Tile>, col: int) -> int {
        gap(
            g.tile_width,
            col,
            leading_edge(self.x as int, self.w as int, self.dx as int),
            self.dx as int,
        )
    }

    /// The signed distance from the player's leading side to the near side
    /// of row `row`, for the way the player moves down or up.
    pub open spec fn gap_y(self, g: Grid<Tile>, row: int) -> int {
        gap(
            g.tile_height,
            row,
            leading_edge(self.y as int, self.h as int, self.dy as int),
            self.dy as int,
        )
    }
}

impl Player {
    /// Whether `(col, row)` is a solid tile straight ahead of a player that
    /// moves sideways: in a row the player's box is in, its near side at or
    /// beyond the player's leading side.
    pub open spec fn wall_ahead(self, g: Grid<Tile>, col: int, row: int) -> bool {
        &&& g.in_bounds(col, row)
        &&& g.tile(col, row).solid()
        &&& self.in_row(g, row)
        &&& self.dx > 0 ==> self.gap_x(g, col) >= 0
        &&& self.dx < 0 ==> self.gap_x(g, col) <= 0
    }

    /// Whether `(col, row)` is a solid tile straight beneath a falling
    /// player, or straight above a rising one: in a column the player's box
    /// is in, its near side at or beyond the player's leading side.
    pub open spec fn floor_ahead(self, g: Grid<Tile>, col: int, row: int) -> bool {
        &&& g.in_bounds(col, row)
        &&& g.tile(col, row).solid()
        &&& self.in_col(g, col)
        &&& self.dy > 0 ==> self.gap_y(g, row) >= 0
        &&& self.dy < 0 ==> self.gap_y(g, row) <= 0
    }
}

/// A player with a box overlaps no solid tile exactly when its box is free
/// of solid tiles, seen along either axis.
pub proof fn lemma_clear_is_free(p: Player, g: Grid<Tile>)
    requires
        g.wf(),
        0 < p.w,
        0 < p.h,
    ensures
        p.clear(g) <==> free(
            g,
            Axis::Horizontal,
            p.x as int,
            p.w as int,
            p.y as int,
            p.h as int,
        ),
        p.clear(g) <==> free(g, Axis::Vertical, p.y as int, p.h as int, p.x as int, p.w as int),
{
    let h = Axis::Horizontal;
    let v = Axis::Vertical;
    if p.clear(g) {
        assert forall|i: int, k: int| h.in_grid(g, i, k) && #[trigger] h.solid_at(g, i, k) implies !hits(
            g,
            h,
            p.x as int,
            p.w as int,
            p.y as int,
            p.h as int,
            i,
            k,
        ) by {
            lemma_cell_footprint(g, i, k);
            assert(g.tile(i, k).solid());
        }
        assert forall|i: int, k: int| v.in_grid(g, i, k) && #[trigger] v.solid_at(g, i, k) implies !hits(
            g,
            v,
            p.y as int,
            p.h as int,
            p.x as int,
            p.w as int,
            i,
            k,
        ) by {
            lemma_cell_footprint(g, k, i);
            assert(g.tile(k, i).solid());
        }
    }
    if free(g, h, p.x as int, p.w as int, p.y as int, p.h as int) {
        assert forall|col: int, row: int|
            g.in_bounds(col, row) && #[trigger] g.tile(col, row).solid() implies !g.cell_rect(
            col,
            row,
        ).overlaps(p.rect()) by {
            lemma_cell_footprint(g, col, row);
            assert(h.solid_at(g, col, row));
        }
    }
    if free(g, v, p.y as int, p.h as int, p.x as int, p.w as int) {
        assert forall|col: int, row: int|
            g.in_bounds(col, row) && #[trigger] g.tile(col, row).solid() implies !g.cell_rect(
            col,
            row,
        ).overlaps(p.rect()) by {
            lemma_cell_footprint(g, col, row);
            assert(v.solid_at(g, row, col));
        }
    }
}

/// The resolver never moves a player into a solid tile: a player that
/// overlaps none before a pass overlaps none after it.
pub proof fn lemma_resolve_keeps_clear(p: Player, g: Grid<Tile>)
    requires
        g.wf(),
        0 < p.w,
        0 < p.h,
        p.clear(g),
    ensures
        p.moved_x(g).clear(g),
        p.resolved(g).clear(g),
{
    let q = p.moved_x(g);
    let r = p.resolved(g);
    lemma_clear_is_free(p, g);
    lemma_travel_keeps_free(
        g,
        Axis::Horizontal,
        p.x as int,
        p.w as int,
        p.y as int,
        p.h as int,
        p.dx as int,
    );
    lemma_clear_is_free(q, g);
    lemma_travel_keeps_free(
        g,
        Axis::Vertical,
        q.y as int,
        q.h as int,
        q.x as int,
        q.w as int,
        q.dy as int,
    );
    lemma_clear_is_free(r, g);
}

/// Where a player that overlaps no solid tile moves sideways and the
/// nearest solid tile straight ahead of it is no further away than the
/// player would move, the pass leaves the player's leading side exactly on
/// that tile's near side. The player has lost its horizontal speed exactly
/// when it touched the tile before the pass.
pub proof fn lemma_stops_at_wall(p: Player, g: Grid<Tile>, col: int, row: int)
    requires
        g.wf(),
        0 < p.w,
        0 < p.h,
        p.clear(g),
        p.dx != 0,
        p.wall_ahead(g, col, row),
        p.dx > 0 ==> p.gap_x(g, col) <= p.dx,
        p.dx < 0 ==> p.gap_x(g, col) >= p.dx,
        forall|c: int, r: int| #[trigger]
            p.wall_ahead(g, c, r) ==> (p.dx > 0 ==> p.gap_x(g, col) <= p.gap_x(g, c)) && (p.dx < 0
                ==> p.gap_x(g, col) >= p.gap_x(g, c)),
    ensures
        p.travel_x(g) == p.gap_x(g, col),
        p.dx > 0 ==> p.resolved(g).x + p.w == col * g.tile_width,
        p.dx < 0 ==> p.resolved(g).x == (col + 1) * g.tile_width,
        p.resolved(g).dx == (if p.gap_x(g, col) == 0 {
            0
        } else {
            p.dx
        }),
{
    let axis = Axis::Horizontal;
    let d = p.travel_x(g);
    lemma_clear_is_free(p, g);
    lemma_travel_is_furthest(g, axis, p.x as int, p.w as int, p.y as int, p.h as int, p.dx as int);
    lemma_cell_footprint(g, col, row);
    assert(axis.solid_at(g, col, row));
    assert(beside(g, axis, p.y as int, p.h as int, row));
    if d != p.dx {
        let ts = g.tile_width;
        if p.dx > 0 {
            let (i, k) = choose|i: int, k: int|
                axis.in_grid(g, i, k) && #[trigger] axis.solid_at(g, i, k) && beside(
                    g,
                    axis,
                    p.y as int,
                    p.h as int,
                    k,
                ) && d == i * ts - (p.x + p.w);
            assert(p.wall_ahead(g, i, k));
        } else {
            let (i, k) = choose|i: int, k: int|
                axis.in_grid(g, i, k) && #[trigger] axis.solid_at(g, i, k) && beside(
                    g,
                    axis,
                    p.y as int,
                    p.h as int,
                    k,
                ) && d == (i + 1) * ts - p.x;
            assert(p.wall_ahead(g, i, k));
        }
    }
}

/// Where a player that overlaps no solid tile falls or rises and, from
/// where the horizontal pass has left it, the nearest solid tile straight
/// beneath or above it is no further away than the player would move, the
/// pass leaves the player's leading side exactly on that tile's near side.
/// The player has lost its vertical speed exactly when it touched the tile
/// before the pass, and it is on the ground exactly when it then touched a
/// tile beneath it: a tile above never holds the player up.
pub proof fn lemma_stops_at_floor_or_ceiling(p: Player, g: Grid<Tile>, col: int, row: int)
    requires
        g.wf(),
        0 < p.w,
        0 < p.h,
        p.clear(g),
        p.dy != 0,
        p.moved_x(g).floor_ahead(g, col, row),
        p.dy > 0 ==> p.gap_y(g, row) <= p.dy,
        p.dy < 0 ==> p.gap_y(g, row) >= p.dy,
        forall|c: int, r: int| #[trigger]
            p.moved_x(g).floor_ahead(g, c, r) ==> (p.dy > 0 ==> p.gap_y(g, row) <= p.gap_y(g, r))
                && (p.dy < 0 ==> p.gap_y(g, row) >= p.gap_y(g, r)),
    ensures
        p.moved_x(g).travel_y(g) == p.gap_y(g, row),
        p.dy > 0 ==> p.resolved(g).y + p.h == row * g.tile_height,
        p.dy < 0 ==> p.resolved(g).y == (row + 1) * g.tile_height,
        p.resolved(g).dy == (if p.gap_y(g, row) == 0 {
            0
        } else {
            p.dy
        }),
        p.resolved(g).on_ground == (p.dy > 0 && p.gap_y(g, row) == 0),
{
    let axis = Axis::Vertical;
    let q = p.moved_x(g);
    let d = q.travel_y(g);
    lemma_resolve_keeps_clear(p, g);
    lemma_clear_is_free(q, g);
    lemma_travel_is_furthest(g, axis, q.y as int, q.h as int, q.x as int, q.w as int, q.dy as int);
    lemma_cell_footprint(g, col, row);
    assert(axis.solid_at(g, row, col));
    assert(beside(g, axis, q.x as int, q.w as int, col));
    assert(q.gap_y(g, row) == p.gap_y(g, row));
    if d != q.dy {
        let ts = g.tile_height;
        if q.dy > 0 {
            let (i, k) = choose|i: int, k: int|
                axis.in_grid(g, i, k) && #[trigger] axis.solid_at(g, i, k) && beside(
                    g,
                    axis,
                    q.x as int,
                    q.w as int,
                    k,
                ) && d == i * ts - (q.y + q.h);
            assert(q.floor_ahead(g, k, i));
            assert(q.gap_y(g, i) == p.gap_y(g, i));
        } else {
            let (i, k) = choose|i: int, k: int|
                axis.in_grid(g, i, k) && #[trigger] axis.solid_at(g, i, k) && beside(
                    g,
                    axis,
                    q.x as int,
                    q.w as int,
                    k,
                ) && d == (i + 1) * ts - q.y;
            assert(q.floor_ahead(g, k, i));
            assert(q.gap_y(g, i) == p.gap_y(g, i));
        }
    }
}

/// A player that overlaps no solid tile is on the ground after a pass, or
/// after a whole tick, only with a solid tile directly beneath the place
/// where the pass has left it.
pub proof fn lemma_on_ground_is_supported(p: Player, g: Grid<Tile>)
    requires
        g.wf(),
        0 < p.w,
        0 < p.h,
        p.clear(g),
    ensures
        p.resolved(g).on_ground ==> p.resolved(g).supported(g),
        p.stepped(g).on_ground ==> p.stepped(g).supported(g),
{
    lemma_grounded_is_supported(p, g);
    let u = p.updated();
    assert(u.rect() == p.rect());
    lemma_grounded_is_supported(u, g);
}

/// A player that overlaps no solid tile is on the ground after a pass only
/// with a solid tile directly beneath the place where the pass has left it.
proof fn lemma_grounded_is_supported(p: Player, g: Grid<Tile>)
    requires
        g.wf(),
        0 < p.w,
        0 < p.h,
        p.clear(g),
    ensures
        p.resolved(g).on_ground ==> p.resolved(g).supported(g),
{
    let axis = Axis::Vertical;
    let q = p.moved_x(g);
    let r = p.resolved(g);
    let d = q.travel_y(g);
    lemma_resolve_keeps_clear(p, g);
    lemma_clear_is_free(q, g);
    lemma_travel_is_furthest(g, axis, q.y as int, q.h as int, q.x as int, q.w as int, q.dy as int);
    if r.on_ground {
        let ts = g.tile_height;
        let (i, k) = choose|i: int, k: int|
            axis.in_grid(g, i, k) && #[trigger] axis.solid_at(g, i, k) && beside(
                g,
                axis,
                q.x as int,
                q.w as int,
                k,
            ) && d == i * ts - (q.y + q.h);
        assert(g.tile(k, i).solid());
        assert(r.in_col(g, k));
    }
}

/// A player that is not halted along an axis keeps its speed along it and
/// is not on the ground.
pub proof fn lemma_unhalted_keeps_speed(p: Player, g: Grid<Tile>)
    ensures
        !halted(p.dx as int, p.travel_x(g)) ==> p.resolved(g).dx == p.dx,
        !halted(p.dy as int, p.moved_x(g).travel_y(g)) ==> p.resolved(g).dy == p.dy && !p.resolved(
            g,
        ).on_ground,
{
}

/// Resolving a player without speed changes nothing but `on_ground`, which
/// is cleared: it is never carried over from the tick before.
pub proof fn lemma_resolve_without_speed(p: Player, g: Grid<Tile>)
    requires
        p.dx == 0,
        p.dy == 0,
    ensures
        p.resolved(g) == (Player { on_ground: false, ..p }),
{
}

/// `on_ground` never depends on what it was before the pass.
pub proof fn lemma_on_ground_is_set_anew(p: Player, g: Grid<Tile>, before: bool)
    ensures
        (Player { on_ground: before, ..p }).resolved(g).on_ground == p.resolved(g).on_ground,
{
}

/// One tick on a player that stands still and overlaps no solid tile, under
/// a gravity that pulls down: the player is on the ground afterwards exactly
/// when a solid tile lies directly beneath it, and then nothing else about
/// it has changed.
pub proof fn lemma_rest_is_kept(p: Player, g: Grid<Tile>)
    requires
        g.wf(),
        p.dx == 0,
        p.dy == 0,
        0 < p.gravity,
        0 < p.w,
        0 < p.h,
        p.clear(g),
    ensures
        p.stepped(g).on_ground == p.supported(g),
        p.supported(g) ==> p.stepped(g) == (Player { on_ground: true, ..p }),
{
    let axis = Axis::Vertical;
    let u = p.updated();
    let q = u.moved_x(g);
    assert(q == u);
    assert(u.rect() == p.rect());
    let d = q.travel_y(g);
    lemma_clear_is_free(q, g);
    lemma_travel_is_furthest(g, axis, q.y as int, q.h as int, q.x as int, q.w as int, q.dy as int);
    let ts = g.tile_height;
    if p.supported(g) {
        let (col, row) = choose|col: int, row: int|
            {
                &&& g.in_bounds(col, row)
                &&& #[trigger] g.tile(col, row).solid()
                &&& row * g.tile_height == p.y + p.h
                &&& p.in_col(g, col)
            };
        assert(axis.solid_at(g, row, col));
        assert((row + 1) * ts == row * ts + ts) by (nonlinear_arith);
        assert(beside(g, axis, q.x as int, q.w as int, col));
        assert(d == 0);
    }
    if p.stepped(g).on_ground {
        let (i, k) = choose|i: int, k: int|
            axis.in_grid(g, i, k) && #[trigger] axis.solid_at(g, i, k) && beside(
                g,
                axis,
                q.x as int,
                q.w as int,
                k,
            ) && d == i * ts - (q.y + q.h);
        assert(g.tile(k, i).solid());
        assert(p.in_col(g, k));
    }
}

} // verus!

