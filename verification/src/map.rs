//! The tile grid: a fixed 80x50 field of wall and floor tiles stored row-major
//! in a flat vector, with the coordinate/index transforms every consumer of the
//! map relies on, and the carving steps that turn wall into floor.

use vstd::prelude::*;
use crate::rect::Rect;

verus! {

/// Grid width in tiles. Every other dimension-derived constant follows from
/// this and `MAP_HEIGHT`.
pub const MAP_WIDTH: i32 = 80;

/// Grid height in tiles.
pub const MAP_HEIGHT: i32 = 50;

/// Number of tiles in the whole grid: `MAP_WIDTH * MAP_HEIGHT`; see
/// `lemma_map_tiles` for the tie to the two dimension constants.
pub const MAP_TILES: usize = 4000;

/// The tile count is exactly the product of the grid dimensions.
pub proof fn lemma_map_tiles()
    ensures
        MAP_TILES as int == (MAP_WIDTH as int) * (MAP_HEIGHT as int),
{
}

/// The two kinds of tile a cell can hold.
#[derive(Clone, Copy, Debug, PartialEq, Eq, Structural)]
pub enum TileType {
    Wall,
    Floor,
}

/// Row-major index of the cell at `(x, y)`.
pub open spec fn idx_of(x: int, y: int) -> int {
    y * (MAP_WIDTH as int) + x
}

/// `(x, y)` names a cell of the grid.
pub open spec fn valid_xy(x: int, y: int) -> bool {
    0 <= x < MAP_WIDTH as int && 0 <= y < MAP_HEIGHT as int
}

/// `i` is the index of a cell of the grid.
pub open spec fn valid_idx(i: int) -> bool {
    0 <= i < MAP_TILES as int
}

/// Indices of cells decompose uniquely into coordinates: the cell at `(x, y)`
/// has column `x` and row `y` when read back out of its index.
pub proof fn lemma_idx_decomp(x: int, y: int)
    requires
        0 <= x < MAP_WIDTH as int,
        0 <= y,
    ensures
        idx_of(x, y) % (MAP_WIDTH as int) == x,
        idx_of(x, y) / (MAP_WIDTH as int) == y,
{
    vstd::arithmetic::div_mod::lemma_fundamental_div_mod_converse(
        idx_of(x, y),
        MAP_WIDTH as int,
        y,
        x,
    );
}

/// Every valid index is the index of the coordinates it decomposes into.
pub proof fn lemma_idx_recomp(i: int)
    requires
        0 <= i,
    ensures
        i == idx_of(i % (MAP_WIDTH as int), i / (MAP_WIDTH as int)),
        0 <= i % (MAP_WIDTH as int) < MAP_WIDTH as int,
    decreases 0int,
{
    vstd::arithmetic::div_mod::lemma_fundamental_div_mod(i, MAP_WIDTH as int);
}

/// Round trip, coordinates first: for every cell `(x, y)` of the grid,
/// the index is in range and maps back to exactly `(x, y)`.
pub proof fn lemma_coords_index_round_trip(x: int, y: int)
    requires
        valid_xy(x, y),
    ensures
        valid_idx(idx_of(x, y)),
        idx_of(x, y) % (MAP_WIDTH as int) == x,
        idx_of(x, y) / (MAP_WIDTH as int) == y,
{
    lemma_idx_decomp(x, y);
}

/// Round trip, index first: every valid index decomposes into valid
/// coordinates whose index is the one it started from.
pub proof fn lemma_index_coords_round_trip(i: int)
    requires
        valid_idx(i),
    ensures
        valid_xy(i % (MAP_WIDTH as int), i / (MAP_WIDTH as int)),
        idx_of(i % (MAP_WIDTH as int), i / (MAP_WIDTH as int)) == i,
{
    lemma_idx_recomp(i);
}

/// Transform a 2d map coordinate to an index.
pub fn map_2d_to_vec_idx(x: i32, y: i32) -> (r: usize)
    requires
        valid_xy(x as int, y as int),
    ensures
        r == idx_of(x as int, y as int),
        r < MAP_TILES,
{
    (y as usize * (MAP_WIDTH as usize)) + x as usize
}

/// Transform an index to a 2d map coordinate.
pub fn vec_idx_to_map_2d(index: usize) -> (c: (i32, i32))
    requires
        index < MAP_TILES,
    ensures
        valid_xy(c.0 as int, c.1 as int),
        c.0 == index as int % (MAP_WIDTH as int),
        c.1 == index as int / (MAP_WIDTH as int),
        idx_of(c.0 as int, c.1 as int) == index,
{
    let x: usize = index % (MAP_WIDTH as usize);
    proof {
        lemma_idx_recomp(index as int);
        vstd::arithmetic::div_mod::lemma_fundamental_div_mod_converse(
            index as int - x as int,
            MAP_WIDTH as int,
            index as int / (MAP_WIDTH as int),
            0,
        );
    }
    (x as i32, ((index - x) / (MAP_WIDTH as usize)) as i32)
}

/// The tile grid: a flat row-major vector of tiles, of length `MAP_TILES`.
pub struct TileGrid(pub Vec<TileType>);

/// The grid with every cell carved out as the room interior of `r` if it lies
/// there, and unchanged otherwise.
pub open spec fn carve_room(g: Seq<TileType>, r: Rect) -> Seq<TileType> {
    Seq::new(g.len(), |i: int| if room_covers(r, i) {
        TileType::Floor
    } else {
        g[i]
    })
}

/// Cell `i` lies strictly inside `r`'s border line: columns `x1+1 ..= x2`,
/// rows `y1+1 ..= y2`.
pub open spec fn room_covers(r: Rect, i: int) -> bool {
    valid_idx(i) && r.x1 + 1 <= i % (MAP_WIDTH as int) <= r.x2 && r.y1 + 1 <= i / (
    MAP_WIDTH as int) <= r.y2
}

/// Cell `i` is carved by a horizontal tunnel between columns `x1` and `x2` on
/// row `y`: the inclusive span of indices, except index 0, which the carving
/// guard deliberately skips.
pub open spec fn h_covers(x1: int, x2: int, y: int, i: int) -> bool {
    0 < i && idx_of(vstd::math::min(x1, x2), y) <= i <= idx_of(vstd::math::max(x1, x2), y)
}

/// The grid after carving a horizontal tunnel.
pub open spec fn carve_h(g: Seq<TileType>, x1: int, x2: int, y: int) -> Seq<TileType> {
    Seq::new(g.len(), |i: int| if h_covers(x1, x2, y, i) {
        TileType::Floor
    } else {
        g[i]
    })
}

/// Cell `i` is carved by a vertical tunnel between rows `y1` and `y2` on
/// column `x`: one cell per row of the inclusive span, except index 0.
pub open spec fn v_covers(y1: int, y2: int, x: int, i: int) -> bool {
    0 < i && valid_idx(i) && i % (MAP_WIDTH as int) == x && vstd::math::min(y1, y2) <= i / (
    MAP_WIDTH as int) <= vstd::math::max(y1, y2)
}

/// The grid after carving a vertical tunnel.
pub open spec fn carve_v(g: Seq<TileType>, y1: int, y2: int, x: int) -> Seq<TileType> {
    Seq::new(g.len(), |i: int| if v_covers(y1, y2, x, i) {
        TileType::Floor
    } else {
        g[i]
    })
}

/// A full grid of one tile kind.
fn filled(tile: TileType) -> (v: Vec<TileType>)
    ensures
        v@.len() == MAP_TILES,
        forall|i: int| 0 <= i < MAP_TILES as int ==> v@[i] == tile,
{
    let mut v: Vec<TileType> = Vec::new();
    let mut n: usize = 0;
    while n < MAP_TILES
        invariant
            n <= MAP_TILES,
            v@.len() == n,
            forall|i: int| 0 <= i < n ==> v@[i] == tile,
        decreases MAP_TILES - n,
    {
        v.push(tile);
        n = n + 1;
    }
    v
}

impl TileGrid {
    /// A fresh grid with every cell `Floor`.
    pub fn new() -> (m: TileGrid)
        ensures
            m.0@.len() == MAP_TILES,
            forall|i: int| 0 <= i < MAP_TILES as int ==> m.0@[i] == TileType::Floor,
    {
        TileGrid(filled(TileType::Floor))
    }

    /// A fresh grid with every cell `Wall`: the base state generation carves into.
    pub fn new_solid() -> (m: TileGrid)
        ensures
            m.0@.len() == MAP_TILES,
            forall|i: int| 0 <= i < MAP_TILES as int ==> m.0@[i] == TileType::Wall,
    {
        TileGrid(filled(TileType::Wall))
    }
}

/// Rows of `r`'s interior strictly before row `ylim` are carved.
spec fn room_rows_covered(r: Rect, ylim: int, i: int) -> bool {
    valid_idx(i) && r.x1 + 1 <= i % (MAP_WIDTH as int) <= r.x2 && r.y1 + 1 <= i / (
    MAP_WIDTH as int) < ylim
}

/// Rows before `ylim` carved, plus the cells of row `ylim` strictly before
/// column `xlim`.
spec fn room_partial_covered(r: Rect, ylim: int, xlim: int, i: int) -> bool {
    room_rows_covered(r, ylim, i) || (valid_idx(i) && i / (MAP_WIDTH as int) == ylim && r.x1
        + 1 <= i % (MAP_WIDTH as int) < xlim)
}

/// Carve the interior of `room` to `Floor`: all cells strictly inside the
/// rect border, columns `x1+1 ..= x2` of rows `y1+1 ..= y2`.
pub fn apply_room_to_map(room: &Rect, map: &mut TileGrid)
    requires
        old(map).0@.len() == MAP_TILES,
        room.wf(),
        room.x2 < MAP_WIDTH,
        room.y2 < MAP_HEIGHT,
    ensures
        final(map).0@ == carve_room(old(map).0@, *room),
{
    let mut y = room.y1 + 1;
    while y <= room.y2
        invariant
            map.0@.len() == MAP_TILES,
            old(map).0@.len() == MAP_TILES,
            room.wf(),
            room.x2 < MAP_WIDTH,
            room.y2 < MAP_HEIGHT,
            room.y1 + 1 <= y <= room.y2 + 1,
            forall|i: int|
                0 <= i < MAP_TILES as int ==> map.0@[i] == (if room_rows_covered(
                    *room,
                    y as int,
                    i,
                ) {
                    TileType::Floor
                } else {
                    old(map).0@[i]
                }),
        decreases room.y2 + 1 - y,
    {
        let mut x = room.x1 + 1;
        while x <= room.x2
            invariant
                map.0@.len() == MAP_TILES,
                old(map).0@.len() == MAP_TILES,
                room.wf(),
                room.x2 < MAP_WIDTH,
                room.y2 < MAP_HEIGHT,
                room.y1 + 1 <= y <= room.y2,
                room.x1 + 1 <= x <= room.x2 + 1,
                forall|i: int|
                    0 <= i < MAP_TILES as int ==> map.0@[i] == (if room_partial_covered(
                        *room,
                        y as int,
                        x as int,
                        i,
                    ) {
                        TileType::Floor
                    } else {
                        old(map).0@[i]
                    }),
            decreases room.x2 + 1 - x,
        {
            let idx = map_2d_to_vec_idx(x, y);
            map.0[idx] = TileType::Floor;
            proof {
                lemma_idx_decomp(x as int, y as int);
                assert forall|i: int| 0 <= i < MAP_TILES as int implies map.0@[i] == (
                if room_partial_covered(*room, y as int, x as int + 1, i) {
                    TileType::Floor
                } else {
                    old(map).0@[i]
                }) by {
                    if i != idx {
                        lemma_idx_recomp(i);
                    }
                }
            }
            x = x + 1;
        }
        proof {
            assert forall|i: int| 0 <= i < MAP_TILES as int implies map.0@[i] == (
            if room_rows_covered(*room, y as int + 1, i) {
                TileType::Floor
            } else {
                old(map).0@[i]
            }) by {
                lemma_idx_recomp(i);
            }
        }
        y = y + 1;
    }
    proof {
        assert forall|i: int| 0 <= i < MAP_TILES as int implies map.0@[i] == carve_room(
            old(map).0@,
            *room,
        )[i] by {
            lemma_idx_recomp(i);
        }
        assert(map.0@ =~= carve_room(old(map).0@, *room));
    }
}

/// Carve every cell of row `static_y` between columns `x1` and `x2`
/// (inclusive, in either order) to `Floor`, skipping index 0: the carving
/// guard deliberately leaves the top-left corner cell alone.
pub fn apply_horizontal_tunnel(map: &mut TileGrid, x1: i32, x2: i32, static_y: i32)
    requires
        old(map).0@.len() == MAP_TILES,
        0 <= x1 < MAP_WIDTH,
        0 <= x2 < MAP_WIDTH,
        0 <= static_y < MAP_HEIGHT,
    ensures
        final(map).0@ == carve_h(old(map).0@, x1 as int, x2 as int, static_y as int),
{
    let lo = if x1 < x2 {
        x1
    } else {
        x2
    };
    let hi = if x1 < x2 {
        x2
    } else {
        x1
    };
    let mut x = lo;
    while x <= hi
        invariant
            map.0@.len() == MAP_TILES,
            old(map).0@.len() == MAP_TILES,
            0 <= lo <= x,
            x <= hi + 1,
            hi < MAP_WIDTH,
            lo == vstd::math::min(x1 as int, x2 as int),
            hi == vstd::math::max(x1 as int, x2 as int),
            0 <= static_y < MAP_HEIGHT,
            forall|i: int|
                0 <= i < MAP_TILES as int ==> map.0@[i] == (if 0 < i && idx_of(
                    lo as int,
                    static_y as int,
                ) <= i < idx_of(x as int, static_y as int) {
                    TileType::Floor
                } else {
                    old(map).0@[i]
                }),
        decreases hi + 1 - x,
    {
        let idx = map_2d_to_vec_idx(x, static_y);
        if idx > 0 && idx < MAP_TILES {
            map.0[idx] = TileType::Floor;
        }
        x = x + 1;
    }
    proof {
        assert(map.0@ =~= carve_h(old(map).0@, x1 as int, x2 as int, static_y as int));
    }
}

/// Carve one cell per row of column `static_x` between rows `y1` and `y2`
/// (inclusive, in either order) to `Floor`, skipping index 0.
pub fn apply_vertical_tunnel(map: &mut TileGrid, y1: i32, y2: i32, static_x: i32)
    requires
        old(map).0@.len() == MAP_TILES,
        0 <= y1 < MAP_HEIGHT,
        0 <= y2 < MAP_HEIGHT,
        0 <= static_x < MAP_WIDTH,
    ensures
        final(map).0@ == carve_v(old(map).0@, y1 as int, y2 as int, static_x as int),
{
    let lo = if y1 < y2 {
        y1
    } else {
        y2
    };
    let hi = if y1 < y2 {
        y2
    } else {
        y1
    };
    let mut y = lo;
    while y <= hi
        invariant
            map.0@.len() == MAP_TILES,
            old(map).0@.len() == MAP_TILES,
            0 <= lo <= y,
            y <= hi + 1,
            hi < MAP_HEIGHT,
            lo == vstd::math::min(y1 as int, y2 as int),
            hi == vstd::math::max(y1 as int, y2 as int),
            0 <= static_x < MAP_WIDTH,
            forall|i: int|
                0 <= i < MAP_TILES as int ==> map.0@[i] == (if 0 < i && i % (
                MAP_WIDTH as int) == static_x as int && lo as int <= i / (MAP_WIDTH as int)
                    < y as int {
                    TileType::Floor
                } else {
                    old(map).0@[i]
                }),
        decreases hi + 1 - y,
    {
        let idx = map_2d_to_vec_idx(static_x, y);
        if idx > 0 && idx < MAP_TILES {
            map.0[idx] = TileType::Floor;
        }
        proof {
            lemma_idx_decomp(static_x as int, y as int);
            assert forall|i: int| 0 <= i < MAP_TILES as int implies map.0@[i] == (if 0 < i
                && i % (MAP_WIDTH as int) == static_x as int && lo as int <= i / (
            MAP_WIDTH as int) < y as int + 1 {
                TileType::Floor
            } else {
                old(map).0@[i]
            }) by {
                if i != idx {
                    lemma_idx_recomp(i);
                }
            }
        }
        y = y + 1;
    }
    proof {
        assert forall|i: int| 0 <= i < MAP_TILES as int implies map.0@[i] == carve_v(
            old(map).0@,
            y1 as int,
            y2 as int,
            static_x as int,
        )[i] by {
            lemma_idx_recomp(i);
        }
        assert(map.0@ =~= carve_v(old(map).0@, y1 as int, y2 as int, static_x as int));
    }
}

} // verus!
