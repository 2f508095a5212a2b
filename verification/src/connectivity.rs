//! Connectivity of the generated dungeon: floor cells form a graph under
//! 4-directional adjacency, and every accepted room's interior is reachable
//! from the first accepted room's interior, because each new room is carved
//! together with an L-shaped corridor to the room accepted just before it.

use vstd::prelude::*;
use crate::map::{
    TileType, room_covers, idx_of, valid_idx, valid_xy, lemma_idx_decomp, lemma_idx_recomp,
    carve_room, carve_h, carve_v, h_covers, v_covers, MAP_WIDTH, MAP_HEIGHT, MAP_TILES,
};
use crate::rect::Rect;
use crate::rng::{range_result, roll_result, range_draw, roll_draw};
use crate::gen::{
    GenState, attempt, gen_rec, gen_model, state_inv, room_ok, hits_existing, in_range,
    MAX_ROOMS, MIN_SIZE, MAX_SIZE,
};

verus! {

/// Cells `i` and `j` are 4-adjacent on the grid: one step left, right, up or
/// down, never across a row boundary.
pub open spec fn adjacent(i: int, j: int) -> bool {
    valid_idx(i) && valid_idx(j) && ((j == i + 1 && i % (MAP_WIDTH as int) < MAP_WIDTH as int
        - 1) || (j == i - 1 && i % (MAP_WIDTH as int) > 0) || j == i + MAP_WIDTH as int || j == i
        - MAP_WIDTH as int)
}

/// `p` walks over floor cells of `g`: nonempty, every cell a valid floor
/// cell, consecutive cells 4-adjacent.
pub open spec fn is_floor_path(g: Seq<TileType>, p: Seq<int>) -> bool {
    &&& p.len() >= 1
    &&& forall|k: int|
        0 <= k < p.len() ==> valid_idx(#[trigger] p[k]) && g[p[k]] == TileType::Floor
    &&& forall|k: int| 0 <= k < p.len() - 1 ==> adjacent(#[trigger] p[k], p[k + 1])
}

/// Cell `b` can be reached from cell `a` across floor cells of `g`.
pub open spec fn reachable(g: Seq<TileType>, a: int, b: int) -> bool {
    exists|p: Seq<int>| is_floor_path(g, p) && p.first() == a && p.last() == b
}

/// The index of a room's center cell.
pub open spec fn room_center_idx(r: Rect) -> int {
    idx_of(r.spec_center().0, r.spec_center().1)
}

/// A floor cell reaches itself.
pub proof fn lemma_reachable_refl(g: Seq<TileType>, a: int)
    requires
        valid_idx(a),
        g.len() == MAP_TILES as int,
        g[a] == TileType::Floor,
    ensures
        reachable(g, a, a),
{
    let p = seq![a];
    assert(is_floor_path(g, p) && p.first() == a && p.last() == a);
}

/// Reachability is transitive: walks concatenate.
pub proof fn lemma_reachable_trans(g: Seq<TileType>, a: int, b: int, c: int)
    requires
        reachable(g, a, b),
        reachable(g, b, c),
    ensures
        reachable(g, a, c),
{
    let p1 = choose|p: Seq<int>| is_floor_path(g, p) && p.first() == a && p.last() == b;
    let p2 = choose|p: Seq<int>| is_floor_path(g, p) && p.first() == b && p.last() == c;
    if p2.len() == 1 {
        assert(is_floor_path(g, p1) && p1.first() == a && p1.last() == c);
    } else {
        let q = p1 + p2.subrange(1, p2.len() as int);
        assert(q.len() == p1.len() + p2.len() - 1);
        assert forall|k: int| 0 <= k < q.len() implies valid_idx(#[trigger] q[k]) && g[q[k]]
            == TileType::Floor by {
            if k < p1.len() {
                assert(q[k] == p1[k]);
            } else {
                assert(q[k] == p2[k - p1.len() as int + 1]);
            }
        }
        assert forall|k: int| 0 <= k < q.len() - 1 implies adjacent(#[trigger] q[k], q[k + 1]) by {
            if k + 1 < p1.len() {
                assert(q[k] == p1[k] && q[k + 1] == p1[k + 1]);
            } else if k + 1 == p1.len() {
                assert(q[k] == p1[k] && q[k + 1] == p2[1]);
                assert(p1[k] == p1.last() && p1.last() == p2[0]);
                assert(adjacent(p2[0], p2[1]));
            } else {
                assert(q[k] == p2[k - p1.len() as int + 1] && q[k + 1] == p2[k - p1.len() as int
                    + 2]);
            }
        }
        assert(q.first() == a);
        assert(q.last() == p2[p2.len() - 1]);
        assert(is_floor_path(g, q) && q.first() == a && q.last() == c);
    }
}

/// Reachability survives carving: a grid with at least the same floor cells
/// admits the same walks.
pub proof fn lemma_reachable_mono(g1: Seq<TileType>, g2: Seq<TileType>, a: int, b: int)
    requires
        g1.len() == g2.len(),
        forall|i: int| valid_idx(i) && g1[i] == TileType::Floor ==> g2[i] == TileType::Floor,
        reachable(g1, a, b),
    ensures
        reachable(g2, a, b),
{
    let p = choose|p: Seq<int>| is_floor_path(g1, p) && p.first() == a && p.last() == b;
    assert forall|k: int| 0 <= k < p.len() implies valid_idx(#[trigger] p[k]) && g2[p[k]]
        == TileType::Floor by {
        assert(valid_idx(p[k]) && g1[p[k]] == TileType::Floor);
    }
    assert(is_floor_path(g2, p) && p.first() == a && p.last() == b);
}

/// A row of floor cells is a walk: the two ends of a horizontal floor span
/// reach each other.
pub proof fn lemma_h_span_reachable(g: Seq<TileType>, xa: int, xb: int, y: int)
    requires
        g.len() == MAP_TILES as int,
        valid_xy(xa, y),
        valid_xy(xb, y),
        forall|x: int|
            vstd::math::min(xa, xb) <= x <= vstd::math::max(xa, xb) ==> g[#[trigger] idx_of(
                x,
                y,
            )] == TileType::Floor,
    ensures
        reachable(g, idx_of(xa, y), idx_of(xb, y)),
{
    if xa <= xb {
        let p = Seq::new((xb - xa + 1) as nat, |k: int| idx_of(xa + k, y));
        assert forall|k: int| 0 <= k < p.len() implies valid_idx(#[trigger] p[k]) && g[p[k]]
            == TileType::Floor by {
            assert(p[k] == idx_of(xa + k, y) && valid_xy(xa + k, y));
        }
        assert forall|k: int| 0 <= k < p.len() - 1 implies adjacent(#[trigger] p[k], p[k + 1]) by {
            lemma_idx_decomp(xa + k, y);
            assert(p[k + 1] == p[k] + 1 && p[k] % (MAP_WIDTH as int) == xa + k < MAP_WIDTH as int
                - 1);
        }
        assert(is_floor_path(g, p) && p.first() == idx_of(xa, y) && p.last() == idx_of(xb, y));
    } else {
        let p = Seq::new((xa - xb + 1) as nat, |k: int| idx_of(xa - k, y));
        assert forall|k: int| 0 <= k < p.len() implies valid_idx(#[trigger] p[k]) && g[p[k]]
            == TileType::Floor by {
            assert(p[k] == idx_of(xa - k, y) && valid_xy(xa - k, y));
        }
        assert forall|k: int| 0 <= k < p.len() - 1 implies adjacent(#[trigger] p[k], p[k + 1]) by {
            lemma_idx_decomp(xa - k, y);
            assert(p[k + 1] == p[k] - 1 && p[k] % (MAP_WIDTH as int) == xa - k > 0);
        }
        assert(is_floor_path(g, p) && p.first() == idx_of(xa, y) && p.last() == idx_of(xb, y));
    }
}

/// A column of floor cells is a walk: the two ends of a vertical floor span
/// reach each other.
pub proof fn lemma_v_span_reachable(g: Seq<TileType>, ya: int, yb: int, x: int)
    requires
        g.len() == MAP_TILES as int,
        valid_xy(x, ya),
        valid_xy(x, yb),
        forall|y: int|
            vstd::math::min(ya, yb) <= y <= vstd::math::max(ya, yb) ==> g[#[trigger] idx_of(
                x,
                y,
            )] == TileType::Floor,
    ensures
        reachable(g, idx_of(x, ya), idx_of(x, yb)),
{
    if ya <= yb {
        let p = Seq::new((yb - ya + 1) as nat, |k: int| idx_of(x, ya + k));
        assert forall|k: int| 0 <= k < p.len() implies valid_idx(#[trigger] p[k]) && g[p[k]]
            == TileType::Floor by {
            assert(p[k] == idx_of(x, ya + k) && valid_xy(x, ya + k));
        }
        assert forall|k: int| 0 <= k < p.len() - 1 implies adjacent(#[trigger] p[k], p[k + 1]) by {
            assert(p[k + 1] == p[k] + MAP_WIDTH as int);
        }
        assert(is_floor_path(g, p) && p.first() == idx_of(x, ya) && p.last() == idx_of(x, yb));
    } else {
        let p = Seq::new((ya - yb + 1) as nat, |k: int| idx_of(x, ya - k));
        assert forall|k: int| 0 <= k < p.len() implies valid_idx(#[trigger] p[k]) && g[p[k]]
            == TileType::Floor by {
            assert(p[k] == idx_of(x, ya - k) && valid_xy(x, ya - k));
        }
        assert forall|k: int| 0 <= k < p.len() - 1 implies adjacent(#[trigger] p[k], p[k + 1]) by {
            assert(p[k + 1] == p[k] - MAP_WIDTH as int);
        }
        assert(is_floor_path(g, p) && p.first() == idx_of(x, ya) && p.last() == idx_of(x, yb));
    }
}

/// A well-placed room's center lies in its carved interior.
pub proof fn lemma_center_in_room(r: Rect)
    requires
        room_ok(r),
    ensures
        room_covers(r, room_center_idx(r)),
        valid_xy(r.spec_center().0, r.spec_center().1),
        r.x1 + 1 <= r.spec_center().0 <= r.x2,
        r.y1 + 1 <= r.spec_center().1 <= r.y2,
{
    let cx = r.spec_center().0;
    let cy = r.spec_center().1;
    assert(r.x1 + 3 <= cx <= r.x2 - 3 + 1);
    assert(r.y1 + 3 <= cy <= r.y2 - 3 + 1);
    lemma_idx_decomp(cx, cy);
}

/// Any two cells of a room's floor-carved interior reach each other: walk the
/// column to the target row, then the row.
pub proof fn lemma_room_interior_reachable(g: Seq<TileType>, r: Rect, i: int, j: int)
    requires
        g.len() == MAP_TILES as int,
        room_ok(r),
        forall|i2: int| #[trigger] room_covers(r, i2) ==> g[i2] == TileType::Floor,
        room_covers(r, i),
        room_covers(r, j),
    ensures
        reachable(g, i, j),
{
    let xi = i % (MAP_WIDTH as int);
    let yi = i / (MAP_WIDTH as int);
    let xj = j % (MAP_WIDTH as int);
    let yj = j / (MAP_WIDTH as int);
    lemma_idx_recomp(i);
    lemma_idx_recomp(j);
    assert forall|y: int|
        vstd::math::min(yi, yj) <= y <= vstd::math::max(yi, yj) implies g[#[trigger] idx_of(
        xi,
        y,
    )] == TileType::Floor by {
        lemma_idx_decomp(xi, y);
        assert(room_covers(r, idx_of(xi, y)));
    }
    lemma_v_span_reachable(g, yi, yj, xi);
    assert forall|x: int|
        vstd::math::min(xi, xj) <= x <= vstd::math::max(xi, xj) implies g[#[trigger] idx_of(
        x,
        yj,
    )] == TileType::Floor by {
        lemma_idx_decomp(x, yj);
        assert(room_covers(r, idx_of(x, yj)));
    }
    lemma_h_span_reachable(g, xi, xj, yj);
    lemma_reachable_trans(g, i, idx_of(xi, yj), j);
}

/// Connectivity invariant of generation: every accepted room's center
/// reaches the first accepted room's center.
pub open spec fn conn_inv(s: GenState) -> bool {
    forall|k: int|
        0 <= k < s.rooms.len() ==> reachable(
            s.grid,
            room_center_idx(s.rooms[0]),
            room_center_idx(#[trigger] s.rooms[k]),
        )
}

/// One attempt preserves the connectivity invariant: an accepted room is
/// carved together with a corridor to the room accepted just before it, and
/// carving never removes floor.
proof fn lemma_attempt_conn(seed: u64, s: GenState)
    requires
        state_inv(s),
        conn_inv(s),
    ensures
        conn_inv(attempt(seed, s)),
{
    let s2 = attempt(seed, s);
    let w = in_range(
        range_result(seed, s.draws, MIN_SIZE as int, MAX_SIZE as int),
        MIN_SIZE as int,
        MAX_SIZE as int,
    );
    let d1 = s.draws.push(range_draw(MIN_SIZE as int, MAX_SIZE as int));
    let h = in_range(
        range_result(seed, d1, MIN_SIZE as int, MAX_SIZE as int),
        MIN_SIZE as int,
        MAX_SIZE as int,
    );
    let d2 = d1.push(range_draw(MIN_SIZE as int, MAX_SIZE as int));
    let x = in_range(
        roll_result(seed, d2, 1, MAP_WIDTH as int - w - 1),
        1,
        MAP_WIDTH as int - w,
    ) - 1;
    let d3 = d2.push(roll_draw(1, MAP_WIDTH as int - w - 1));
    let y = in_range(
        roll_result(seed, d3, 1, MAP_HEIGHT as int - h - 1),
        1,
        MAP_HEIGHT as int - h,
    ) - 1;
    let d4 = d3.push(roll_draw(1, MAP_HEIGHT as int - h - 1));
    let room = Rect {
        x1: x as i32,
        y1: y as i32,
        x2: (x + w) as i32,
        y2: (y + h) as i32,
    };
    if hits_existing(room, s.rooms) {
        assert(s2.grid == s.grid && s2.rooms == s.rooms);
    } else {
        assert(MIN_SIZE as int <= w < MAX_SIZE as int);
        assert(0 <= x <= MAP_WIDTH as int - w - 2);
        assert(0 <= y <= MAP_HEIGHT as int - h - 2);
        assert(room_ok(room));
        lemma_center_in_room(room);
        let carved = carve_room(s.grid, room);
        let c_new = room_center_idx(room);
        assert(carved[c_new] == TileType::Floor);
        if s.rooms.len() == 0 {
            assert(s2.grid == carved);
            assert(s2.rooms == s.rooms.push(room) && s2.rooms[0] == room);
            lemma_reachable_refl(carved, c_new);
            assert(conn_inv(s2));
        } else {
            let prev = s.rooms[s.rooms.len() - 1];
            assert(room_ok(prev));
            lemma_center_in_room(prev);
            let cn = room.spec_center();
            let cp = prev.spec_center();
            let c_prev = room_center_idx(prev);
            let d = in_range(roll_result(seed, d4, 1, 100), 1, 101);
            let grid2 = s2.grid;
            assert(grid2.len() == MAP_TILES as int);
            // Carving only adds floor, through every layer.
            assert forall|i: int|
                valid_idx(i) && s.grid[i] == TileType::Floor implies grid2[i]
                == TileType::Floor by {
                assert(carved[i] == TileType::Floor);
            }
            assert forall|i: int|
                valid_idx(i) && carved[i] == TileType::Floor implies grid2[i]
                == TileType::Floor by {}
            // The corridor's two spans are floor in the final grid.
            if d < 50 {
                let mid = carve_h(carved, cn.0, cp.0, cp.1);
                assert(grid2 == carve_v(mid, cn.1, cp.1, cn.0));
                assert forall|x2: int|
                    vstd::math::min(cp.0, cn.0) <= x2 <= vstd::math::max(cp.0, cn.0) implies grid2[
                    #[trigger] idx_of(x2, cp.1)] == TileType::Floor by {
                    assert(h_covers(cn.0, cp.0, cp.1, idx_of(x2, cp.1)));
                    assert(mid[idx_of(x2, cp.1)] == TileType::Floor);
                }
                lemma_h_span_reachable(grid2, cp.0, cn.0, cp.1);
                assert forall|y2: int|
                    vstd::math::min(cp.1, cn.1) <= y2 <= vstd::math::max(cp.1, cn.1) implies grid2[
                    #[trigger] idx_of(cn.0, y2)] == TileType::Floor by {
                    lemma_idx_decomp(cn.0, y2);
                    assert(v_covers(cn.1, cp.1, cn.0, idx_of(cn.0, y2)));
                }
                lemma_v_span_reachable(grid2, cp.1, cn.1, cn.0);
                lemma_reachable_trans(grid2, c_prev, idx_of(cn.0, cp.1), c_new);
            } else {
                let mid = carve_v(carved, cn.1, cp.1, cp.0);
                assert(grid2 == carve_h(mid, cn.0, cp.0, cn.1));
                assert forall|y2: int|
                    vstd::math::min(cp.1, cn.1) <= y2 <= vstd::math::max(cp.1, cn.1) implies grid2[
                    #[trigger] idx_of(cp.0, y2)] == TileType::Floor by {
                    lemma_idx_decomp(cp.0, y2);
                    assert(v_covers(cn.1, cp.1, cp.0, idx_of(cp.0, y2)));
                    assert(mid[idx_of(cp.0, y2)] == TileType::Floor);
                }
                lemma_v_span_reachable(grid2, cp.1, cn.1, cp.0);
                assert forall|x2: int|
                    vstd::math::min(cp.0, cn.0) <= x2 <= vstd::math::max(cp.0, cn.0) implies grid2[
                    #[trigger] idx_of(x2, cn.1)] == TileType::Floor by {
                    assert(h_covers(cn.0, cp.0, cn.1, idx_of(x2, cn.1)));
                }
                lemma_h_span_reachable(grid2, cp.0, cn.0, cn.1);
                lemma_reachable_trans(grid2, c_prev, idx_of(cp.0, cn.1), c_new);
            }
            assert(reachable(grid2, c_prev, c_new));
            assert(s2.rooms == s.rooms.push(room));
            assert(s2.rooms[0] == s.rooms[0]);
            let c0 = room_center_idx(s.rooms[0]);
            assert forall|k: int|
                0 <= k < s2.rooms.len() implies reachable(
                s2.grid,
                room_center_idx(s2.rooms[0]),
                room_center_idx(#[trigger] s2.rooms[k]),
            ) by {
                if k < s.rooms.len() {
                    assert(s2.rooms[k] == s.rooms[k]);
                    lemma_reachable_mono(s.grid, grid2, c0, room_center_idx(s.rooms[k]));
                } else {
                    assert(s2.rooms[k] == room);
                    lemma_reachable_mono(s.grid, grid2, c0, c_prev);
                    lemma_reachable_trans(grid2, c0, c_prev, c_new);
                }
            }
        }
    }
}

/// The connectivity invariant holds after any number of attempts.
proof fn lemma_gen_rec_conn(seed: u64, n: nat)
    ensures
        conn_inv(gen_rec(seed, n)),
    decreases n,
{
    if n == 0 {
    } else {
        lemma_gen_rec_conn(seed, (n - 1) as nat);
        crate::gen::lemma_gen_rec_inv(seed, (n - 1) as nat);
        lemma_attempt_conn(seed, gen_rec(seed, (n - 1) as nat));
    }
}

/// Connectivity: in a generated dungeon, every cell of every accepted room's
/// carved interior is reachable from every cell of the first accepted room's
/// carved interior, walking floor cells with 4-directional steps.
pub proof fn lemma_generated_connected(seed: u64, k: int, i: int, j: int)
    requires
        0 <= k < gen_model(seed).rooms.len(),
        room_covers(gen_model(seed).rooms[0], i),
        room_covers(gen_model(seed).rooms[k], j),
    ensures
        reachable(gen_model(seed).grid, i, j),
{
    crate::gen::lemma_gen_rec_inv(seed, MAX_ROOMS as nat);
    lemma_gen_rec_conn(seed, MAX_ROOMS as nat);
    let s = gen_model(seed);
    let c0 = room_center_idx(s.rooms[0]);
    let ck = room_center_idx(s.rooms[k]);
    lemma_center_in_room(s.rooms[0]);
    lemma_center_in_room(s.rooms[k]);
    assert forall|i2: int| #[trigger] room_covers(s.rooms[0], i2) implies s.grid[i2]
        == TileType::Floor by {}
    assert forall|i2: int| #[trigger] room_covers(s.rooms[k], i2) implies s.grid[i2]
        == TileType::Floor by {}
    lemma_room_interior_reachable(s.grid, s.rooms[0], i, c0);
    lemma_room_interior_reachable(s.grid, s.rooms[k], ck, j);
    lemma_reachable_trans(s.grid, i, c0, ck);
    lemma_reachable_trans(s.grid, i, ck, j);
}

} // verus!
