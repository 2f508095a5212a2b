//! Dungeon generation: up to `MAX_ROOMS` random rooms carved into a solid
//! grid, each new room joined to the previously accepted one by an L-shaped
//! corridor whose bend direction is drawn per connection.
//!
//! Generation from a seed is modelled by `gen_model`, a spec-level replay of
//! the algorithm over the named results of the generator's draws. The
//! executable generator is proved to return exactly its model, so two runs
//! from one seed agree by construction.

use vstd::prelude::*;
use crate::map::{
    TileGrid, TileType, carve_room, carve_h, carve_v, room_covers, idx_of, valid_idx,
    lemma_idx_decomp, MAP_WIDTH, MAP_HEIGHT, MAP_TILES, apply_room_to_map,
    apply_horizontal_tunnel, apply_vertical_tunnel,
};
use crate::rect::Rect;
use crate::rng::{RandomSource, range_result, roll_result, range_draw, roll_draw};
use crate::rng;

verus! {

/// Placement attempts made in one generation run.
pub const MAX_ROOMS: i32 = 30;

/// Smallest room side drawn (inclusive).
pub const MIN_SIZE: i32 = 6;

/// Largest room side drawn (exclusive, matching the range the side is drawn from).
pub const MAX_SIZE: i32 = 10;

/// The state generation threads through its attempts: the grid so far, the
/// accepted rooms in placement order, and the draws made so far.
pub struct GenState {
    pub grid: Seq<TileType>,
    pub rooms: Seq<Rect>,
    pub draws: Seq<(int, int, int)>,
}

/// `v` if it lies in `[low, high)`, else `low`: the documented range of a
/// draw, carried into the model so that the model is total.
pub open spec fn in_range(v: int, low: int, high: int) -> int {
    if low <= v < high {
        v
    } else {
        low
    }
}

/// The grid before any carving: solid wall.
pub open spec fn all_wall() -> Seq<TileType> {
    Seq::new(MAP_TILES as nat, |i: int| TileType::Wall)
}

/// The candidate room intersects one of the rooms already placed.
pub open spec fn hits_existing(room: Rect, rooms: Seq<Rect>) -> bool {
    exists|j: int| 0 <= j < rooms.len() && room.spec_overlaps(#[trigger] rooms[j])
}

/// One placement attempt, replayed over the model state: draw a size and a
/// position, reject the candidate if it overlaps an accepted room, otherwise
/// carve it, and, from the second room on, carve an L-shaped corridor to the
/// room accepted just before it, bending as a percentile die decides.
pub open spec fn attempt(seed: u64, s: GenState) -> GenState {
    let w = in_range(
        range_result(seed, s.draws, MIN_SIZE as int, MAX_SIZE as int),
        MIN_SIZE as int,
        MAX_SIZE as int,
    );
    let d1 = s.draws.push(range_draw(MIN_SIZE as int, MAX_SIZE as int));
    let h = in_range(
        range_result(seed, d1, MIN_SIZE as int, MAX_SIZE as int),
        MIN_SIZE as int,
        MAX_SIZE as int,
    );
    let d2 = d1.push(range_draw(MIN_SIZE as int, MAX_SIZE as int));
    let x = in_range(
        roll_result(seed, d2, 1, MAP_WIDTH as int - w - 1),
        1,
        MAP_WIDTH as int - w,
    ) - 1;
    let d3 = d2.push(roll_draw(1, MAP_WIDTH as int - w - 1));
    let y = in_range(
        roll_result(seed, d3, 1, MAP_HEIGHT as int - h - 1),
        1,
        MAP_HEIGHT as int - h,
    ) - 1;
    let d4 = d3.push(roll_draw(1, MAP_HEIGHT as int - h - 1));
    let room = Rect {
        x1: x as i32,
        y1: y as i32,
        x2: (x + w) as i32,
        y2: (y + h) as i32,
    };
    if hits_existing(room, s.rooms) {
        GenState { grid: s.grid, rooms: s.rooms, draws: d4 }
    } else {
        let carved = carve_room(s.grid, room);
        if s.rooms.len() > 0 {
            let c_new = room.spec_center();
            let c_prev = s.rooms[s.rooms.len() - 1].spec_center();
            let d = in_range(roll_result(seed, d4, 1, 100), 1, 101);
            let d5 = d4.push(roll_draw(1, 100));
            let grid2 = if d < 50 {
                carve_v(carve_h(carved, c_new.0, c_prev.0, c_prev.1), c_new.1, c_prev.1, c_new.0)
            } else {
                carve_h(carve_v(carved, c_new.1, c_prev.1, c_prev.0), c_new.0, c_prev.0, c_new.1)
            };
            GenState { grid: grid2, rooms: s.rooms.push(room), draws: d5 }
        } else {
            GenState { grid: carved, rooms: s.rooms.push(room), draws: d4 }
        }
    }
}

/// The model state after `n` attempts from the solid grid.
pub open spec fn gen_rec(seed: u64, n: nat) -> GenState
    decreases n,
{
    if n == 0 {
        GenState { grid: all_wall(), rooms: Seq::empty(), draws: Seq::empty() }
    } else {
        attempt(seed, gen_rec(seed, (n - 1) as nat))
    }
}

/// The model of a whole generation run from `seed`.
pub open spec fn gen_model(seed: u64) -> GenState {
    gen_rec(seed, MAX_ROOMS as nat)
}

/// The shape every accepted room has: sides drawn from `[MIN_SIZE, MAX_SIZE)`
/// and a placement that keeps the carved interior at least one tile inside
/// the border of the grid.
pub open spec fn room_ok(r: Rect) -> bool {
    &&& 0 <= r.x1
    &&& r.x1 + MIN_SIZE as int <= r.x2 <= r.x1 + MAX_SIZE as int - 1
    &&& r.x2 <= MAP_WIDTH as int - 2
    &&& 0 <= r.y1
    &&& r.y1 + MIN_SIZE as int <= r.y2 <= r.y1 + MAX_SIZE as int - 1
    &&& r.y2 <= MAP_HEIGHT as int - 2
}

/// What holds of every state generation passes through: a full-size grid,
/// every accepted room well-placed, no two accepted rooms overlapping, and
/// every cell of an accepted room's interior already carved to floor.
pub open spec fn state_inv(s: GenState) -> bool {
    &&& s.grid.len() == MAP_TILES as int
    &&& forall|k: int| 0 <= k < s.rooms.len() ==> room_ok(#[trigger] s.rooms[k])
    &&& forall|k: int, l: int|
        0 <= k < s.rooms.len() && 0 <= l < s.rooms.len() && k != l ==> !(
        #[trigger] s.rooms[k]).spec_overlaps(#[trigger] s.rooms[l])
    &&& forall|k: int, i: int|
        0 <= k < s.rooms.len() && #[trigger] room_covers(s.rooms[k], i) ==> s.grid[i]
            == TileType::Floor
}

/// One attempt preserves the generation invariant; it never removes a room,
/// never turns floor back into wall, and accepts the candidate outright when
/// no room has been accepted yet.
proof fn lemma_attempt_inv(seed: u64, s: GenState)
    requires
        state_inv(s),
    ensures
        state_inv(attempt(seed, s)),
        attempt(seed, s).rooms.len() >= s.rooms.len(),
        s.rooms.len() == 0 ==> attempt(seed, s).rooms.len() == 1,
        forall|i: int|
            valid_idx(i) && s.grid[i] == TileType::Floor ==> attempt(seed, s).grid[i]
                == TileType::Floor,
{
    let s2 = attempt(seed, s);
    let w = in_range(
        range_result(seed, s.draws, MIN_SIZE as int, MAX_SIZE as int),
        MIN_SIZE as int,
        MAX_SIZE as int,
    );
    let d1 = s.draws.push(range_draw(MIN_SIZE as int, MAX_SIZE as int));
    let h = in_range(
        range_result(seed, d1, MIN_SIZE as int, MAX_SIZE as int),
        MIN_SIZE as int,
        MAX_SIZE as int,
    );
    let d2 = d1.push(range_draw(MIN_SIZE as int, MAX_SIZE as int));
    let x = in_range(
        roll_result(seed, d2, 1, MAP_WIDTH as int - w - 1),
        1,
        MAP_WIDTH as int - w,
    ) - 1;
    let d3 = d2.push(roll_draw(1, MAP_WIDTH as int - w - 1));
    let y = in_range(
        roll_result(seed, d3, 1, MAP_HEIGHT as int - h - 1),
        1,
        MAP_HEIGHT as int - h,
    ) - 1;
    let room = Rect {
        x1: x as i32,
        y1: y as i32,
        x2: (x + w) as i32,
        y2: (y + h) as i32,
    };
    assert(MIN_SIZE as int <= w < MAX_SIZE as int);
    assert(0 <= x <= MAP_WIDTH as int - w - 2);
    assert(0 <= y <= MAP_HEIGHT as int - h - 2);
    assert(room.x1 as int == x && room.y1 as int == y && room.x2 as int == x + w
        && room.y2 as int == y + h);
    assert(room_ok(room));
    if !hits_existing(room, s.rooms) {
        assert forall|k: int, l: int|
            0 <= k < s2.rooms.len() && 0 <= l < s2.rooms.len() && k != l implies !(
        #[trigger] s2.rooms[k]).spec_overlaps(#[trigger] s2.rooms[l]) by {
            if k == s.rooms.len() as int {
                assert(!room.spec_overlaps(s.rooms[l]));
            } else if l == s.rooms.len() as int {
                assert(!room.spec_overlaps(s.rooms[k]));
            }
        }
        assert forall|k: int, i: int|
            0 <= k < s2.rooms.len() && #[trigger] room_covers(s2.rooms[k], i) implies s2.grid[i]
            == TileType::Floor by {}
    }
}

/// The generation invariant holds after any number of attempts, with at
/// least one room accepted once any attempt has run.
pub(crate) proof fn lemma_gen_rec_inv(seed: u64, n: nat)
    ensures
        state_inv(gen_rec(seed, n)),
        gen_rec(seed, n).rooms.len() <= n,
        n >= 1 ==> gen_rec(seed, n).rooms.len() >= 1,
    decreases n,
{
    if n == 0 {
    } else {
        lemma_gen_rec_inv(seed, (n - 1) as nat);
        lemma_attempt_inv(seed, gen_rec(seed, (n - 1) as nat));
    }
}

/// Room non-overlap: no two distinct accepted rooms of a generation run
/// intersect.
pub proof fn lemma_rooms_disjoint(seed: u64)
    ensures
        forall|k: int, l: int|
            0 <= k < gen_model(seed).rooms.len() && 0 <= l < gen_model(seed).rooms.len() && k
                != l ==> !(#[trigger] gen_model(seed).rooms[k]).spec_overlaps(
                #[trigger] gen_model(seed).rooms[l]),
{
    lemma_gen_rec_inv(seed, MAX_ROOMS as nat);
}

/// Room containment: every accepted room is placed with its carved interior
/// inside `[1, MAP_WIDTH - 2] x [1, MAP_HEIGHT - 2]`, one tile of margin from
/// the border, with sides drawn from `[MIN_SIZE, MAX_SIZE)`.
pub proof fn lemma_rooms_within_margins(seed: u64)
    ensures
        forall|k: int|
            0 <= k < gen_model(seed).rooms.len() ==> room_ok(#[trigger] gen_model(seed).rooms[k]),
{
    lemma_gen_rec_inv(seed, MAX_ROOMS as nat);
}

/// Every cell of an accepted room's interior is floor in the generated grid.
pub proof fn lemma_rooms_are_carved(seed: u64)
    ensures
        gen_model(seed).grid.len() == MAP_TILES as int,
        forall|k: int, i: int|
            0 <= k < gen_model(seed).rooms.len() && #[trigger] room_covers(
                gen_model(seed).rooms[k],
                i,
            ) ==> gen_model(seed).grid[i] == TileType::Floor,
{
    lemma_gen_rec_inv(seed, MAX_ROOMS as nat);
}

/// Determinism: the outcome of generation is a function of the seed alone,
/// so two runs from equal seeds agree bit for bit — `generate_seeded`
/// returns exactly `gen_model` of its seed.
pub proof fn lemma_generation_deterministic(seed1: u64, seed2: u64)
    requires
        seed1 == seed2,
    ensures
        gen_model(seed1).grid == gen_model(seed2).grid,
        gen_model(seed1).rooms == gen_model(seed2).rooms,
{
}

/// A generation run always accepts at least one room — the first candidate
/// has nothing to collide with — and carves it, so the grid is not all wall.
pub proof fn lemma_generation_yields_a_room(seed: u64)
    ensures
        gen_model(seed).rooms.len() >= 1,
        exists|i: int| valid_idx(i) && gen_model(seed).grid[i] == TileType::Floor,
{
    lemma_gen_rec_inv(seed, MAX_ROOMS as nat);
    let s = gen_model(seed);
    let r = s.rooms[0];
    let i = idx_of(r.x1 as int + 1, r.y1 as int + 1);
    lemma_idx_decomp(r.x1 as int + 1, r.y1 as int + 1);
    assert(room_covers(r, i));
    assert(valid_idx(i) && s.grid[i] == TileType::Floor);
}

impl TileGrid {
    /// Generate a dungeon from the given seed: the result is exactly the
    /// model of that seed, so the run is reproducible.
    pub fn generate_seeded(seed: u64) -> (r: (TileGrid, Vec<Rect>))
        ensures
            r.0.0@ == gen_model(seed).grid,
            r.1@ == gen_model(seed).rooms,
            state_inv(GenState { grid: r.0.0@, rooms: r.1@, draws: gen_model(seed).draws }),
            r.1@.len() >= 1,
    {
        let mut map = TileGrid::new_solid();
        let mut rooms: Vec<Rect> = Vec::new();
        let mut src = RandomSource::seeded(seed);
        proof {
            assert(map.0@ =~= gen_rec(seed, 0).grid);
            assert(rooms@ =~= gen_rec(seed, 0).rooms);
            assert(src.draws@ =~= gen_rec(seed, 0).draws);
        }
        let mut it: i32 = 0;
        while it < MAX_ROOMS
            invariant
                0 <= it <= MAX_ROOMS,
                src.seed@ == seed,
                map.0@ == gen_rec(seed, it as nat).grid,
                rooms@ == gen_rec(seed, it as nat).rooms,
                src.draws@ == gen_rec(seed, it as nat).draws,
            decreases MAX_ROOMS - it,
        {
            let ghost s = gen_rec(seed, it as nat);
            proof {
                lemma_gen_rec_inv(seed, it as nat);
            }
            let w = src.range(MIN_SIZE, MAX_SIZE);
            let h = src.range(MIN_SIZE, MAX_SIZE);
            let x = src.roll_dice(1, MAP_WIDTH - w - 1) - 1;
            let y = src.roll_dice(1, MAP_HEIGHT - h - 1) - 1;
            let new_room = Rect::new(x, y, w, h);
            let mut ok = true;
            let mut ri: usize = 0;
            while ri < rooms.len()
                invariant
                    ri <= rooms@.len(),
                    ok == !(exists|j: int|
                        0 <= j < ri && new_room.spec_overlaps(#[trigger] rooms@[j])),
                decreases rooms@.len() - ri,
            {
                if new_room.overlaps(&rooms[ri]) {
                    ok = false;
                }
                ri = ri + 1;
            }
            assert(ok == !hits_existing(new_room, rooms@));
            if ok {
                proof {
                    assert(room_ok(new_room));
                }
                apply_room_to_map(&new_room, &mut map);
                if rooms.len() > 0 {
                    let (x1, y1) = new_room.center();
                    let prev = rooms[rooms.len() - 1];
                    let (x2, y2) = prev.center();
                    proof {
                        assert(room_ok(prev));
                        assert(0 <= x1 < MAP_WIDTH && 0 <= y1 < MAP_HEIGHT);
                        assert(0 <= x2 < MAP_WIDTH && 0 <= y2 < MAP_HEIGHT);
                    }
                    if src.roll_dice(1, 100) < 50 {
                        apply_horizontal_tunnel(&mut map, x1, x2, y2);
                        apply_vertical_tunnel(&mut map, y1, y2, x1);
                    } else {
                        apply_vertical_tunnel(&mut map, y1, y2, x2);
                        apply_horizontal_tunnel(&mut map, x1, x2, y1);
                    }
                }
                rooms.push(new_room);
            }
            proof {
                assert(gen_rec(seed, (it + 1) as nat) == attempt(seed, s));
                assert(map.0@ == attempt(seed, s).grid);
                assert(rooms@ == attempt(seed, s).rooms);
                assert(src.draws@ == attempt(seed, s).draws);
            }
            it = it + 1;
        }
        proof {
            lemma_gen_rec_inv(seed, MAX_ROOMS as nat);
        }
        (map, rooms)
    }

    /// Generate a dungeon from a machine-entropy seed: the result is the
    /// model of some seed, with everything the invariant gives — well-placed,
    /// pairwise disjoint rooms, at least one of them, their interiors carved.
    pub fn generate() -> (r: (TileGrid, Vec<Rect>))
        ensures
            exists|seed: u64|
                r.0.0@ == gen_model(seed).grid && r.1@ == #[trigger] gen_model(seed).rooms,
            r.0.0@.len() == MAP_TILES,
            r.1@.len() >= 1,
            forall|k: int| 0 <= k < r.1@.len() ==> room_ok(#[trigger] r.1@[k]),
            forall|k: int, l: int|
                0 <= k < r.1@.len() && 0 <= l < r.1@.len() && k != l ==> !(
                #[trigger] r.1@[k]).spec_overlaps(#[trigger] r.1@[l]),
            forall|k: int, i: int|
                0 <= k < r.1@.len() && #[trigger] room_covers(r.1@[k], i) ==> r.0.0@[i]
                    == TileType::Floor,
    {
        let seed = rng::entropy_seed();
        let r = TileGrid::generate_seeded(seed);
        proof {
            lemma_gen_rec_inv(seed, MAX_ROOMS as nat);
        }
        r
    }
}

} // verus!
