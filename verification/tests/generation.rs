use rouge_tutorial::map::{map_2d_to_vec_idx, TileGrid, TileType};
use rouge_tutorial::rect::Rect;

fn interior_cells(room: &Rect) -> Vec<usize> {
    let mut cells = Vec::new();
    for y in room.y1 + 1..=room.y2 {
        for x in room.x1 + 1..=room.x2 {
            cells.push(map_2d_to_vec_idx(x, y));
        }
    }
    cells
}

/// Flood fill over floor cells with 4-directional steps, from `start`.
fn reachable_floor(grid: &TileGrid, start: usize) -> Vec<bool> {
    let mut seen = vec![false; 4000];
    let mut queue = vec![start];
    seen[start] = true;
    while let Some(i) = queue.pop() {
        let (x, y) = (i % 80, i / 80);
        let mut neighbours = Vec::new();
        if x > 0 {
            neighbours.push(i - 1);
        }
        if x < 79 {
            neighbours.push(i + 1);
        }
        if y > 0 {
            neighbours.push(i - 80);
        }
        if y < 49 {
            neighbours.push(i + 80);
        }
        for n in neighbours {
            if !seen[n] && grid.0[n] == TileType::Floor {
                seen[n] = true;
                queue.push(n);
            }
        }
    }
    seen
}

#[test]
fn seeded_generation_is_deterministic() {
    let (grid_a, rooms_a) = TileGrid::generate_seeded(12345);
    let (grid_b, rooms_b) = TileGrid::generate_seeded(12345);
    assert_eq!(grid_a.0, grid_b.0);
    assert_eq!(rooms_a, rooms_b);
}

#[test]
fn different_seeds_give_different_dungeons() {
    let (grid_a, _) = TileGrid::generate_seeded(1);
    let (grid_b, _) = TileGrid::generate_seeded(2);
    assert_ne!(grid_a.0, grid_b.0);
}

#[test]
fn generation_yields_rooms_and_floor() {
    let (grid, rooms) = TileGrid::generate_seeded(42);
    assert_eq!(grid.0.len(), 4000);
    assert!(!rooms.is_empty());
    assert!(grid.0.iter().any(|t| *t == TileType::Floor));
}

#[test]
fn accepted_rooms_do_not_overlap() {
    for seed in [0u64, 7, 42, 1000, 123456789] {
        let (_, rooms) = TileGrid::generate_seeded(seed);
        for (i, a) in rooms.iter().enumerate() {
            for (j, b) in rooms.iter().enumerate() {
                if i != j {
                    assert!(!a.overlaps(b), "seed {seed}: rooms {i} and {j} overlap");
                }
            }
        }
    }
}

#[test]
fn accepted_rooms_stay_inside_the_margin() {
    for seed in [0u64, 7, 42, 1000, 123456789] {
        let (_, rooms) = TileGrid::generate_seeded(seed);
        for room in &rooms {
            assert!(0 <= room.x1 && room.x2 <= 78, "{room:?}");
            assert!(0 <= room.y1 && room.y2 <= 48, "{room:?}");
            assert!((6..10).contains(&(room.x2 - room.x1)));
            assert!((6..10).contains(&(room.y2 - room.y1)));
        }
    }
}

#[test]
fn room_interiors_are_carved_to_floor() {
    let (grid, rooms) = TileGrid::generate_seeded(42);
    for room in &rooms {
        for cell in interior_cells(room) {
            assert_eq!(grid.0[cell], TileType::Floor);
        }
    }
}

#[test]
fn every_room_is_reachable_from_the_first() {
    for seed in [0u64, 7, 42, 1000, 123456789] {
        let (grid, rooms) = TileGrid::generate_seeded(seed);
        let start = interior_cells(&rooms[0])[0];
        let seen = reachable_floor(&grid, start);
        for room in &rooms {
            for cell in interior_cells(room) {
                assert!(seen[cell], "seed {seed}: cell {cell} unreachable");
            }
        }
    }
}

#[test]
fn entropy_generation_yields_a_playable_map() {
    let (grid, rooms) = TileGrid::generate();
    assert_eq!(grid.0.len(), 4000);
    assert!(!rooms.is_empty());
    assert!(grid.0.iter().any(|t| *t == TileType::Floor));
}
