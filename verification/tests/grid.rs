use rouge_tutorial::map::{map_2d_to_vec_idx, vec_idx_to_map_2d, TileGrid, TileType};

#[test]
fn round_trip_coords_to_index_and_back() {
    for y in 0..50i32 {
        for x in 0..80i32 {
            let idx = map_2d_to_vec_idx(x, y);
            assert!(idx < 4000);
            assert_eq!(vec_idx_to_map_2d(idx), (x, y));
        }
    }
}

#[test]
fn round_trip_index_to_coords_and_back() {
    for idx in 0..4000usize {
        let (x, y) = vec_idx_to_map_2d(idx);
        assert!((0..80).contains(&x) && (0..50).contains(&y));
        assert_eq!(map_2d_to_vec_idx(x, y), idx);
    }
}

#[test]
fn index_formula_examples() {
    assert_eq!(map_2d_to_vec_idx(0, 0), 0);
    assert_eq!(map_2d_to_vec_idx(79, 0), 79);
    assert_eq!(map_2d_to_vec_idx(0, 1), 80);
    assert_eq!(map_2d_to_vec_idx(79, 49), 3999);
    assert_eq!(map_2d_to_vec_idx(5, 2), 165);
    assert_eq!(vec_idx_to_map_2d(165), (5, 2));
}

#[test]
fn new_grid_is_all_floor() {
    let grid = TileGrid::new();
    assert_eq!(grid.0.len(), 4000);
    assert!(grid.0.iter().all(|t| *t == TileType::Floor));
}

#[test]
fn new_solid_grid_is_all_wall() {
    let grid = TileGrid::new_solid();
    assert_eq!(grid.0.len(), 4000);
    assert!(grid.0.iter().all(|t| *t == TileType::Wall));
}
