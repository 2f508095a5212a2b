use rouge_tutorial::map::{
    apply_horizontal_tunnel, apply_room_to_map, apply_vertical_tunnel, map_2d_to_vec_idx,
    TileGrid, TileType,
};
use rouge_tutorial::rect::Rect;

#[test]
fn horizontal_tunnel_skips_index_zero() {
    let mut grid = TileGrid::new_solid();
    apply_horizontal_tunnel(&mut grid, 0, 5, 0);
    assert_eq!(grid.0[0], TileType::Wall);
    for x in 1..=5usize {
        assert_eq!(grid.0[x], TileType::Floor);
    }
    assert_eq!(grid.0[6], TileType::Wall);
}

#[test]
fn horizontal_tunnel_carves_inclusive_span_either_order() {
    let mut grid = TileGrid::new_solid();
    apply_horizontal_tunnel(&mut grid, 7, 3, 10);
    for (idx, tile) in grid.0.iter().enumerate() {
        let carved = (10 * 80 + 3..=10 * 80 + 7).contains(&idx);
        assert_eq!(*tile == TileType::Floor, carved);
    }
}

#[test]
fn vertical_tunnel_skips_index_zero() {
    let mut grid = TileGrid::new_solid();
    apply_vertical_tunnel(&mut grid, 0, 2, 0);
    assert_eq!(grid.0[0], TileType::Wall);
    assert_eq!(grid.0[80], TileType::Floor);
    assert_eq!(grid.0[160], TileType::Floor);
    assert_eq!(grid.0[240], TileType::Wall);
}

#[test]
fn vertical_tunnel_carves_inclusive_span_either_order() {
    let mut grid = TileGrid::new_solid();
    apply_vertical_tunnel(&mut grid, 20, 15, 40);
    for (idx, tile) in grid.0.iter().enumerate() {
        let carved = idx % 80 == 40 && (15..=20).contains(&(idx / 80));
        assert_eq!(*tile == TileType::Floor, carved);
    }
}

#[test]
fn room_carving_fills_interior_only() {
    let mut grid = TileGrid::new_solid();
    let room = Rect::new(10, 10, 6, 6);
    apply_room_to_map(&room, &mut grid);
    for y in 0..50i32 {
        for x in 0..80i32 {
            let inside = (11..=16).contains(&x) && (11..=16).contains(&y);
            let tile = grid.0[map_2d_to_vec_idx(x, y)];
            assert_eq!(tile == TileType::Floor, inside, "cell ({x}, {y})");
        }
    }
}
