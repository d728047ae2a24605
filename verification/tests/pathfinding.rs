use castli::exports::TileE;
use castli::map::GameMap;
use castli::GameCoord;

fn grass(rows: usize, cols: usize) -> Vec<Vec<TileE>> {
    vec![vec![TileE::Grass; cols]; rows]
}

fn is_king_step(a: GameCoord, b: GameCoord) -> bool {
    let dx = if a.x >= b.x { a.x - b.x } else { b.x - a.x };
    let dy = if a.y >= b.y { a.y - b.y } else { b.y - a.y };
    (a != b) && dx <= 1 && dy <= 1
}

fn chebyshev(a: GameCoord, b: GameCoord) -> usize {
    let dx = if a.x >= b.x { a.x - b.x } else { b.x - a.x };
    let dy = if a.y >= b.y { a.y - b.y } else { b.y - a.y };
    if dx >= dy { dx } else { dy }
}

#[test]
fn find_path_same_cell_is_single_element() {
    let map = GameMap::from_tiles(&grass(10, 10)).unwrap();
    let p = GameCoord { x: 3, y: 4 };
    let path = map.find_path(p, p).unwrap();
    assert_eq!(path.len(), 1);
    assert_eq!(path[0], p);
}

#[test]
fn find_path_open_grid_is_consistent_with_chebyshev() {
    let map = GameMap::from_tiles(&grass(10, 10)).unwrap();
    let start = GameCoord { x: 1, y: 1 };
    let end = GameCoord { x: 7, y: 4 };
    let path = map.find_path(start, end).unwrap();
    assert_eq!(path[0], start);
    assert_eq!(path[path.len() - 1], end);
    assert!(path.len() >= chebyshev(start, end) + 1);
    for i in 0..path.len() - 1 {
        assert!(is_king_step(path[i], path[i + 1]));
    }
}

#[test]
fn find_path_avoids_water() {
    let mut tiles = grass(8, 8);
    for x in 0..8 {
        if x != 7 {
            tiles[3][x] = TileE::Water;
        }
    }
    let map = GameMap::from_tiles(&tiles).unwrap();
    let start = GameCoord { x: 0, y: 0 };
    let end = GameCoord { x: 0, y: 7 };
    let path = map.find_path(start, end).unwrap();
    assert_eq!(path[0], start);
    assert_eq!(path[path.len() - 1], end);
    for cell in path.iter() {
        assert!(tiles[cell.y][cell.x] != TileE::Water);
    }
}

#[test]
fn find_path_full_wall_reports_no_path() {
    let mut tiles = grass(9, 9);
    for y in 0..9 {
        tiles[y][4] = TileE::Water;
    }
    let map = GameMap::from_tiles(&tiles).unwrap();
    let start = GameCoord { x: 1, y: 4 };
    let end = GameCoord { x: 7, y: 4 };
    assert!(map.find_path(start, end).is_none());
}

#[test]
fn find_path_rejects_water_endpoints() {
    let mut tiles = grass(6, 6);
    tiles[2][2] = TileE::Water;
    let map = GameMap::from_tiles(&tiles).unwrap();
    let wet = GameCoord { x: 2, y: 2 };
    let dry = GameCoord { x: 0, y: 0 };
    assert!(map.find_path(wet, dry).is_none());
    assert!(map.find_path(dry, wet).is_none());
}

#[test]
fn find_path_rejects_out_of_bounds_endpoints() {
    let map = GameMap::from_tiles(&grass(5, 5)).unwrap();
    let inside = GameCoord { x: 1, y: 1 };
    let outside = GameCoord { x: 9, y: 1 };
    assert!(map.find_path(inside, outside).is_none());
    assert!(map.find_path(outside, inside).is_none());
}

#[test]
fn from_tiles_rejects_empty_and_ragged_grids() {
    assert!(GameMap::from_tiles(&Vec::new()).is_none());
    assert!(GameMap::from_tiles(&vec![Vec::new()]).is_none());
    let mut ragged = grass(3, 3);
    ragged[1].pop();
    assert!(GameMap::from_tiles(&ragged).is_none());
}

#[test]
fn obstacles_mark_exactly_the_water_tiles() {
    let mut tiles = grass(6, 7);
    tiles[0][0] = TileE::Water;
    tiles[5][6] = TileE::Water;
    tiles[2][3] = TileE::Woods;
    let map = GameMap::from_tiles(&tiles).unwrap();
    for y in 0..6 {
        for x in 0..7 {
            assert_eq!(map.obstacles.get(y, x), tiles[y][x] == TileE::Water);
        }
    }
}

#[test]
fn generated_map_obstacles_match_water() {
    let map = GameMap::new_sized(48, 48);
    assert_eq!(map.tiles.rows, 48);
    assert_eq!(map.tiles.cols, 48);
    for y in 0..48 {
        for x in 0..48 {
            assert_eq!(map.obstacles.get(y, x), map.tiles.get(y, x) == TileE::Water);
        }
    }
}

#[test]
fn export_matches_tiles() {
    let mut tiles = grass(4, 5);
    tiles[1][2] = TileE::Water;
    let map = GameMap::from_tiles(&tiles).unwrap();
    let exported = map.export();
    assert_eq!(exported, tiles);
}

#[test]
fn find_path_threads_a_winding_corridor() {
    // Two wall segments leave only a zig-zag corridor; the path must exist
    // and is found.
    let mut tiles = grass(9, 9);
    for y in 0..8 {
        tiles[y][2] = TileE::Water;
    }
    for y in 1..9 {
        tiles[y][5] = TileE::Water;
    }
    let map = GameMap::from_tiles(&tiles).unwrap();
    let start = GameCoord { x: 0, y: 0 };
    let end = GameCoord { x: 8, y: 0 };
    let path = map.find_path(start, end).unwrap();
    assert_eq!(path[0], start);
    assert_eq!(path[path.len() - 1], end);
    for i in 0..path.len() - 1 {
        assert!(is_king_step(path[i], path[i + 1]));
    }
    for cell in path.iter() {
        assert!(tiles[cell.y][cell.x] != TileE::Water);
    }
    // The corridor forces a detour well past the straight-line distance.
    assert!(path.len() >= chebyshev(start, end) + 1);
}
