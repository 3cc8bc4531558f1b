use lycan::pathfinding::{AStarTiles, Point};

fn open_grid() -> AStarTiles {
    let tiles = vec![1u8; 25];
    AStarTiles::new(tiles, 5)
}

fn assert_route(tiles: &AStarTiles, start: Point, end: Point) {
    let path = tiles.do_pathfinding(start, end).expect("a route exists");
    let pts = path.0;
    assert!(!pts.is_empty());
    assert_eq!(*pts.last().unwrap(), end);
    let mut prev = start;
    for p in pts {
        let dx = if p.x > prev.x { p.x - prev.x } else { prev.x - p.x };
        let dy = if p.y > prev.y { p.y - prev.y } else { prev.y - p.y };
        assert_eq!(dx + dy, 1, "every step is one tile");
        prev = p;
    }
}

#[test]
fn a_straight_route_is_found() {
    let tiles = open_grid();
    assert_route(&tiles, Point::new(0, 0), Point::new(0, 4));
}

#[test]
fn a_route_bends_around_a_wall() {
    // A wall across row 2, with one gap at column 4.
    let mut tiles = vec![1u8; 25];
    for y in 0..4 {
        tiles[2 * 5 + y] = 0;
    }
    let grid = AStarTiles::new(tiles, 5);
    assert_route(&grid, Point::new(0, 0), Point::new(4, 0));
}

#[test]
fn a_sealed_goal_is_unreachable() {
    // The goal corner is walled off completely.
    let mut tiles = vec![1u8; 25];
    tiles[3 * 5 + 4] = 0;
    tiles[4 * 5 + 3] = 0;
    let grid = AStarTiles::new(tiles, 5);
    assert!(grid.do_pathfinding(Point::new(0, 0), Point::new(4, 4)).is_none());
}

#[test]
fn distances_are_manhattan() {
    let a = Point::new(1, 2);
    assert_eq!(a.get_distance(Point::new(4, 0)), 5);
    assert_eq!(a.get_distance(a), 0);
}
