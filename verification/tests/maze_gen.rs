//! Tiles, maze validation and the generators.
use fourmilaby::config::GeneratorConfig;
use fourmilaby::config::NestPositioning;
use fourmilaby::config::scaled;
use fourmilaby::generator::generate_empty_maze;
use fourmilaby::generator::generate_maze;
use fourmilaby::generator::generate_maze_backtracking;
use fourmilaby::maze::Maze;
use fourmilaby::maze::Tile;
use fourmilaby::maze::generate_basic_maze;
use fourmilaby::messages::JoinMessageBody;

fn tile_at(m: &Maze, x: u32, y: u32) -> Tile {
    m.get_tile(x, y).unwrap()
}

/// Every wall between two in-bounds neighbors must be mutual.
fn assert_mutual_walls(m: &Maze) {
    for x in 0..m.nb_column {
        for y in 0..m.nb_line {
            let t = tile_at(m, x, y);
            if x + 1 < m.nb_column {
                let e = tile_at(m, x + 1, y);
                assert_eq!(t.wall_east(), e.wall_west());
            }
            if y + 1 < m.nb_line {
                let s = tile_at(m, x, y + 1);
                assert_eq!(t.wall_south(), s.wall_north());
            }
        }
    }
}

fn assert_hull(m: &Maze) {
    for x in 0..m.nb_column {
        assert!(tile_at(m, x, 0).wall_north());
        assert!(tile_at(m, x, m.nb_line - 1).wall_south());
    }
    for y in 0..m.nb_line {
        assert!(tile_at(m, 0, y).wall_west());
        assert!(tile_at(m, m.nb_column - 1, y).wall_east());
    }
}

fn count_flags(m: &Maze) -> (u32, u32) {
    let mut nests = 0;
    let mut foods = 0;
    for x in 0..m.nb_column {
        for y in 0..m.nb_line {
            let t = tile_at(m, x, y);
            if t.is_nest() {
                nests += 1;
            }
            if t.is_food() {
                foods += 1;
            }
        }
    }
    (nests, foods)
}

#[test]
fn tile_flag_round_trip() {
    let mut t = Tile(0);
    t.set_wall_north(true);
    t.set_wall_south(true);
    t.set_wall_east(true);
    t.set_wall_west(true);
    t.set_nest(true);
    t.set_food(true);
    assert!(t.wall_north() && t.wall_south() && t.wall_east() && t.wall_west());
    assert!(t.is_nest() && t.is_food());
    assert_eq!(t.0, 0x3f);
    t.set_wall_east(false);
    assert!(!t.wall_east());
    assert!(t.wall_north() && t.wall_south() && t.wall_west() && t.is_nest() && t.is_food());
}

#[test]
fn maze_new_validates() {
    // One nest: accepted.
    let tiles = [0x10u8, 0, 0, 0];
    let m = Maze::new(2, 2, &tiles).unwrap();
    assert_eq!(m.nest_column, 0);
    assert_eq!(m.nest_line, 0);
    // Wrong length: rejected.
    assert!(Maze::new(3, 2, &tiles).is_err());
    // No nest: rejected.
    assert!(Maze::new(2, 2, &[0u8, 0, 0, 0]).is_err());
    // Two nests: rejected.
    assert!(Maze::new(2, 2, &[0x10u8, 0x10, 0, 0]).is_err());
}

#[test]
fn maze_indexing_is_column_then_line() {
    // index = x + y * nb_column: tile 1 of a 3x2 grid is (1, 0).
    let tiles = [0u8, 0x10, 0, 0, 0x20, 0];
    let m = Maze::new(3, 2, &tiles).unwrap();
    assert_eq!(m.nest_column, 1);
    assert_eq!(m.nest_line, 0);
    assert!(m.get_tile(1, 0).unwrap().is_nest());
    assert!(m.get_tile(1, 1).unwrap().is_food());
    assert!(m.get_tile(3, 0).is_none());
    assert!(m.get_tile(0, 2).is_none());
}

#[test]
fn basic_maze_of_one_tile_fails() {
    // The food write lands on the only nest tile, so validation fails.
    match generate_basic_maze(1) {
        Err(fourmilaby::error::ServerError::InvalidMaze(_)) => (),
        other => panic!("expected an invalid maze, got {:?}", other),
    }
}

#[test]
fn basic_maze_shape() {
    let m = generate_basic_maze(5).unwrap();
    assert_eq!(m.nb_column, 5);
    assert_eq!(m.nb_line, 5);
    let (nests, foods) = count_flags(&m);
    assert_eq!(nests, 1);
    assert_eq!(foods, 1);
    assert!(tile_at(&m, 0, 0).is_nest());
    assert!(tile_at(&m, 4, 4).is_food());
}

#[test]
fn backtracking_maze_invariants() {
    let rng = fastrand::Rng::with_seed(7);
    let m = generate_maze_backtracking((8, 6), (1, 1), 3, 2, &rng).unwrap();
    assert_eq!(m.nb_column, 8);
    assert_eq!(m.nb_line, 6);
    assert_eq!(m.nest_column, 1);
    assert_eq!(m.nest_line, 1);
    assert!(tile_at(&m, 1, 1).is_nest());
    let (nests, foods) = count_flags(&m);
    assert_eq!(nests, 1);
    assert!(foods >= 1);
    assert_mutual_walls(&m);
    assert_hull(&m);
}

#[test]
fn backtracking_rejects_bad_inputs() {
    let rng = fastrand::Rng::with_seed(7);
    assert!(generate_maze_backtracking((0, 6), (0, 0), 1, 1, &rng).is_err());
    assert!(generate_maze_backtracking((8, 0), (0, 0), 1, 1, &rng).is_err());
    // Nest out of bounds.
    assert!(generate_maze_backtracking((4, 4), (4, 1), 1, 1, &rng).is_err());
    // Food budget infeasible: food_count + 1 >= (w-1)*(h-1).
    assert!(generate_maze_backtracking((3, 3), (1, 1), 3, 1, &rng).is_err());
}

#[test]
fn empty_maze_invariants() {
    let rng = fastrand::Rng::with_seed(11);
    let m = generate_empty_maze(6, 6, &rng).unwrap();
    let (nests, foods) = count_flags(&m);
    assert_eq!(nests, 1);
    assert!(foods >= 1);
    assert_mutual_walls(&m);
    assert_hull(&m);
    assert!(generate_empty_maze(0, 6, &rng).is_err());
}

#[test]
fn default_config_dimensions_at_difficulty_zero() {
    // From the defaults at difficulty 0 the maze is 5 columns by 4 lines.
    let config = GeneratorConfig::default();
    assert_eq!(scaled(config.column_min, config.column_coeff_centi, 0), 5);
    assert_eq!(scaled(config.line_min, config.line_coeff_centi, 0), 4);
    let rng = fastrand::Rng::with_seed(3);
    let body = JoinMessageBody { difficulty: 0, player_id: None };
    let m = generate_maze(&config, &body, &rng).unwrap();
    assert_eq!(m.nb_column, 5);
    assert_eq!(m.nb_line, 4);
    assert_eq!(m.nest_column, 1);
    assert_eq!(m.nest_line, 1);
    let (nests, foods) = count_flags(&m);
    assert_eq!(nests, 1);
    assert!(foods >= 1);
}

#[test]
fn scaled_grows_linearly() {
    // 3.0 per difficulty step on columns, 0.25 on food.
    assert_eq!(scaled(5, 300, 2), 11);
    assert_eq!(scaled(1, 25, 3), 1);
    assert_eq!(scaled(1, 25, 4), 2);
}

#[test]
fn randomized_nest_is_in_bounds() {
    let mut config = GeneratorConfig::default();
    config.nest_pos = NestPositioning::Randomized;
    let rng = fastrand::Rng::with_seed(5);
    let body = JoinMessageBody { difficulty: 1, player_id: None };
    let m = generate_maze(&config, &body, &rng).unwrap();
    assert!(m.nest_column < m.nb_column);
    assert!(m.nest_line < m.nb_line);
    assert!(tile_at(&m, m.nest_column, m.nest_line).is_nest());
}

#[test]
fn set_tile_writes_in_bounds_only() {
    let mut m = Maze::new(2, 2, &[0x10u8, 0, 0, 0]).unwrap();
    m.set_tile(1, 1, &Tile(0x2d));
    assert_eq!(m.get_tile(1, 1).unwrap().0, 0x2d);
    let before = m.tiles.clone();
    m.set_tile(2, 0, &Tile(0xff));
    assert_eq!(m.tiles, before);
}

#[test]
fn duplicate_copies_every_field() {
    let m = generate_basic_maze(4).unwrap();
    let c = m.duplicate();
    assert_eq!(c.nb_column, m.nb_column);
    assert_eq!(c.nb_line, m.nb_line);
    assert_eq!(c.nest_column, m.nest_column);
    assert_eq!(c.nest_line, m.nest_line);
    assert_eq!(c.tiles, m.tiles);
}
