//! Ant drivers: the driver interface, a random walker, and a
//! breadth-first path finder from the nest to food.
use vstd::prelude::*;

use crate::maze::Maze;
use crate::maze::Tile;
use crate::maze::lemma_index_bound;
use crate::messages::InfoMessageBody;
use crate::messages::MoveDirection;
use crate::messages::MoveMessageBody;
use crate::messages::invert_move_direction;
use crate::messages::lemma_all_directions_present;
use crate::rng::rng_new;
use crate::rng::rng_shuffle_directions;
use crate::state::wall_in;

verus! {

/// An ant driver: asked for a move from the maze and its latest view.
pub trait AntAI {
    fn step(&mut self, maze: &Maze, message: &InfoMessageBody) -> Option<MoveMessageBody>;
}

impl Tile {
    /// The subset of directions whose wall flag is unset on this tile.
    pub fn get_walkable_directions(&self) -> (r: Vec<MoveDirection>)
        ensures
            forall|i: int| 0 <= i < r@.len() ==> !wall_in(*self, #[trigger] r@[i]),
            !self.spec_wall_north() ==> r@.contains(MoveDirection::North),
            !self.spec_wall_south() ==> r@.contains(MoveDirection::South),
            !self.spec_wall_east() ==> r@.contains(MoveDirection::East),
            !self.spec_wall_west() ==> r@.contains(MoveDirection::West),
    {
        let mut r: Vec<MoveDirection> = Vec::new();
        let ghost mut ni: int = -1;
        let ghost mut si: int = -1;
        let ghost mut ei: int = -1;
        let ghost mut wi: int = -1;
        if !self.wall_north() {
            r.push(MoveDirection::North);
            proof {
                ni = r@.len() - 1;
            }
        }
        if !self.wall_south() {
            r.push(MoveDirection::South);
            proof {
                si = r@.len() - 1;
            }
        }
        if !self.wall_east() {
            r.push(MoveDirection::East);
            proof {
                ei = r@.len() - 1;
            }
        }
        if !self.wall_west() {
            r.push(MoveDirection::West);
            proof {
                wi = r@.len() - 1;
            }
        }
        proof {
            if !self.spec_wall_north() {
                assert(r@[ni] == MoveDirection::North);
            }
            if !self.spec_wall_south() {
                assert(r@[si] == MoveDirection::South);
            }
            if !self.spec_wall_east() {
                assert(r@[ei] == MoveDirection::East);
            }
            if !self.spec_wall_west() {
                assert(r@[wi] == MoveDirection::West);
            }
        }
        r
    }
}

/// A probability-based driver: walk through a uniformly random open wall.
#[derive(Default)]
pub struct ProbabilisticAnt;

/// Pick a random direction that is not walled off at the given position;
/// `None` when the position is off the grid or every wall is set.
pub fn probabilistic_step(maze: &Maze, pos: (u32, u32)) -> (r: Option<MoveMessageBody>)
    requires
        maze.wf(),
    ensures
        r matches Some(m) ==> {
            &&& maze.in_bounds(pos.0 as int, pos.1 as int)
            &&& !wall_in(maze.tile_at(pos.0 as int, pos.1 as int), m.direction)
        },
        maze.in_bounds(pos.0 as int, pos.1 as int) && (exists|d: MoveDirection|
            !wall_in(maze.tile_at(pos.0 as int, pos.1 as int), d)) ==> r is Some,
{
    let tile = match maze.get_tile(pos.0, pos.1) {
        Some(t) => t,
        None => {
            return None;
        },
    };
    let mut dirs: Vec<MoveDirection> = Vec::new();
    dirs.push(MoveDirection::North);
    dirs.push(MoveDirection::South);
    dirs.push(MoveDirection::West);
    dirs.push(MoveDirection::East);
    proof {
        assert(dirs@ =~= seq![
            MoveDirection::North,
            MoveDirection::South,
            MoveDirection::West,
            MoveDirection::East,
        ]);
    }
    let rng = rng_new();
    rng_shuffle_directions(&rng, &mut dirs);
    let ghost base = seq![
        MoveDirection::North,
        MoveDirection::South,
        MoveDirection::West,
        MoveDirection::East,
    ];
    let mut k: usize = 0;
    while k < dirs.len()
        invariant
            maze.wf(),
            maze.in_bounds(pos.0 as int, pos.1 as int),
            tile == maze.tile_at(pos.0 as int, pos.1 as int),
            dirs@.to_multiset() == base.to_multiset(),
            0 <= k <= dirs@.len(),
            forall|j: int| 0 <= j < k && j < dirs@.len() ==> wall_in(tile, #[trigger] dirs@[j]),
        decreases dirs@.len() - k,
    {
        let d = dirs[k];
        let open = match d {
            MoveDirection::North => !tile.wall_north(),
            MoveDirection::South => !tile.wall_south(),
            MoveDirection::East => !tile.wall_east(),
            MoveDirection::West => !tile.wall_west(),
        };
        if open {
            return Some(MoveMessageBody { direction: d });
        }
        k = k + 1;
    }
    proof {
        if exists|d: MoveDirection| !wall_in(maze.tile_at(pos.0 as int, pos.1 as int), d) {
            let d = choose|d: MoveDirection|
                !wall_in(maze.tile_at(pos.0 as int, pos.1 as int), d);
            lemma_all_directions_present(dirs@, d);
            let i = choose|i: int| 0 <= i < dirs@.len() && dirs@[i] == d;
            assert(wall_in(tile, dirs@[i]));
        }
    }
    None
}

impl AntAI for ProbabilisticAnt {
    fn step(&mut self, maze: &Maze, message: &InfoMessageBody) -> Option<MoveMessageBody> {
        if maze.nb_column == 0 || maze.nb_line == 0 || maze.nest_column >= maze.nb_column
            || maze.nest_line >= maze.nb_line {
            return None;
        }
        proof {
            crate::generator::lemma_mul_u32_bound(maze.nb_column as int, maze.nb_line as int);
        }
        let area64 = (maze.nb_column as u64) * (maze.nb_line as u64);
        if area64 > u32::MAX as u64 || maze.tiles.len() as u64 != area64 {
            return None;
        }
        probabilistic_step(maze, (message.player_column, message.player_line))
    }
}

/// Walking from `(x, y)` along `path[i..]` stays on the grid, crosses only
/// open walls, and ends on a food tile.
pub open spec fn path_valid_from(maze: Maze, x: int, y: int, path: Seq<MoveDirection>, i: int) -> bool
    decreases path.len() - i,
{
    if !maze.in_bounds(x, y) {
        false
    } else if i < 0 || i >= path.len() {
        maze.tile_at(x, y).spec_is_food()
    } else {
        let next = MoveDirection::spec_step(path[i], x, y);
        &&& !wall_in(maze.tile_at(x, y), path[i])
        &&& path_valid_from(maze, next.0, next.1, path, i + 1)
    }
}

/// Check that `path[i..]` is a valid walk from `(x, y)` to food.
fn check_path(maze: &Maze, x: u32, y: u32, path: &Vec<MoveDirection>, i: usize) -> (r: bool)
    requires
        maze.wf(),
        i <= path@.len(),
    ensures
        r == path_valid_from(*maze, x as int, y as int, path@, i as int),
    decreases path@.len() - i,
{
    let tile = match maze.get_tile(x, y) {
        Some(t) => t,
        None => {
            return false;
        },
    };
    if i >= path.len() {
        return tile.is_food();
    }
    let d = path[i];
    let open = match d {
        MoveDirection::North => !tile.wall_north(),
        MoveDirection::South => !tile.wall_south(),
        MoveDirection::East => !tile.wall_east(),
        MoveDirection::West => !tile.wall_west(),
    };
    if !open {
        return false;
    }
    proof {
        let next = MoveDirection::spec_step(path@[i as int], x as int, y as int);
        assert(path_valid_from(*maze, x as int, y as int, path@, i as int) <==> (!wall_in(
            maze.tile_at(x as int, y as int),
            path@[i as int],
        ) && path_valid_from(*maze, next.0, next.1, path@, i as int + 1)));
    }
    match MoveDirection::apply_movement(d, (x, y)) {
        Some(p) => {
            let r2 = check_path(maze, p.0, p.1, path, i + 1);
            proof {
                assert(p.0 as int == MoveDirection::spec_step(d, x as int, y as int).0);
                assert(p.1 as int == MoveDirection::spec_step(d, x as int, y as int).1);
            }
            r2
        },
        None => {
            proof {
                let next = MoveDirection::spec_step(d, x as int, y as int);
                assert(!maze.in_bounds(next.0, next.1));
            }
            false
        },
    }
}

/// A precalculated walk from the nest to a food tile.
pub struct DfsPath {
    pub path: Vec<MoveDirection>,
}

/// No walk from the nest to food was found.
pub struct NoShortestPath;

impl DfsPath {
    /// Search breadth-first for a walk from the nest to the nearest food
    /// tile. Every returned walk is checked: it starts at the nest, crosses
    /// only open walls, and ends on food.
    pub fn find_shortest(maze: &Maze) -> (r: Result<DfsPath, NoShortestPath>)
        requires
            maze.wf(),
        ensures
            r matches Ok(p) ==> path_valid_from(
                *maze,
                maze.nest_column as int,
                maze.nest_line as int,
                p.path@,
                0,
            ),
    {
        let w = maze.nb_column;
        let h = maze.nb_line;
        let area = maze.tiles.len();
        let mut visited: Vec<bool> = Vec::new();
        let mut pred: Vec<u32> = Vec::new();
        let mut k: usize = 0;
        while k < area
            invariant
                0 <= k <= area,
                visited@.len() == k,
                pred@.len() == k,
            decreases area - k,
        {
            visited.push(false);
            pred.push(4);
            k = k + 1;
        }
        let mut queue: Vec<(u32, u32)> = Vec::new();
        queue.push((maze.nest_column, maze.nest_line));
        proof {
            lemma_index_bound(
                maze.nest_column as int,
                maze.nest_line as int,
                w as int,
                h as int,
            );
        }
        visited.set(
            maze.nest_column as usize + (maze.nest_line as usize) * (w as usize),
            true,
        );
        let mut food: Option<(u32, u32)> = None;
        let mut qh: usize = 0;
        let mut steps: u64 = 0;
        while steps <= area as u64 && qh < queue.len() && food.is_none()
            invariant
                maze.wf(),
                w == maze.nb_column,
                h == maze.nb_line,
                area == maze.tiles@.len(),
                visited@.len() == area,
                pred@.len() == area,
                qh <= queue@.len(),
                area <= 0xffffffff,
                forall|i: int| 0 <= i < queue@.len() ==> maze.in_bounds(
                    #[trigger] queue@[i].0 as int,
                    queue@[i].1 as int,
                ),
                food matches Some(f) ==> maze.in_bounds(f.0 as int, f.1 as int),
            decreases area + 1 - steps,
        {
            let pos = queue[qh];
            qh = qh + 1;
            let tile = match maze.get_tile(pos.0, pos.1) {
                Some(t) => t,
                None => {
                    return Err(NoShortestPath);
                },
            };
            if tile.is_food() {
                food = Some(pos);
            } else {
                let mut d: usize = 0;
                while d < 4
                    invariant
                        maze.wf(),
                        w == maze.nb_column,
                        h == maze.nb_line,
                        area == maze.tiles@.len(),
                        visited@.len() == area,
                        pred@.len() == area,
                        maze.in_bounds(pos.0 as int, pos.1 as int),
                        qh <= queue@.len(),
                        forall|i: int| 0 <= i < queue@.len() ==> maze.in_bounds(
                            #[trigger] queue@[i].0 as int,
                            queue@[i].1 as int,
                        ),
                    decreases 4 - d,
                {
                    let dir = match d {
                        0 => MoveDirection::North,
                        1 => MoveDirection::South,
                        2 => MoveDirection::East,
                        _ => MoveDirection::West,
                    };
                    let open = match dir {
                        MoveDirection::North => !tile.wall_north(),
                        MoveDirection::South => !tile.wall_south(),
                        MoveDirection::East => !tile.wall_east(),
                        MoveDirection::West => !tile.wall_west(),
                    };
                    if open {
                        if let Some(np) = MoveDirection::apply_movement(dir, pos) {
                            if np.0 < w && np.1 < h {
                                proof {
                                    lemma_index_bound(np.0 as int, np.1 as int, w as int, h as int);
                                }
                                let ni = np.0 as usize + (np.1 as usize) * (w as usize);
                                if !visited[ni] {
                                    visited.set(ni, true);
                                    pred.set(ni, dir.code());
                                    queue.push(np);
                                }
                            }
                        }
                    }
                    d = d + 1;
                }
            }
            steps = steps + 1;
        }
        let target = match food {
            Some(f) => f,
            None => {
                return Err(NoShortestPath);
            },
        };
        // Walk the predecessor directions back from the food to the nest.
        let mut reversed: Vec<MoveDirection> = Vec::new();
        let mut pos = target;
        let mut guard: u64 = 0;
        while guard <= area as u64 && !(pos.0 == maze.nest_column && pos.1 == maze.nest_line)
            invariant
                maze.wf(),
                w == maze.nb_column,
                h == maze.nb_line,
                area == maze.tiles@.len(),
                pred@.len() == area,
                area <= 0xffffffff,
                maze.in_bounds(pos.0 as int, pos.1 as int),
            decreases area + 1 - guard,
        {
            proof {
                lemma_index_bound(pos.0 as int, pos.1 as int, w as int, h as int);
            }
            let pi = pos.0 as usize + (pos.1 as usize) * (w as usize);
            let code = pred[pi];
            let dir = match crate::messages::MoveDirection::from_code(code) {
                Some(d) => d,
                None => {
                    return Err(NoShortestPath);
                },
            };
            reversed.push(dir);
            let back = invert_move_direction(dir);
            pos = match MoveDirection::apply_movement(back, pos) {
                Some(p) => p,
                None => {
                    return Err(NoShortestPath);
                },
            };
            if pos.0 >= w || pos.1 >= h {
                return Err(NoShortestPath);
            }
            guard = guard + 1;
        }
        if !(pos.0 == maze.nest_column && pos.1 == maze.nest_line) {
            return Err(NoShortestPath);
        }
        let mut path: Vec<MoveDirection> = Vec::new();
        let mut t = reversed.len();
        while t > 0
            invariant
                t <= reversed@.len(),
            decreases t,
        {
            t = t - 1;
            path.push(reversed[t]);
        }
        if check_path(maze, maze.nest_column, maze.nest_line, &path, 0) {
            Ok(DfsPath { path })
        } else {
            Err(NoShortestPath)
        }
    }
}

/// A path-following driver: walk the precalculated nest-to-food path.
#[derive(Default)]
pub struct DfsAi {
    pub path: Option<DfsPath>,
    pub at: usize,
}

impl AntAI for DfsAi {
    fn step(&mut self, maze: &Maze, message: &InfoMessageBody) -> Option<MoveMessageBody> {
        if maze.nb_column == 0 || maze.nb_line == 0 || maze.nest_column >= maze.nb_column
            || maze.nest_line >= maze.nb_line {
            return None;
        }
        proof {
            crate::generator::lemma_mul_u32_bound(maze.nb_column as int, maze.nb_line as int);
        }
        let area64 = (maze.nb_column as u64) * (maze.nb_line as u64);
        if area64 > u32::MAX as u64 || maze.tiles.len() as u64 != area64 {
            return None;
        }
        if self.path.is_none() {
            self.at = 0;
            self.path = match DfsPath::find_shortest(maze) {
                Ok(p) => Some(p),
                Err(_) => None,
            };
        }
        if let Some(p) = &self.path {
            if self.at < p.path.len() {
                let d = p.path[self.at];
                self.at = self.at + 1;
                return Some(MoveMessageBody { direction: d });
            }
        }
        None
    }
}

} // verus!
