//! Maze generation: hull placement, food placement and backtracking carving.
use vstd::prelude::*;

use crate::config::GeneratorConfig;
use crate::config::NestPositioning;
use crate::config::scaled;
use crate::error::ServerError;
use crate::maze::Maze;
use crate::maze::Tile;
use crate::maze::TILE_FOOD;
use crate::maze::TILE_NEST;
use crate::maze::count_matching;
use crate::maze::hull_wf;
use crate::maze::lemma_count_matching_congruent;
use crate::maze::lemma_count_matching_pos;
use crate::maze::lemma_count_matching_single;
use crate::maze::lemma_index_bound;
use crate::maze::lemma_index_injective;
use crate::maze::mutual_walls;
use crate::maze::same_population;
use crate::messages::JoinMessageBody;
use crate::messages::MoveDirection;
use crate::rng::rng_shuffle_directions;
use crate::rng::rng_u32_below;

verus! {

/// `m1` is `m0` with the wall toward `dir` forced to `value` on the single
/// tile `(cx, cy)`: every other tile and every other flag is unchanged.
pub open spec fn wall_set_at(
    m0: Maze,
    m1: Maze,
    cx: int,
    cy: int,
    dir: MoveDirection,
    value: bool,
) -> bool {
    &&& m1.nb_column == m0.nb_column
    &&& m1.nb_line == m0.nb_line
    &&& m1.nest_column == m0.nest_column
    &&& m1.nest_line == m0.nest_line
    &&& m1.tiles@.len() == m0.tiles@.len()
    &&& forall|x: int, y: int|
        #![trigger m1.tile_at(x, y)]
        m0.in_bounds(x, y) ==> {
            let t0 = m0.tile_at(x, y);
            let t1 = m1.tile_at(x, y);
            &&& t1.spec_wall_north() == if x == cx && y == cy && dir == MoveDirection::North {
                value
            } else {
                t0.spec_wall_north()
            }
            &&& t1.spec_wall_south() == if x == cx && y == cy && dir == MoveDirection::South {
                value
            } else {
                t0.spec_wall_south()
            }
            &&& t1.spec_wall_east() == if x == cx && y == cy && dir == MoveDirection::East {
                value
            } else {
                t0.spec_wall_east()
            }
            &&& t1.spec_wall_west() == if x == cx && y == cy && dir == MoveDirection::West {
                value
            } else {
                t0.spec_wall_west()
            }
            &&& t1.spec_is_nest() == t0.spec_is_nest()
            &&& t1.spec_is_food() == t0.spec_is_food()
        }
}

/// The flag relation of [`wall_broken_at`] at the single position
/// `(x, y)`: the wall toward `dir` is cleared at `(cx, cy)`, the opposite
/// wall is cleared at `(nx, ny)`, and every other flag keeps its value.
pub open spec fn wall_broken_flags(
    m0: Maze,
    m1: Maze,
    cx: int,
    cy: int,
    nx: int,
    ny: int,
    dir: MoveDirection,
    x: int,
    y: int,
) -> bool {
    let t0 = m0.tile_at(x, y);
    let t1 = m1.tile_at(x, y);
    &&& t1.spec_wall_north() == (t0.spec_wall_north() && !(x == cx && y == cy && dir
        == MoveDirection::North) && !(x == nx && y == ny && dir == MoveDirection::South))
    &&& t1.spec_wall_south() == (t0.spec_wall_south() && !(x == cx && y == cy && dir
        == MoveDirection::South) && !(x == nx && y == ny && dir == MoveDirection::North))
    &&& t1.spec_wall_east() == (t0.spec_wall_east() && !(x == cx && y == cy && dir
        == MoveDirection::East) && !(x == nx && y == ny && dir == MoveDirection::West))
    &&& t1.spec_wall_west() == (t0.spec_wall_west() && !(x == cx && y == cy && dir
        == MoveDirection::West) && !(x == nx && y == ny && dir == MoveDirection::East))
    &&& t1.spec_is_nest() == t0.spec_is_nest()
    &&& t1.spec_is_food() == t0.spec_is_food()
}

/// `m1` is `m0` with the one wall between `(cx, cy)` and its neighbor
/// `(nx, ny)` toward `dir` removed on both sides, and nothing else changed.
pub open spec fn wall_broken_at(
    m0: Maze,
    m1: Maze,
    cx: int,
    cy: int,
    nx: int,
    ny: int,
    dir: MoveDirection,
) -> bool {
    &&& m1.tiles@.len() == m0.tiles@.len()
    &&& forall|x: int, y: int|
        #![trigger m1.tile_at(x, y)]
        m0.in_bounds(x, y) ==> wall_broken_flags(m0, m1, cx, cy, nx, ny, dir, x, y)
}

/// Updating the tile byte at one in-bounds position leaves the tile at
/// every other in-bounds position unchanged.
pub proof fn lemma_tiles_update_pointwise(m0: Maze, m1: Maze, x: int, y: int, b: u8)
    requires
        m0.wf(),
        m0.in_bounds(x, y),
        m1.nb_column == m0.nb_column,
        m1.nb_line == m0.nb_line,
        m1.tiles@ == m0.tiles@.update(m0.idx(x, y), b),
    ensures
        m1.tile_at(x, y) == Tile(b),
        forall|x2: int, y2: int|
            m0.in_bounds(x2, y2) && !(x2 == x && y2 == y) ==> #[trigger] m1.tile_at(x2, y2)
                == m0.tile_at(x2, y2),
{
    let w = m0.nb_column as int;
    let h = m0.nb_line as int;
    lemma_index_bound(x, y, w, h);
    assert forall|x2: int, y2: int|
        m0.in_bounds(x2, y2) && !(x2 == x && y2 == y) implies #[trigger] m1.tile_at(x2, y2)
        == m0.tile_at(x2, y2) by {
        lemma_index_bound(x2, y2, w, h);
        if x2 + y2 * w == x + y * w {
            lemma_index_injective(x2, y2, x, y, w, h);
        }
    }
}

impl Maze {
    /// Force the wall toward `dir` of the tile at `(x, y)` to `value`;
    /// out of bounds is a no-op.
    pub fn set_wall_at(&mut self, x: u32, y: u32, dir: MoveDirection, value: bool)
        requires
            old(self).wf(),
        ensures
            final(self).wf(),
            old(self).in_bounds(x as int, y as int) ==> wall_set_at(
                *old(self),
                *final(self),
                x as int,
                y as int,
                dir,
                value,
            ),
            !old(self).in_bounds(x as int, y as int) ==> *final(self) == *old(self),
    {
        let tile = match self.get_tile(x, y) {
            Some(t) => t,
            None => {
                return ;
            },
        };
        let mut t = tile;
        match dir {
            MoveDirection::North => t.set_wall_north(value),
            MoveDirection::South => t.set_wall_south(value),
            MoveDirection::East => t.set_wall_east(value),
            MoveDirection::West => t.set_wall_west(value),
        }
        self.set_tile(x, y, &t);
        proof {
            lemma_tiles_update_pointwise(*old(self), *self, x as int, y as int, t.0);
        }
    }

    /// Force the nest flag of the tile at `(x, y)` to `value`;
    /// out of bounds is a no-op.
    pub fn set_nest_at(&mut self, x: u32, y: u32, value: bool)
        requires
            old(self).wf(),
        ensures
            final(self).wf(),
            final(self).nb_column == old(self).nb_column,
            final(self).nb_line == old(self).nb_line,
            final(self).nest_column == old(self).nest_column,
            final(self).nest_line == old(self).nest_line,
            old(self).in_bounds(x as int, y as int) ==> {
                let t0 = old(self).tile_at(x as int, y as int);
                let t1 = final(self).tile_at(x as int, y as int);
                &&& t1.spec_is_nest() == value
                &&& t1.spec_is_food() == t0.spec_is_food()
                &&& t1.spec_wall_north() == t0.spec_wall_north()
                &&& t1.spec_wall_south() == t0.spec_wall_south()
                &&& t1.spec_wall_east() == t0.spec_wall_east()
                &&& t1.spec_wall_west() == t0.spec_wall_west()
            },
            forall|x2: int, y2: int|
                old(self).in_bounds(x2, y2) && !(x2 == x as int && y2 == y as int)
                    ==> #[trigger] final(self).tile_at(x2, y2) == old(self).tile_at(x2, y2),
            !old(self).in_bounds(x as int, y as int) ==> final(self).tiles@ == old(self).tiles@,
    {
        let tile = match self.get_tile(x, y) {
            Some(t) => t,
            None => {
                return ;
            },
        };
        let mut t = tile;
        t.set_nest(value);
        self.set_tile(x, y, &t);
        proof {
            lemma_tiles_update_pointwise(*old(self), *self, x as int, y as int, t.0);
        }
    }

    /// Force the food flag of the tile at `(x, y)` to `value`;
    /// out of bounds is a no-op.
    pub fn set_food_at(&mut self, x: u32, y: u32, value: bool)
        requires
            old(self).wf(),
        ensures
            final(self).wf(),
            final(self).nb_column == old(self).nb_column,
            final(self).nb_line == old(self).nb_line,
            final(self).nest_column == old(self).nest_column,
            final(self).nest_line == old(self).nest_line,
            old(self).in_bounds(x as int, y as int) ==> {
                let t0 = old(self).tile_at(x as int, y as int);
                let t1 = final(self).tile_at(x as int, y as int);
                &&& t1.spec_is_food() == value
                &&& t1.spec_is_nest() == t0.spec_is_nest()
                &&& t1.spec_wall_north() == t0.spec_wall_north()
                &&& t1.spec_wall_south() == t0.spec_wall_south()
                &&& t1.spec_wall_east() == t0.spec_wall_east()
                &&& t1.spec_wall_west() == t0.spec_wall_west()
            },
            forall|x2: int, y2: int|
                old(self).in_bounds(x2, y2) && !(x2 == x as int && y2 == y as int)
                    ==> #[trigger] final(self).tile_at(x2, y2) == old(self).tile_at(x2, y2),
            !old(self).in_bounds(x as int, y as int) ==> final(self).tiles@ == old(self).tiles@,
    {
        let tile = match self.get_tile(x, y) {
            Some(t) => t,
            None => {
                return ;
            },
        };
        let mut t = tile;
        t.set_food(value);
        self.set_tile(x, y, &t);
        proof {
            lemma_tiles_update_pointwise(*old(self), *self, x as int, y as int, t.0);
        }
    }
}

/// `m0` and `m1` have the same shape and, tile by tile, the same nest and
/// food flags.
pub open spec fn tiles_population_eq(m0: Maze, m1: Maze) -> bool {
    &&& m1.nb_column == m0.nb_column
    &&& m1.nb_line == m0.nb_line
    &&& m1.tiles@.len() == m0.tiles@.len()
    &&& forall|x: int, y: int|
        #![trigger m1.tile_at(x, y)]
        m0.in_bounds(x, y) ==> m1.tile_at(x, y).spec_is_nest() == m0.tile_at(x, y).spec_is_nest()
            && m1.tile_at(x, y).spec_is_food() == m0.tile_at(x, y).spec_is_food()
}

/// Tile-wise equal nest and food flags give byte-wise equal nest and food
/// flags over the whole tile array.
pub proof fn lemma_same_population(m0: Maze, m1: Maze)
    requires
        m0.wf(),
        tiles_population_eq(m0, m1),
    ensures
        same_population(m0, m1),
{
    let w = m0.nb_column as int;
    let h = m0.nb_line as int;
    assert forall|i: int| 0 <= i < m0.tiles@.len() implies ((#[trigger] m0.tiles@[i] & TILE_NEST)
        != 0 <==> (#[trigger] m1.tiles@[i] & TILE_NEST) != 0) && ((m0.tiles@[i] & TILE_FOOD) != 0
        <==> (m1.tiles@[i] & TILE_FOOD) != 0) by {
        crate::maze::lemma_div_mod_in_bounds(i, w, h);
        let x = i % w;
        let y = i / w;
        assert(m0.in_bounds(x, y));
        assert(m0.idx(x, y) == i);
        assert(m1.tile_at(x, y).spec_is_nest() == m0.tile_at(x, y).spec_is_nest());
    }
}

/// Preservation of the two population counts under tile-wise equal flags.
pub proof fn lemma_population_counts(m0: Maze, m1: Maze)
    requires
        m0.wf(),
        tiles_population_eq(m0, m1),
    ensures
        count_matching(m1.tiles@, TILE_NEST) == count_matching(m0.tiles@, TILE_NEST),
        count_matching(m1.tiles@, TILE_FOOD) == count_matching(m0.tiles@, TILE_FOOD),
{
    lemma_same_population(m0, m1);
    lemma_count_matching_congruent(m0.tiles@, m1.tiles@, TILE_NEST);
    lemma_count_matching_congruent(m0.tiles@, m1.tiles@, TILE_FOOD);
}

impl Maze {
    /// Set all four walls of the tile at `(x, y)`; out of bounds is a no-op.
    pub fn wall_all_at(&mut self, x: u32, y: u32)
        requires
            old(self).wf(),
        ensures
            final(self).wf(),
            final(self).nb_column == old(self).nb_column,
            final(self).nb_line == old(self).nb_line,
            final(self).nest_column == old(self).nest_column,
            final(self).nest_line == old(self).nest_line,
            old(self).in_bounds(x as int, y as int) ==> {
                let t0 = old(self).tile_at(x as int, y as int);
                let t1 = final(self).tile_at(x as int, y as int);
                &&& t1.spec_wall_north()
                &&& t1.spec_wall_south()
                &&& t1.spec_wall_east()
                &&& t1.spec_wall_west()
                &&& t1.spec_is_nest() == t0.spec_is_nest()
                &&& t1.spec_is_food() == t0.spec_is_food()
            },
            forall|x2: int, y2: int|
                old(self).in_bounds(x2, y2) && !(x2 == x as int && y2 == y as int)
                    ==> #[trigger] final(self).tile_at(x2, y2) == old(self).tile_at(x2, y2),
            !old(self).in_bounds(x as int, y as int) ==> final(self).tiles@ == old(self).tiles@,
    {
        let tile = match self.get_tile(x, y) {
            Some(t) => t,
            None => {
                return ;
            },
        };
        let mut t = tile;
        t.set_wall_north(true);
        t.set_wall_south(true);
        t.set_wall_east(true);
        t.set_wall_west(true);
        self.set_tile(x, y, &t);
        proof {
            lemma_tiles_update_pointwise(*old(self), *self, x as int, y as int, t.0);
        }
    }

    /// Fill the maze with walls: every tile gets all four walls; nest and
    /// food flags are untouched.
    pub fn fill_maze(&mut self)
        requires
            old(self).wf(),
        ensures
            final(self).wf(),
            final(self).nb_column == old(self).nb_column,
            final(self).nb_line == old(self).nb_line,
            final(self).nest_column == old(self).nest_column,
            final(self).nest_line == old(self).nest_line,
            tiles_population_eq(*old(self), *final(self)),
            forall|x: int, y: int|
                #![trigger final(self).tile_at(x, y)]
                old(self).in_bounds(x, y) ==> {
                    let t1 = final(self).tile_at(x, y);
                    t1.spec_wall_north() && t1.spec_wall_south() && t1.spec_wall_east()
                        && t1.spec_wall_west()
                },
            mutual_walls(*final(self)),
            hull_wf(*final(self)),
    {
        let w = self.nb_column;
        let h = self.nb_line;
        let mut x: u32 = 0;
        while x < w
            invariant
                0 <= x <= w,
                self.wf(),
                self.nb_column == old(self).nb_column,
                self.nb_line == old(self).nb_line,
                self.nest_column == old(self).nest_column,
                self.nest_line == old(self).nest_line,
                w == self.nb_column,
                h == self.nb_line,
                forall|x2: int, y2: int|
                    #![trigger self.tile_at(x2, y2)]
                    old(self).in_bounds(x2, y2) ==> {
                        let t0 = old(self).tile_at(x2, y2);
                        let t1 = self.tile_at(x2, y2);
                        &&& t1.spec_is_nest() == t0.spec_is_nest()
                        &&& t1.spec_is_food() == t0.spec_is_food()
                        &&& x2 < x ==> t1.spec_wall_north() && t1.spec_wall_south()
                            && t1.spec_wall_east() && t1.spec_wall_west()
                        &&& x2 >= x ==> t1 == t0
                    },
            decreases w - x,
        {
            let mut y: u32 = 0;
            while y < h
                invariant
                    0 <= x < w,
                    0 <= y <= h,
                    self.wf(),
                    self.nb_column == old(self).nb_column,
                    self.nb_line == old(self).nb_line,
                    self.nest_column == old(self).nest_column,
                    self.nest_line == old(self).nest_line,
                    w == self.nb_column,
                    h == self.nb_line,
                    forall|x2: int, y2: int|
                        #![trigger self.tile_at(x2, y2)]
                        old(self).in_bounds(x2, y2) ==> {
                            let t0 = old(self).tile_at(x2, y2);
                            let t1 = self.tile_at(x2, y2);
                            &&& t1.spec_is_nest() == t0.spec_is_nest()
                            &&& t1.spec_is_food() == t0.spec_is_food()
                            &&& (x2 < x || (x2 == x && y2 < y)) ==> t1.spec_wall_north()
                                && t1.spec_wall_south() && t1.spec_wall_east() && t1.spec_wall_west()
                            &&& (x2 > x || (x2 == x && y2 >= y)) ==> t1 == t0
                        },
                decreases h - y,
            {
                self.wall_all_at(x, y);
                y = y + 1;
            }
            x = x + 1;
        }
    }

    /// Put walls on the maze hull: every edge tile gets its outward wall.
    /// Walls between in-bounds tiles, nest flags and food flags are
    /// untouched, so mutual walls are preserved.
    pub fn generate_border(&mut self)
        requires
            old(self).wf(),
        ensures
            final(self).wf(),
            final(self).nb_column == old(self).nb_column,
            final(self).nb_line == old(self).nb_line,
            final(self).nest_column == old(self).nest_column,
            final(self).nest_line == old(self).nest_line,
            tiles_population_eq(*old(self), *final(self)),
            forall|x: int, y: int|
                #![trigger final(self).tile_at(x, y)]
                old(self).in_bounds(x, y) ==> {
                    let t0 = old(self).tile_at(x, y);
                    let t1 = final(self).tile_at(x, y);
                    &&& t1.spec_wall_north() == (t0.spec_wall_north() || y == 0)
                    &&& t1.spec_wall_south() == (t0.spec_wall_south() || y == old(self).nb_line - 1)
                    &&& t1.spec_wall_west() == (t0.spec_wall_west() || x == 0)
                    &&& t1.spec_wall_east() == (t0.spec_wall_east() || x == old(self).nb_column - 1)
                },
            hull_wf(*final(self)),
            mutual_walls(*old(self)) ==> mutual_walls(*final(self)),
    {
        let w = self.nb_column;
        let h = self.nb_line;
        let mut i: u32 = 0;
        while i < w
            invariant
                0 <= i <= w,
                self.wf(),
                self.nb_column == old(self).nb_column,
                self.nb_line == old(self).nb_line,
                self.nest_column == old(self).nest_column,
                self.nest_line == old(self).nest_line,
                w == self.nb_column,
                h == self.nb_line,
                forall|x2: int, y2: int|
                    #![trigger self.tile_at(x2, y2)]
                    old(self).in_bounds(x2, y2) ==> {
                        let t0 = old(self).tile_at(x2, y2);
                        let t1 = self.tile_at(x2, y2);
                        &&& t1.spec_wall_north() == (t0.spec_wall_north() || (y2 == 0 && x2 < i))
                        &&& t1.spec_wall_south() == (t0.spec_wall_south() || (y2 == h - 1 && x2
                            < i))
                        &&& t1.spec_wall_west() == t0.spec_wall_west()
                        &&& t1.spec_wall_east() == t0.spec_wall_east()
                        &&& t1.spec_is_nest() == t0.spec_is_nest()
                        &&& t1.spec_is_food() == t0.spec_is_food()
                    },
            decreases w - i,
        {
            self.set_wall_at(i, 0, MoveDirection::North, true);
            self.set_wall_at(i, h - 1, MoveDirection::South, true);
            i = i + 1;
        }
        let ghost mid = *self;
        let mut j: u32 = 0;
        while j < h
            invariant
                0 <= j <= h,
                self.wf(),
                self.nb_column == mid.nb_column,
                self.nb_line == mid.nb_line,
                self.nest_column == mid.nest_column,
                self.nest_line == mid.nest_line,
                w == self.nb_column,
                h == self.nb_line,
                forall|x2: int, y2: int|
                    #![trigger self.tile_at(x2, y2)]
                    mid.in_bounds(x2, y2) ==> {
                        let t0 = mid.tile_at(x2, y2);
                        let t1 = self.tile_at(x2, y2);
                        &&& t1.spec_wall_west() == (t0.spec_wall_west() || (x2 == 0 && y2 < j))
                        &&& t1.spec_wall_east() == (t0.spec_wall_east() || (x2 == w - 1 && y2 < j))
                        &&& t1.spec_wall_north() == t0.spec_wall_north()
                        &&& t1.spec_wall_south() == t0.spec_wall_south()
                        &&& t1.spec_is_nest() == t0.spec_is_nest()
                        &&& t1.spec_is_food() == t0.spec_is_food()
                    },
            decreases h - j,
        {
            self.set_wall_at(0, j, MoveDirection::West, true);
            self.set_wall_at(w - 1, j, MoveDirection::East, true);
            j = j + 1;
        }
    }

    /// Break the wall between the neighbor tiles `tile` and `neighbor`,
    /// on both sides, leaving every other flag alone: the wall toward
    /// `dir` falls at `tile`, the opposite wall falls at `neighbor`, and
    /// every other flag of every tile is unchanged. Mutual walls are
    /// preserved because the two sides fall together.
    pub fn break_wall(&mut self, dir: MoveDirection, tile: (u32, u32), neighbor: (u32, u32))
        requires
            old(self).wf(),
            old(self).in_bounds(tile.0 as int, tile.1 as int),
            old(self).in_bounds(neighbor.0 as int, neighbor.1 as int),
            (neighbor.0 as int, neighbor.1 as int) == MoveDirection::spec_step(
                dir,
                tile.0 as int,
                tile.1 as int,
            ),
        ensures
            final(self).wf(),
            final(self).nb_column == old(self).nb_column,
            final(self).nb_line == old(self).nb_line,
            final(self).nest_column == old(self).nest_column,
            final(self).nest_line == old(self).nest_line,
            wall_broken_at(
                *old(self),
                *final(self),
                tile.0 as int,
                tile.1 as int,
                neighbor.0 as int,
                neighbor.1 as int,
                dir,
            ),
            tiles_population_eq(*old(self), *final(self)),
            mutual_walls(*old(self)) ==> mutual_walls(*final(self)),
    {
        self.set_wall_at(tile.0, tile.1, dir, false);
        let ghost mid = *self;
        let opposite = crate::messages::invert_move_direction(dir);
        self.set_wall_at(neighbor.0, neighbor.1, opposite, false);
        proof {
            assert forall|x: int, y: int|
                old(self).in_bounds(x, y) implies wall_broken_flags(
                *old(self),
                *self,
                tile.0 as int,
                tile.1 as int,
                neighbor.0 as int,
                neighbor.1 as int,
                dir,
                x,
                y,
            ) by {
                assert(mid.tile_at(x, y) == mid.tile_at(x, y));
                assert(self.tile_at(x, y) == self.tile_at(x, y));
            }
        }
    }

    /// Whether one step in `d` from `pos` lands on an in-bounds, unmarked
    /// tile.
    pub open spec fn neighbor_ok(self, pos: (u32, u32), marked: Seq<bool>, d: MoveDirection) -> bool {
        let next = MoveDirection::spec_step(d, pos.0 as int, pos.1 as int);
        &&& self.in_bounds(next.0, next.1)
        &&& !marked[self.idx(next.0, next.1)]
    }

    /// Pick a random unmarked in-bounds neighbor of `pos`, with the
    /// direction leading to it. The draw picks which neighbor; whether one
    /// exists is a function of the inputs alone, so when some direction
    /// leads to an unmarked in-bounds tile the result is never `None`.
    pub fn get_random_neighbor(
        &self,
        pos: (u32, u32),
        marked: &Vec<bool>,
        rng: &fastrand::Rng,
    ) -> (r: Option<(MoveDirection, (u32, u32))>)
        requires
            self.wf(),
            marked@.len() == self.area(),
        ensures
            r matches Some(p) ==> {
                &&& self.in_bounds(p.1.0 as int, p.1.1 as int)
                &&& (p.1.0 as int, p.1.1 as int) == MoveDirection::spec_step(
                    p.0,
                    pos.0 as int,
                    pos.1 as int,
                )
                &&& !marked@[self.idx(p.1.0 as int, p.1.1 as int)]
            },
            (exists|d: MoveDirection| self.neighbor_ok(pos, marked@, d)) ==> r is Some,
    {
        let mut directions: Vec<MoveDirection> = Vec::new();
        directions.push(MoveDirection::North);
        directions.push(MoveDirection::South);
        directions.push(MoveDirection::West);
        directions.push(MoveDirection::East);
        proof {
            assert(directions@ =~= seq![
                MoveDirection::North,
                MoveDirection::South,
                MoveDirection::West,
                MoveDirection::East,
            ]);
        }
        rng_shuffle_directions(rng, &mut directions);
        let ghost base = seq![
            MoveDirection::North,
            MoveDirection::South,
            MoveDirection::West,
            MoveDirection::East,
        ];
        let mut k: usize = 0;
        while k < directions.len()
            invariant
                self.wf(),
                marked@.len() == self.area(),
                directions@.to_multiset() == base.to_multiset(),
                0 <= k <= directions@.len(),
                forall|j: int|
                    0 <= j < k && j < directions@.len() ==> !self.neighbor_ok(
                        pos,
                        marked@,
                        #[trigger] directions@[j],
                    ),
            decreases directions@.len() - k,
        {
            let dir = directions[k];
            if let Some(p) = MoveDirection::apply_movement(dir, pos) {
                if p.0 < self.nb_column && p.1 < self.nb_line {
                    proof {
                        lemma_index_bound(
                            p.0 as int,
                            p.1 as int,
                            self.nb_column as int,
                            self.nb_line as int,
                        );
                    }
                    let i = p.0 as usize + (p.1 as usize) * (self.nb_column as usize);
                    if !marked[i] {
                        return Some((dir, p));
                    }
                }
            }
            k = k + 1;
        }
        proof {
            if exists|d: MoveDirection| self.neighbor_ok(pos, marked@, d) {
                let d = choose|d: MoveDirection| self.neighbor_ok(pos, marked@, d);
                crate::messages::lemma_all_directions_present(directions@, d);
                let i = choose|i: int|
                    0 <= i < directions@.len() && directions@[i] == d;
                assert(!self.neighbor_ok(pos, marked@, directions@[i]));
            }
        }
        None
    }
}

/// How many entries of `s` are still false.
pub open spec fn count_false(s: Seq<bool>) -> int
    decreases s.len(),
{
    if s.len() == 0 {
        0
    } else {
        count_false(s.drop_last()) + if s.last() {
            0int
        } else {
            1int
        }
    }
}

pub proof fn lemma_count_false_nonneg(s: Seq<bool>)
    ensures
        count_false(s) >= 0,
    decreases s.len(),
{
    if s.len() > 0 {
        lemma_count_false_nonneg(s.drop_last());
    }
}

/// Marking a still-false entry decreases the count of false entries.
pub proof fn lemma_count_false_update(s: Seq<bool>, i: int)
    requires
        0 <= i < s.len(),
        !s[i],
    ensures
        count_false(s.update(i, true)) == count_false(s) - 1,
    decreases s.len(),
{
    let t = s.update(i, true);
    if i == s.len() - 1 {
        assert(t.drop_last() =~= s.drop_last());
    } else {
        assert(t.drop_last() =~= s.drop_last().update(i, true));
        lemma_count_false_update(s.drop_last(), i);
    }
}

impl Maze {
    /// Apply one pass of backtracking carving from `start`: walk randomly,
    /// breaking walls toward unvisited tiles, backtracking when stuck, and
    /// re-apply the border hull at the end.
    pub fn backtracing_carving(&mut self, start: (u32, u32), rng: &fastrand::Rng) -> (r: Result<
        (),
        ServerError,
    >)
        requires
            old(self).wf(),
            mutual_walls(*old(self)),
        ensures
            final(self).wf(),
            final(self).nb_column == old(self).nb_column,
            final(self).nb_line == old(self).nb_line,
            final(self).nest_column == old(self).nest_column,
            final(self).nest_line == old(self).nest_line,
            tiles_population_eq(*old(self), *final(self)),
            mutual_walls(*final(self)),
            r is Ok <==> old(self).in_bounds(start.0 as int, start.1 as int),
            r is Ok ==> hull_wf(*final(self)),
            r is Err ==> final(self).tiles@ == old(self).tiles@,
            r matches Err(e) ==> e is InvalidMaze,
    {
        if start.0 >= self.nb_column || start.1 >= self.nb_line {
            return Err(
                ServerError::invalid_maze(String::from_str("Unexpected start position")),
            );
        }
        let area = self.tiles.len();
        let mut marked: Vec<bool> = Vec::new();
        let mut k: usize = 0;
        while k < area
            invariant
                0 <= k <= area,
                marked@.len() == k,
            decreases area - k,
        {
            marked.push(false);
            k = k + 1;
        }
        let mut stack: Vec<(u32, u32)> = Vec::new();
        stack.push(start);
        proof {
            lemma_index_bound(
                start.0 as int,
                start.1 as int,
                self.nb_column as int,
                self.nb_line as int,
            );
        }
        let si = start.0 as usize + (start.1 as usize) * (self.nb_column as usize);
        marked.set(si, true);
        while stack.len() > 0
            invariant
                self.wf(),
                self.nb_column == old(self).nb_column,
                self.nb_line == old(self).nb_line,
                self.nest_column == old(self).nest_column,
                self.nest_line == old(self).nest_line,
                tiles_population_eq(*old(self), *self),
                mutual_walls(*self),
                marked@.len() == self.area(),
                forall|i: int|
                    0 <= i < stack@.len() ==> self.in_bounds(
                        #[trigger] stack@[i].0 as int,
                        stack@[i].1 as int,
                    ),
            decreases count_false(marked@), stack@.len(),
        {
            proof {
                lemma_count_false_nonneg(marked@);
            }
            let top = stack[stack.len() - 1];
            match self.get_random_neighbor(top, &marked, rng) {
                Some((dir, nb)) => {
                    let ghost before = *self;
                    self.break_wall(dir, top, nb);
                    proof {
                        lemma_index_bound(
                            nb.0 as int,
                            nb.1 as int,
                            self.nb_column as int,
                            self.nb_line as int,
                        );
                        lemma_count_false_update(
                            marked@,
                            self.idx(nb.0 as int, nb.1 as int),
                        );
                    }
                    let ni = nb.0 as usize + (nb.1 as usize) * (self.nb_column as usize);
                    marked.set(ni, true);
                    stack.push(nb);
                    proof {
                        lemma_count_false_nonneg(marked@);
                    }
                },
                None => {
                    stack.pop();
                    proof {
                        lemma_count_false_nonneg(marked@);
                    }
                },
            }
        }
        let ghost carved = *self;
        self.generate_border();
        Ok(())
    }
}

/// The product of two values below `2^32` stays below `2^64`.
pub proof fn lemma_mul_u32_bound(a: int, b: int)
    by (nonlinear_arith)
    requires
        0 <= a < 0x100000000,
        0 <= b < 0x100000000,
    ensures
        0 <= a * b < 0x10000000000000000,
{
}

/// The squared minimum distance from the origin that a food draw must
/// keep: `max(nb_line / 3, nest_column / 3)` squared.
pub open spec fn food_min_dist2(m: Maze) -> int {
    let b = if m.nb_line / 3 >= m.nest_column / 3 {
        m.nb_line / 3
    } else {
        m.nest_column / 3
    };
    (b as int) * (b as int)
}

/// Whether `foods` already holds the position `p`.
fn contains_pos(foods: &Vec<(u32, u32)>, p: (u32, u32)) -> (r: bool)
    ensures
        r == exists|i: int| 0 <= i < foods@.len() && #[trigger] foods@[i] == p,
{
    let mut k: usize = 0;
    while k < foods.len()
        invariant
            0 <= k <= foods@.len(),
            forall|i: int| 0 <= i < k ==> #[trigger] foods@[i] != p,
        decreases foods@.len() - k,
    {
        let q = foods[k];
        if q.0 == p.0 && q.1 == p.1 {
            proof {
                assert(foods@[k as int] == p);
            }
            return true;
        }
        k = k + 1;
    }
    false
}

impl Maze {
    /// Add food pseudo-randomly to the maze: up to `food_count` uniform
    /// draws, rejecting positions too close to the origin and positions
    /// already taken. Every accepted position is distinct, in bounds and
    /// at the minimum squared distance from the origin, and exactly those
    /// tiles gain the food flag. Fails when the food budget is infeasible
    /// for the grid or when no draw was accepted, leaving the maze
    /// unchanged; when the minimum distance is zero and the budget is
    /// feasible, at least the first draw is accepted, so the call
    /// succeeds.
    pub fn place_food(&mut self, food_count: u32, rng: &fastrand::Rng) -> (r: Result<
        Vec<(u32, u32)>,
        ServerError,
    >)
        requires
            old(self).wf(),
        ensures
            final(self).wf(),
            final(self).nb_column == old(self).nb_column,
            final(self).nb_line == old(self).nb_line,
            final(self).nest_column == old(self).nest_column,
            final(self).nest_line == old(self).nest_line,
            r matches Ok(foods) ==> {
                &&& 1 <= foods@.len() <= food_count
                &&& forall|i: int, j: int|
                    0 <= i < j < foods@.len() ==> #[trigger] foods@[i] != #[trigger] foods@[j]
                &&& forall|i: int|
                    0 <= i < foods@.len() ==> old(self).in_bounds(
                        (#[trigger] foods@[i]).0 as int,
                        foods@[i].1 as int,
                    ) && foods@[i].0 * foods@[i].0 + foods@[i].1 * foods@[i].1 >= food_min_dist2(
                        *old(self),
                    )
                &&& forall|x: int, y: int|
                    #![trigger final(self).tile_at(x, y)]
                    old(self).in_bounds(x, y) ==> {
                        let t0 = old(self).tile_at(x, y);
                        let t1 = final(self).tile_at(x, y);
                        &&& t1.spec_wall_north() == t0.spec_wall_north()
                        &&& t1.spec_wall_south() == t0.spec_wall_south()
                        &&& t1.spec_wall_east() == t0.spec_wall_east()
                        &&& t1.spec_wall_west() == t0.spec_wall_west()
                        &&& t1.spec_is_nest() == t0.spec_is_nest()
                        &&& t1.spec_is_food() == (t0.spec_is_food() || exists|j: int|
                            0 <= j < foods@.len() && (#[trigger] foods@[j]).0 == x && foods@[j].1
                                == y)
                    }
            },
            count_matching(final(self).tiles@, TILE_NEST) == count_matching(
                old(self).tiles@,
                TILE_NEST,
            ),
            mutual_walls(*old(self)) ==> mutual_walls(*final(self)),
            hull_wf(*old(self)) ==> hull_wf(*final(self)),
            r is Ok ==> count_matching(final(self).tiles@, TILE_FOOD) >= 1,
            food_count + 1 >= (old(self).nb_column - 1) * (old(self).nb_line - 1) ==> r is Err,
            r is Err ==> final(self).tiles@ == old(self).tiles@,
            r matches Err(e) ==> e is InvalidMaze,
            food_min_dist2(*old(self)) == 0 && food_count >= 1 && food_count + 1 < (old(
                self,
            ).nb_column - 1) * (old(self).nb_line - 1) ==> r is Ok,
    {
        let w = self.nb_column;
        let h = self.nb_line;
        proof {
            lemma_mul_u32_bound(w as int - 1, h as int - 1);
        }
        // Be a little bit more conservative to prevent an eventual infinite loop.
        if food_count as u64 + 1 >= ((w - 1) as u64) * ((h - 1) as u64) {
            return Err(ServerError::invalid_maze(String::from_str("Can't place food")));
        }
        // Compute a minimum distance (squared) to the origin.
        let base = if h / 3 >= self.nest_column / 3 {
            h / 3
        } else {
            self.nest_column / 3
        };
        proof {
            lemma_mul_u32_bound(base as int, base as int);
        }
        let minimum_distance2 = (base as u128) * (base as u128);
        let mut foods: Vec<(u32, u32)> = Vec::new();
        let mut a: u32 = 0;
        while a < food_count
            invariant
                self.wf(),
                w == self.nb_column,
                h == self.nb_line,
                w >= 1,
                h >= 1,
                minimum_distance2 == food_min_dist2(*self),
                0 <= a <= food_count,
                foods@.len() <= a,
                minimum_distance2 == 0 && a >= 1 ==> foods@.len() >= 1,
                forall|i: int, j: int|
                    0 <= i < j < foods@.len() ==> #[trigger] foods@[i] != #[trigger] foods@[j],
                forall|i: int|
                    0 <= i < foods@.len() ==> self.in_bounds(
                        (#[trigger] foods@[i]).0 as int,
                        foods@[i].1 as int,
                    ) && foods@[i].0 * foods@[i].0 + foods@[i].1 * foods@[i].1
                        >= minimum_distance2,
            decreases food_count - a,
        {
            let px = rng_u32_below(rng, w);
            let py = rng_u32_below(rng, h);
            proof {
                lemma_mul_u32_bound(px as int, px as int);
                lemma_mul_u32_bound(py as int, py as int);
            }
            let d2 = (px as u128) * (px as u128) + (py as u128) * (py as u128);
            // Check minimum distance and already taken tiles.
            if !(d2 < minimum_distance2 || contains_pos(&foods, (px, py))) {
                foods.push((px, py));
            }
            a = a + 1;
        }
        if foods.len() == 0 {
            return Err(ServerError::invalid_maze(String::from_str("Can't place food")));
        }
        let ghost pre = *self;
        let ghost accepted = foods@;
        let mut k: usize = 0;
        while k < foods.len()
            invariant
                self.wf(),
                self.nb_column == pre.nb_column,
                self.nb_line == pre.nb_line,
                self.nest_column == pre.nest_column,
                self.nest_line == pre.nest_line,
                w == self.nb_column,
                h == self.nb_line,
                0 <= k <= foods@.len(),
                foods@ == accepted,
                forall|i: int|
                    0 <= i < foods@.len() ==> pre.in_bounds(
                        (#[trigger] foods@[i]).0 as int,
                        foods@[i].1 as int,
                    ),
                forall|x: int, y: int|
                    #![trigger self.tile_at(x, y)]
                    pre.in_bounds(x, y) ==> {
                        let t0 = pre.tile_at(x, y);
                        let t1 = self.tile_at(x, y);
                        &&& t1.spec_wall_north() == t0.spec_wall_north()
                        &&& t1.spec_wall_south() == t0.spec_wall_south()
                        &&& t1.spec_wall_east() == t0.spec_wall_east()
                        &&& t1.spec_wall_west() == t0.spec_wall_west()
                        &&& t1.spec_is_nest() == t0.spec_is_nest()
                        &&& t1.spec_is_food() == (t0.spec_is_food() || exists|j: int|
                            0 <= j < k && (#[trigger] foods@[j]).0 == x && foods@[j].1 == y)
                    },
            decreases foods@.len() - k,
        {
            let f = foods[k];
            let ghost mid = *self;
            self.set_food_at(f.0, f.1, true);
            proof {
                assert forall|x: int, y: int|
                    pre.in_bounds(x, y) implies {
                    let t0 = pre.tile_at(x, y);
                    let t1 = self.tile_at(x, y);
                    &&& t1.spec_wall_north() == t0.spec_wall_north()
                    &&& t1.spec_wall_south() == t0.spec_wall_south()
                    &&& t1.spec_wall_east() == t0.spec_wall_east()
                    &&& t1.spec_wall_west() == t0.spec_wall_west()
                    &&& t1.spec_is_nest() == t0.spec_is_nest()
                    &&& t1.spec_is_food() == (t0.spec_is_food() || exists|j: int|
                        0 <= j < k + 1 && (#[trigger] foods@[j]).0 == x && foods@[j].1 == y)
                } by {
                    assert(mid.tile_at(x, y) == mid.tile_at(x, y));
                    assert(self.tile_at(x, y) == self.tile_at(x, y));
                    if x == f.0 as int && y == f.1 as int {
                        assert(foods@[k as int].0 == x && foods@[k as int].1 == y);
                    } else {
                        if exists|j: int|
                            0 <= j < k && (#[trigger] foods@[j]).0 == x && foods@[j].1 == y {
                            let j = choose|j: int|
                                0 <= j < k && (#[trigger] foods@[j]).0 == x && foods@[j].1 == y;
                            assert(0 <= j < k + 1 && foods@[j].0 == x && foods@[j].1 == y);
                        }
                        if exists|j: int|
                            0 <= j < k + 1 && (#[trigger] foods@[j]).0 == x && foods@[j].1 == y {
                            let j = choose|j: int|
                                0 <= j < k + 1 && (#[trigger] foods@[j]).0 == x && foods@[j].1
                                    == y;
                            assert(j != k);
                            assert(0 <= j < k && foods@[j].0 == x && foods@[j].1 == y);
                        }
                    }
                }
            }
            k = k + 1;
        }
        proof {
            let fx = foods@[0].0 as int;
            let fy = foods@[0].1 as int;
            lemma_index_bound(fx, fy, w as int, h as int);
            assert(foods@[0].0 == fx && foods@[0].1 == fy);
            assert(self.tile_at(fx, fy).spec_is_food());
            lemma_count_matching_pos(self.tiles@, TILE_FOOD, pre.idx(fx, fy));
            // The nest count is untouched: nest flags agree byte for byte.
            assert forall|i: int| 0 <= i < pre.tiles@.len() implies ((#[trigger] pre.tiles@[i]
                & TILE_NEST) != 0 <==> (#[trigger] self.tiles@[i] & TILE_NEST) != 0) by {
                crate::maze::lemma_div_mod_in_bounds(i, w as int, h as int);
                let x = i % (w as int);
                let y = i / (w as int);
                assert(self.tile_at(x, y).spec_is_nest() == pre.tile_at(x, y).spec_is_nest());
            }
            lemma_count_matching_congruent(pre.tiles@, self.tiles@, TILE_NEST);
        }
        Ok(foods)
    }
}

/// Build an all-zero tile array of `w * h` bytes as a maze with the given
/// nest position, with the nest flag placed, and prove it has exactly one
/// nest. Fails on an empty grid, a grid too large for 32-bit indexing, or a
/// nest out of bounds.
fn fresh_maze(w: u32, h: u32, nest: (u32, u32)) -> (r: Result<Maze, ServerError>)
    ensures
        r matches Ok(m) ==> {
            &&& m.wf()
            &&& m.nb_column == w
            &&& m.nb_line == h
            &&& m.nest_column == nest.0
            &&& m.nest_line == nest.1
            &&& count_matching(m.tiles@, TILE_NEST) == 1
            &&& m.tile_at(m.nest_column as int, m.nest_line as int).spec_is_nest()
            &&& mutual_walls(m)
            &&& forall|x: int, y: int|
                #![trigger m.tile_at(x, y)]
                m.in_bounds(x, y) ==> !m.tile_at(x, y).spec_is_food() && !m.tile_at(
                    x,
                    y,
                ).spec_wall_north() && !m.tile_at(x, y).spec_wall_south() && !m.tile_at(
                    x,
                    y,
                ).spec_wall_east() && !m.tile_at(x, y).spec_wall_west()
        },
        w == 0 || h == 0 ==> r is Err,
        nest.0 >= w || nest.1 >= h ==> r is Err,
        r matches Err(e) ==> e is InvalidMaze,
{
    if w == 0 || h == 0 {
        return Err(ServerError::invalid_maze(String::from_str("Can't generate an empty maze !")));
    }
    if nest.0 >= w || nest.1 >= h {
        return Err(ServerError::invalid_maze(String::from_str("Nest is out of bounds")));
    }
    proof {
        lemma_mul_u32_bound(w as int, h as int);
    }
    if (w as u64) * (h as u64) > u32::MAX as u64 {
        return Err(ServerError::invalid_maze(String::from_str("Maze is too large")));
    }
    let area = ((w as u64) * (h as u64)) as usize;
    let mut tiles: Vec<u8> = Vec::new();
    let mut k: usize = 0;
    while k < area
        invariant
            0 <= k <= area,
            tiles@.len() == k,
            forall|j: int| 0 <= j < k ==> #[trigger] tiles@[j] == 0u8,
        decreases area - k,
    {
        tiles.push(0u8);
        k = k + 1;
    }
    let mut maze = Maze {
        nb_column: w,
        nb_line: h,
        nest_column: nest.0,
        nest_line: nest.1,
        tiles,
    };
    proof {
        assert(0u8 & TILE_NEST == 0u8) by (bit_vector);
        assert(0u8 & TILE_FOOD == 0u8) by (bit_vector);
        assert(0u8 & crate::maze::TILE_WALL_NORTH == 0u8) by (bit_vector);
        assert(0u8 & crate::maze::TILE_WALL_SOUTH == 0u8) by (bit_vector);
        assert(0u8 & crate::maze::TILE_WALL_EAST == 0u8) by (bit_vector);
        assert(0u8 & crate::maze::TILE_WALL_WEST == 0u8) by (bit_vector);
    }
    let ghost zeroed = maze;
    maze.set_nest_at(nest.0, nest.1, true);
    proof {
        let nx = nest.0 as int;
        let ny = nest.1 as int;
        lemma_index_bound(nx, ny, w as int, h as int);
        assert forall|j: int| 0 <= j < maze.tiles@.len() && j != zeroed.idx(nx, ny) implies
        #[trigger] (maze.tiles@[j] & TILE_NEST) == 0 by {
            crate::maze::lemma_div_mod_in_bounds(j, w as int, h as int);
            let x = j % (w as int);
            let y = j / (w as int);
            if x == nx && y == ny {
            } else {
                assert(maze.tile_at(x, y) == zeroed.tile_at(x, y));
            }
        }
        assert(maze.tile_at(nest.0 as int, nest.1 as int).spec_is_nest());
        lemma_count_matching_single(maze.tiles@, TILE_NEST, zeroed.idx(nx, ny));
        assert forall|x: int, y: int|
            #![trigger maze.tile_at(x, y)]
            maze.in_bounds(x, y) implies !maze.tile_at(x, y).spec_is_food() && !maze.tile_at(
            x,
            y,
        ).spec_wall_north() && !maze.tile_at(x, y).spec_wall_south() && !maze.tile_at(
            x,
            y,
        ).spec_wall_east() && !maze.tile_at(x, y).spec_wall_west() by {
            lemma_index_bound(x, y, w as int, h as int);
            assert(zeroed.tiles@[zeroed.idx(x, y)] == 0u8);
            if !(x == nx && y == ny) {
                assert(maze.tile_at(x, y) == zeroed.tile_at(x, y));
            }
        }
    }
    Ok(maze)
}

/// Generate a maze by `carving_amount` passes of backtracking carving from
/// the nest, with `nb_food` food placement attempts.
///
/// Every maze returned is well-formed, has exactly one nest, at least one
/// food tile, a full border hull, and mutual walls between every pair of
/// in-bounds neighbor tiles.
pub fn generate_maze_backtracking(
    size: (u32, u32),
    nest_pos: (u32, u32),
    nb_food: u32,
    carving_amount: u32,
    rng: &fastrand::Rng,
) -> (r: Result<Maze, ServerError>)
    ensures
        r matches Ok(m) ==> {
            &&& m.wf()
            &&& m.population_wf()
            &&& mutual_walls(m)
            &&& hull_wf(m)
            &&& m.nb_column == size.0
            &&& m.nb_line == size.1
            &&& m.nest_column == nest_pos.0
            &&& m.nest_line == nest_pos.1
        },
        size.0 == 0 || size.1 == 0 ==> r is Err,
        nest_pos.0 >= size.0 || nest_pos.1 >= size.1 ==> r is Err,
        nb_food + 1 >= (size.0 - 1) * (size.1 - 1) && size.0 >= 1 && size.1 >= 1 ==> r is Err,
        r matches Err(e) ==> e is InvalidMaze,
{
    let mut maze = match fresh_maze(size.0, size.1, nest_pos) {
        Ok(m) => m,
        Err(e) => {
            return Err(e);
        },
    };
    let ghost base = maze;
    maze.fill_maze();
    proof {
        lemma_population_counts(base, maze);
    }
    match maze.place_food(nb_food, rng) {
        Ok(_) => (),
        Err(e) => {
            return Err(e);
        },
    }
    let mut pass: u32 = 0;
    while pass < carving_amount
        invariant
            maze.wf(),
            maze.nb_column == size.0,
            maze.nb_line == size.1,
            maze.nest_column == nest_pos.0,
            maze.nest_line == nest_pos.1,
            mutual_walls(maze),
            hull_wf(maze),
            count_matching(maze.tiles@, TILE_NEST) == 1,
            count_matching(maze.tiles@, TILE_FOOD) >= 1,
            maze.tile_at(maze.nest_column as int, maze.nest_line as int).spec_is_nest(),
        decreases carving_amount - pass,
    {
        let ghost before = maze;
        match maze.backtracing_carving(nest_pos, rng) {
            Ok(_) => (),
            Err(e) => {
                return Err(e);
            },
        }
        proof {
            lemma_population_counts(before, maze);
        }
        pass = pass + 1;
    }
    Ok(maze)
}

/// Generate a maze with empty interior: an all-open grid with a border
/// hull, a random nest and one food placement attempt.
pub fn generate_empty_maze(nb_column: u32, nb_line: u32, rng: &fastrand::Rng) -> (r: Result<
    Maze,
    ServerError,
>)
    ensures
        r matches Ok(m) ==> {
            &&& m.wf()
            &&& m.population_wf()
            &&& mutual_walls(m)
            &&& hull_wf(m)
            &&& m.nb_column == nb_column
            &&& m.nb_line == nb_line
            &&& forall|x: int, y: int|
                #![trigger m.tile_at(x, y)]
                m.in_bounds(x, y) ==> {
                    &&& m.tile_at(x, y).spec_wall_north() == (y == 0)
                    &&& m.tile_at(x, y).spec_wall_south() == (y == m.nb_line - 1)
                    &&& m.tile_at(x, y).spec_wall_west() == (x == 0)
                    &&& m.tile_at(x, y).spec_wall_east() == (x == m.nb_column - 1)
                }
        },
        nb_column == 0 || nb_line == 0 ==> r is Err,
        r matches Err(e) ==> e is InvalidMaze,
{
    if nb_column == 0 || nb_line == 0 {
        return Err(ServerError::invalid_maze(String::from_str("Can't generate an empty maze !")));
    }
    let nest = (rng_u32_below(rng, nb_column), rng_u32_below(rng, nb_line));
    let mut maze = match fresh_maze(nb_column, nb_line, nest) {
        Ok(m) => m,
        Err(e) => {
            return Err(e);
        },
    };
    let ghost fresh = maze;
    maze.generate_border();
    proof {
        lemma_population_counts(fresh, maze);
    }
    let ghost bordered = maze;
    match maze.place_food(1, rng) {
        Ok(_) => (),
        Err(e) => {
            return Err(e);
        },
    }
    proof {
        assert forall|x: int, y: int|
            #![trigger maze.tile_at(x, y)]
            maze.in_bounds(x, y) implies {
            &&& maze.tile_at(x, y).spec_wall_north() == (y == 0)
            &&& maze.tile_at(x, y).spec_wall_south() == (y == maze.nb_line - 1)
            &&& maze.tile_at(x, y).spec_wall_west() == (x == 0)
            &&& maze.tile_at(x, y).spec_wall_east() == (x == maze.nb_column - 1)
        } by {
            assert(fresh.tile_at(x, y) == fresh.tile_at(x, y));
            assert(bordered.tile_at(x, y) == bordered.tile_at(x, y));
        }
    }
    Ok(maze)
}

/// Whether the scaled dimensions or food budget at difficulty `d` leave
/// the 32-bit range the maze model uses, or collapse to nothing.
pub open spec fn unusable_dimensions(config: GeneratorConfig, d: u32) -> bool {
    let w = crate::config::spec_scaled(config.column_min, config.column_coeff_centi, d);
    let h = crate::config::spec_scaled(config.line_min, config.line_coeff_centi, d);
    let f = crate::config::spec_scaled(config.nb_food_min, config.nb_food_coeff_centi, d);
    w == 0 || w > u32::MAX || h == 0 || h > u32::MAX || f > u32::MAX
}

/// Generate a maze from the generation configuration and the difficulty a
/// client asked for: the dimensions and the food budget grow linearly with
/// the difficulty, and the nest is fixed or drawn at random per the
/// configuration.
pub fn generate_maze(config: &GeneratorConfig, critera: &JoinMessageBody, rng: &fastrand::Rng) -> (r:
    Result<Maze, ServerError>)
    ensures
        r matches Ok(m) ==> {
            &&& m.wf()
            &&& m.population_wf()
            &&& mutual_walls(m)
            &&& hull_wf(m)
            &&& m.nb_column == crate::config::spec_scaled(
                config.column_min,
                config.column_coeff_centi,
                critera.difficulty,
            )
            &&& m.nb_line == crate::config::spec_scaled(
                config.line_min,
                config.line_coeff_centi,
                critera.difficulty,
            )
            &&& (config.nest_pos matches NestPositioning::Fixed(x, y) ==> m.nest_column == x
                && m.nest_line == y)
        },
        unusable_dimensions(*config, critera.difficulty) ==> (r is Err),
        r matches Err(e) ==> e is InvalidMaze,
{
    let w64 = scaled(config.column_min, config.column_coeff_centi, critera.difficulty);
    let h64 = scaled(config.line_min, config.line_coeff_centi, critera.difficulty);
    let food64 = scaled(config.nb_food_min, config.nb_food_coeff_centi, critera.difficulty);
    if w64 == 0 || w64 > u32::MAX as u64 || h64 == 0 || h64 > u32::MAX as u64 || food64 > u32::MAX
        as u64 {
        return Err(ServerError::invalid_maze(String::from_str("Unusable maze dimensions")));
    }
    let w = w64 as u32;
    let h = h64 as u32;
    let nest_pos = match config.nest_pos {
        NestPositioning::Randomized => (rng_u32_below(rng, w), rng_u32_below(rng, h)),
        NestPositioning::Fixed(x, y) => (x, y),
    };
    generate_maze_backtracking((w, h), nest_pos, food64 as u32, config.carving_amount, rng)
}

} // verus!
