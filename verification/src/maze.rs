//! Maze representation: a bit-packed tile grid with wall, nest and food flags.
use vstd::prelude::*;

use crate::error::ServerError;

verus! {

/// Bit masks of the flags packed in a tile byte.
pub const TILE_WALL_SOUTH: u8 = 0x01;

pub const TILE_WALL_WEST: u8 = 0x02;

pub const TILE_WALL_EAST: u8 = 0x04;

pub const TILE_WALL_NORTH: u8 = 0x08;

pub const TILE_NEST: u8 = 0x10;

pub const TILE_FOOD: u8 = 0x20;

/// A wrapped [`Maze`] tile: one byte packing six flags.
#[derive(Debug, Clone, Copy, PartialEq, Eq, Structural)]
pub struct Tile(pub u8);

/// The byte obtained by forcing the bits of `mask` to `value` in `x`.
pub open spec fn set_bit_spec(x: u8, mask: u8, value: bool) -> u8 {
    if value {
        x | mask
    } else {
        x & !mask
    }
}

/// Force the bits of `mask` in `*x` to `value`.
pub fn set_bit(x: &mut u8, mask: u8, value: bool)
    ensures
        *final(x) == set_bit_spec(*old(x), mask, value),
{
    if value {
        *x = *x | mask;
    } else {
        *x = *x & !mask;
    }
}

impl Tile {
    pub open spec fn spec_wall_south(self) -> bool {
        self.0 & TILE_WALL_SOUTH != 0
    }

    pub open spec fn spec_wall_west(self) -> bool {
        self.0 & TILE_WALL_WEST != 0
    }

    pub open spec fn spec_wall_east(self) -> bool {
        self.0 & TILE_WALL_EAST != 0
    }

    pub open spec fn spec_wall_north(self) -> bool {
        self.0 & TILE_WALL_NORTH != 0
    }

    pub open spec fn spec_is_nest(self) -> bool {
        self.0 & TILE_NEST != 0
    }

    pub open spec fn spec_is_food(self) -> bool {
        self.0 & TILE_FOOD != 0
    }

    pub fn wall_south(&self) -> (r: bool)
        ensures
            r == self.spec_wall_south(),
    {
        (self.0 & TILE_WALL_SOUTH) > 0
    }

    pub fn wall_west(&self) -> (r: bool)
        ensures
            r == self.spec_wall_west(),
    {
        (self.0 & TILE_WALL_WEST) > 0
    }

    pub fn wall_east(&self) -> (r: bool)
        ensures
            r == self.spec_wall_east(),
    {
        (self.0 & TILE_WALL_EAST) > 0
    }

    pub fn wall_north(&self) -> (r: bool)
        ensures
            r == self.spec_wall_north(),
    {
        (self.0 & TILE_WALL_NORTH) > 0
    }

    pub fn is_nest(&self) -> (r: bool)
        ensures
            r == self.spec_is_nest(),
    {
        (self.0 & TILE_NEST) > 0
    }

    pub fn is_food(&self) -> (r: bool)
        ensures
            r == self.spec_is_food(),
    {
        (self.0 & TILE_FOOD) > 0
    }

    pub fn set_wall_south(&mut self, value: bool)
        ensures
            final(self).0 == set_bit_spec(old(self).0, TILE_WALL_SOUTH, value),
            final(self).spec_wall_south() == value,
            final(self).spec_wall_west() == old(self).spec_wall_west(),
            final(self).spec_wall_east() == old(self).spec_wall_east(),
            final(self).spec_wall_north() == old(self).spec_wall_north(),
            final(self).spec_is_nest() == old(self).spec_is_nest(),
            final(self).spec_is_food() == old(self).spec_is_food(),
    {
        let ghost o: u8 = self.0;
        set_bit(&mut self.0, TILE_WALL_SOUTH, value);
        proof {
            let n = self.0;
            assert(((n & 0x01u8 != 0) == value) && ((n & 0x02u8 != 0) == (o & 0x02u8 != 0)) && ((n
                & 0x04u8 != 0) == (o & 0x04u8 != 0)) && ((n & 0x08u8 != 0) == (o & 0x08u8 != 0)) && (
            (n & 0x10u8 != 0) == (o & 0x10u8 != 0)) && ((n & 0x20u8 != 0) == (o & 0x20u8
                != 0))) by (bit_vector)
                requires
                    n == (if value {
                        o | 0x01u8
                    } else {
                        o & !0x01u8
                    }),
            ;
        }
    }

    pub fn set_wall_west(&mut self, value: bool)
        ensures
            final(self).0 == set_bit_spec(old(self).0, TILE_WALL_WEST, value),
            final(self).spec_wall_west() == value,
            final(self).spec_wall_south() == old(self).spec_wall_south(),
            final(self).spec_wall_east() == old(self).spec_wall_east(),
            final(self).spec_wall_north() == old(self).spec_wall_north(),
            final(self).spec_is_nest() == old(self).spec_is_nest(),
            final(self).spec_is_food() == old(self).spec_is_food(),
    {
        let ghost o: u8 = self.0;
        set_bit(&mut self.0, TILE_WALL_WEST, value);
        proof {
            let n = self.0;
            assert(((n & 0x02u8 != 0) == value) && ((n & 0x01u8 != 0) == (o & 0x01u8 != 0)) && ((n
                & 0x04u8 != 0) == (o & 0x04u8 != 0)) && ((n & 0x08u8 != 0) == (o & 0x08u8 != 0)) && (
            (n & 0x10u8 != 0) == (o & 0x10u8 != 0)) && ((n & 0x20u8 != 0) == (o & 0x20u8
                != 0))) by (bit_vector)
                requires
                    n == (if value {
                        o | 0x02u8
                    } else {
                        o & !0x02u8
                    }),
            ;
        }
    }

    pub fn set_wall_east(&mut self, value: bool)
        ensures
            final(self).0 == set_bit_spec(old(self).0, TILE_WALL_EAST, value),
            final(self).spec_wall_east() == value,
            final(self).spec_wall_south() == old(self).spec_wall_south(),
            final(self).spec_wall_west() == old(self).spec_wall_west(),
            final(self).spec_wall_north() == old(self).spec_wall_north(),
            final(self).spec_is_nest() == old(self).spec_is_nest(),
            final(self).spec_is_food() == old(self).spec_is_food(),
    {
        let ghost o: u8 = self.0;
        set_bit(&mut self.0, TILE_WALL_EAST, value);
        proof {
            let n = self.0;
            assert(((n & 0x04u8 != 0) == value) && ((n & 0x01u8 != 0) == (o & 0x01u8 != 0)) && ((n
                & 0x02u8 != 0) == (o & 0x02u8 != 0)) && ((n & 0x08u8 != 0) == (o & 0x08u8 != 0)) && (
            (n & 0x10u8 != 0) == (o & 0x10u8 != 0)) && ((n & 0x20u8 != 0) == (o & 0x20u8
                != 0))) by (bit_vector)
                requires
                    n == (if value {
                        o | 0x04u8
                    } else {
                        o & !0x04u8
                    }),
            ;
        }
    }

    pub fn set_wall_north(&mut self, value: bool)
        ensures
            final(self).0 == set_bit_spec(old(self).0, TILE_WALL_NORTH, value),
            final(self).spec_wall_north() == value,
            final(self).spec_wall_south() == old(self).spec_wall_south(),
            final(self).spec_wall_west() == old(self).spec_wall_west(),
            final(self).spec_wall_east() == old(self).spec_wall_east(),
            final(self).spec_is_nest() == old(self).spec_is_nest(),
            final(self).spec_is_food() == old(self).spec_is_food(),
    {
        let ghost o: u8 = self.0;
        set_bit(&mut self.0, TILE_WALL_NORTH, value);
        proof {
            let n = self.0;
            assert(((n & 0x08u8 != 0) == value) && ((n & 0x01u8 != 0) == (o & 0x01u8 != 0)) && ((n
                & 0x02u8 != 0) == (o & 0x02u8 != 0)) && ((n & 0x04u8 != 0) == (o & 0x04u8 != 0)) && (
            (n & 0x10u8 != 0) == (o & 0x10u8 != 0)) && ((n & 0x20u8 != 0) == (o & 0x20u8
                != 0))) by (bit_vector)
                requires
                    n == (if value {
                        o | 0x08u8
                    } else {
                        o & !0x08u8
                    }),
            ;
        }
    }

    pub fn set_nest(&mut self, value: bool)
        ensures
            final(self).0 == set_bit_spec(old(self).0, TILE_NEST, value),
            final(self).spec_is_nest() == value,
            final(self).spec_wall_south() == old(self).spec_wall_south(),
            final(self).spec_wall_west() == old(self).spec_wall_west(),
            final(self).spec_wall_east() == old(self).spec_wall_east(),
            final(self).spec_wall_north() == old(self).spec_wall_north(),
            final(self).spec_is_food() == old(self).spec_is_food(),
    {
        let ghost o: u8 = self.0;
        set_bit(&mut self.0, TILE_NEST, value);
        proof {
            let n = self.0;
            assert(((n & 0x10u8 != 0) == value) && ((n & 0x01u8 != 0) == (o & 0x01u8 != 0)) && ((n
                & 0x02u8 != 0) == (o & 0x02u8 != 0)) && ((n & 0x04u8 != 0) == (o & 0x04u8 != 0)) && (
            (n & 0x08u8 != 0) == (o & 0x08u8 != 0)) && ((n & 0x20u8 != 0) == (o & 0x20u8
                != 0))) by (bit_vector)
                requires
                    n == (if value {
                        o | 0x10u8
                    } else {
                        o & !0x10u8
                    }),
            ;
        }
    }

    pub fn set_food(&mut self, value: bool)
        ensures
            final(self).0 == set_bit_spec(old(self).0, TILE_FOOD, value),
            final(self).spec_is_food() == value,
            final(self).spec_wall_south() == old(self).spec_wall_south(),
            final(self).spec_wall_west() == old(self).spec_wall_west(),
            final(self).spec_wall_east() == old(self).spec_wall_east(),
            final(self).spec_wall_north() == old(self).spec_wall_north(),
            final(self).spec_is_nest() == old(self).spec_is_nest(),
    {
        let ghost o: u8 = self.0;
        set_bit(&mut self.0, TILE_FOOD, value);
        proof {
            let n = self.0;
            assert(((n & 0x20u8 != 0) == value) && ((n & 0x01u8 != 0) == (o & 0x01u8 != 0)) && ((n
                & 0x02u8 != 0) == (o & 0x02u8 != 0)) && ((n & 0x04u8 != 0) == (o & 0x04u8 != 0)) && (
            (n & 0x08u8 != 0) == (o & 0x08u8 != 0)) && ((n & 0x10u8 != 0) == (o & 0x10u8
                != 0))) by (bit_vector)
                requires
                    n == (if value {
                        o | 0x20u8
                    } else {
                        o & !0x20u8
                    }),
            ;
        }
    }
}

/// How many bytes of `s` have a flag of `mask` set.
pub open spec fn count_matching(s: Seq<u8>, mask: u8) -> int
    decreases s.len(),
{
    if s.len() == 0 {
        0
    } else {
        count_matching(s.drop_last(), mask) + if s.last() & mask != 0 {
            1int
        } else {
            0int
        }
    }
}

/// A byte sequence with a single `mask` match at `i` counts exactly one.
pub proof fn lemma_count_matching_single(s: Seq<u8>, mask: u8, i: int)
    requires
        0 <= i < s.len(),
        s[i] & mask != 0,
        forall|j: int| 0 <= j < s.len() && j != i ==> #[trigger] (s[j] & mask) == 0,
    ensures
        count_matching(s, mask) == 1,
    decreases s.len(),
{
    if i == s.len() - 1 {
        lemma_count_matching_none(s.drop_last(), mask);
    } else {
        lemma_count_matching_single(s.drop_last(), mask, i);
    }
}

/// A byte sequence without any `mask` match counts zero.
pub proof fn lemma_count_matching_none(s: Seq<u8>, mask: u8)
    requires
        forall|j: int| 0 <= j < s.len() ==> #[trigger] (s[j] & mask) == 0,
    ensures
        count_matching(s, mask) == 0,
    decreases s.len(),
{
    if s.len() > 0 {
        lemma_count_matching_none(s.drop_last(), mask);
    }
}

/// A byte sequence with a `mask` match at `i` counts at least one.
pub proof fn lemma_count_matching_pos(s: Seq<u8>, mask: u8, i: int)
    requires
        0 <= i < s.len(),
        s[i] & mask != 0,
    ensures
        count_matching(s, mask) >= 1,
    decreases s.len(),
{
    lemma_count_matching_nonneg(s, mask);
    if i == s.len() - 1 {
        lemma_count_matching_nonneg(s.drop_last(), mask);
    } else {
        lemma_count_matching_pos(s.drop_last(), mask, i);
    }
}

pub proof fn lemma_count_matching_nonneg(s: Seq<u8>, mask: u8)
    ensures
        count_matching(s, mask) >= 0,
    decreases s.len(),
{
    if s.len() > 0 {
        lemma_count_matching_nonneg(s.drop_last(), mask);
    }
}

/// Two byte sequences agreeing on the `mask` flag everywhere count the same.
pub proof fn lemma_count_matching_congruent(a: Seq<u8>, b: Seq<u8>, mask: u8)
    requires
        a.len() == b.len(),
        forall|j: int| 0 <= j < a.len() ==> ((#[trigger] a[j] & mask) != 0 <==> (#[trigger] b[j]
            & mask) != 0),
    ensures
        count_matching(a, mask) == count_matching(b, mask),
    decreases a.len(),
{
    if a.len() > 0 {
        lemma_count_matching_congruent(a.drop_last(), b.drop_last(), mask);
    }
}

/// A maze or "labyrinth": a rectangular grid of tiles with a nest position.
///
/// The tile array is `nb_column * nb_line` long and indexed by
/// `x + y * nb_column`, where `x` is the column and `y` the line.
#[derive(Debug, Clone)]
pub struct Maze {
    pub nb_column: u32,
    pub nb_line: u32,
    pub nest_column: u32,
    pub nest_line: u32,
    pub tiles: Vec<u8>,
}

/// The linear tile index of position `(x, y)` on a grid `w` columns wide.
pub open spec fn grid_idx(x: int, y: int, w: int) -> int {
    x + y * w
}

/// An in-bounds position's linear index lies within the grid area.
pub proof fn lemma_index_bound(x: int, y: int, w: int, h: int)
    by (nonlinear_arith)
    requires
        0 <= x < w,
        0 <= y < h,
    ensures
        0 <= x + y * w,
        x + y * w < w * h,
{
}

/// Bounds of the column and line recovered from a linear index.
pub proof fn lemma_div_mod_in_bounds(i: int, w: int, h: int)
    by (nonlinear_arith)
    requires
        w >= 1,
        0 <= i,
        i < w * h,
    ensures
        0 <= i % w < w,
        0 <= i / w < h,
        (i % w) + (i / w) * w == i,
{
}

/// Distinct in-bounds positions have distinct linear indices.
pub proof fn lemma_index_injective(x1: int, y1: int, x2: int, y2: int, w: int, h: int)
    by (nonlinear_arith)
    requires
        0 <= x1 < w,
        0 <= y1 < h,
        0 <= x2 < w,
        0 <= y2 < h,
        x1 + y1 * w == x2 + y2 * w,
    ensures
        x1 == x2 && y1 == y2,
{
}

impl Maze {
    /// The number of tiles of the grid.
    pub open spec fn area(self) -> int {
        self.nb_column * self.nb_line
    }

    /// Structural well-formedness: non-empty grid, matching tile array,
    /// in-bounds nest, and an area small enough for 32-bit indexing.
    pub open spec fn wf(self) -> bool {
        &&& self.nb_column >= 1
        &&& self.nb_line >= 1
        &&& self.area() <= u32::MAX
        &&& self.tiles@.len() == self.area()
        &&& self.nest_column < self.nb_column
        &&& self.nest_line < self.nb_line
    }

    pub open spec fn in_bounds(self, x: int, y: int) -> bool {
        &&& 0 <= x < self.nb_column
        &&& 0 <= y < self.nb_line
    }

    pub open spec fn idx(self, x: int, y: int) -> int {
        grid_idx(x, y, self.nb_column as int)
    }

    pub open spec fn tile_at(self, x: int, y: int) -> Tile {
        Tile(self.tiles@[self.idx(x, y)])
    }

    /// The nest tile is the only nest and at least one tile carries food.
    pub open spec fn population_wf(self) -> bool {
        &&& count_matching(self.tiles@, TILE_NEST) == 1
        &&& count_matching(self.tiles@, TILE_FOOD) >= 1
        &&& self.tile_at(self.nest_column as int, self.nest_line as int).spec_is_nest()
    }

    /// Validate a tile array as a maze: the array length must match the
    /// dimensions and exactly one tile must carry the nest flag.
    pub fn new(width: u32, height: u32, tiles: &[u8]) -> (r: Result<Maze, ServerError>)
        ensures
            r is Ok <==> {
                &&& width * height == tiles@.len()
                &&& width * height <= u32::MAX
                &&& count_matching(tiles@, TILE_NEST) == 1
            },
            r matches Ok(m) ==> {
                &&& m.wf()
                &&& m.nb_column == width
                &&& m.nb_line == height
                &&& m.tiles@ == tiles@
                &&& m.tile_at(m.nest_column as int, m.nest_line as int).spec_is_nest()
                &&& count_matching(m.tiles@, TILE_NEST) == 1
            },
            r matches Err(e) ==> e is InvalidMaze,
    {
        let len = tiles.len();
        proof {
            assert((width as int) * (height as int) < 0x10000000000000000int) by (nonlinear_arith)
                requires
                    width <= u32::MAX,
                    height <= u32::MAX,
            ;
        }
        if (width as u64) * (height as u64) != (len as u64) || len as u64 > u32::MAX as u64 {
            return ServerError::invalid_maze_error(String::from_str(
                "width * height doesn't match with tiles.len()",
            ));
        }
        // Find the nest tiles.
        let mut nest_count: usize = 0;
        let mut nest_index: usize = 0;
        let ghost mut second: int = 0;
        let mut i: usize = 0;
        while i < len
            invariant
                0 <= i <= len,
                len == tiles@.len(),
                nest_count <= i,
                nest_count == 0 ==> forall|j: int| 0 <= j < i ==> #[trigger] (tiles@[j]
                    & TILE_NEST) == 0,
                nest_count > 0 ==> {
                    &&& nest_index < i
                    &&& tiles@[nest_index as int] & TILE_NEST != 0
                },
                nest_count == 1 ==> forall|j: int| 0 <= j < i && j != nest_index
                    ==> #[trigger] (tiles@[j] & TILE_NEST) == 0,
                nest_count >= 2 ==> {
                    &&& 0 <= second < i
                    &&& second != nest_index
                    &&& tiles@[second] & TILE_NEST != 0
                },
            decreases len - i,
        {
            if Tile(tiles[i]).is_nest() {
                if nest_count == 0 {
                    nest_index = i;
                }
                proof {
                    if nest_count == 1 {
                        second = i as int;
                    }
                }
                nest_count = nest_count + 1;
            }
            i = i + 1;
        }
        if nest_count == 0 {
            proof {
                lemma_count_matching_none(tiles@, TILE_NEST);
            }
            return ServerError::invalid_maze_error(String::from_str("No nest found in tiles"));
        }
        if nest_count > 1 {
            proof {
                lemma_count_two_distinct(tiles@, TILE_NEST, nest_index as int, second);
            }
            return ServerError::invalid_maze_error(String::from_str(
                "More than one nest found in tiles",
            ));
        }
        proof {
            lemma_count_matching_single(tiles@, TILE_NEST, nest_index as int);
            assert(width >= 1) by (nonlinear_arith)
                requires
                    (width as int) * (height as int) == len as int,
                    len >= 1,
            ;
            lemma_div_mod_in_bounds(nest_index as int, width as int, height as int);
        }
        let nest_x = (nest_index as u64 % width as u64) as u32;
        let nest_y = (nest_index as u64 / width as u64) as u32;
        let mut owned: Vec<u8> = Vec::new();
        let mut k: usize = 0;
        while k < len
            invariant
                0 <= k <= len,
                len == tiles@.len(),
                owned@ == tiles@.subrange(0, k as int),
            decreases len - k,
        {
            owned.push(tiles[k]);
            k = k + 1;
        }
        proof {
            assert(owned@ =~= tiles@);
        }
        Ok(
            Maze {
                nb_column: width,
                nb_line: height,
                nest_column: nest_x,
                nest_line: nest_y,
                tiles: owned,
            },
        )
    }

    /// The tile at `(x, y)`, or `None` when the position is out of bounds.
    pub fn get_tile(&self, x: u32, y: u32) -> (r: Option<Tile>)
        requires
            self.wf(),
        ensures
            self.in_bounds(x as int, y as int) ==> r == Some(self.tile_at(x as int, y as int)),
            !self.in_bounds(x as int, y as int) ==> r is None,
    {
        if x >= self.nb_column || y >= self.nb_line {
            None
        } else {
            proof {
                lemma_index_bound(x as int, y as int, self.nb_column as int, self.nb_line as int);
            }
            let i = x as usize + (y as usize) * (self.nb_column as usize);
            Some(Tile(self.tiles[i]))
        }
    }

    /// Overwrite the tile at `(x, y)`; out of bounds is a no-op.
    pub fn set_tile(&mut self, x: u32, y: u32, tile: &Tile)
        requires
            old(self).wf(),
        ensures
            final(self).wf(),
            final(self).nb_column == old(self).nb_column,
            final(self).nb_line == old(self).nb_line,
            final(self).nest_column == old(self).nest_column,
            final(self).nest_line == old(self).nest_line,
            old(self).in_bounds(x as int, y as int) ==> final(self).tiles@ == old(
                self,
            ).tiles@.update(old(self).idx(x as int, y as int), tile.0),
            !old(self).in_bounds(x as int, y as int) ==> final(self).tiles@ == old(self).tiles@,
    {
        if x >= self.nb_column || y >= self.nb_line {
            return ;
        }
        proof {
            lemma_index_bound(x as int, y as int, self.nb_column as int, self.nb_line as int);
        }
        let i = x as usize + (y as usize) * (self.nb_column as usize);
        self.tiles.set(i, tile.0);
    }

    /// An owned copy whose every field equals the original's.
    pub fn duplicate(&self) -> (r: Maze)
        ensures
            r.nb_column == self.nb_column,
            r.nb_line == self.nb_line,
            r.nest_column == self.nest_column,
            r.nest_line == self.nest_line,
            r.tiles@ == self.tiles@,
    {
        let mut tiles: Vec<u8> = Vec::new();
        let len = self.tiles.len();
        let mut k: usize = 0;
        while k < len
            invariant
                0 <= k <= len,
                len == self.tiles@.len(),
                tiles@ == self.tiles@.subrange(0, k as int),
            decreases len - k,
        {
            tiles.push(self.tiles[k]);
            k = k + 1;
        }
        proof {
            assert(tiles@ =~= self.tiles@);
        }
        Maze {
            nb_column: self.nb_column,
            nb_line: self.nb_line,
            nest_column: self.nest_column,
            nest_line: self.nest_line,
            tiles,
        }
    }
}

/// Every wall between two in-bounds neighbor tiles is mutual: a tile's east
/// wall agrees with its east neighbor's west wall, and a tile's south wall
/// agrees with its south neighbor's north wall (the line grows southward).
pub open spec fn mutual_walls(m: Maze) -> bool {
    &&& forall|x: int, y: int|
        #![trigger m.tile_at(x, y).spec_wall_east()]
        m.in_bounds(x, y) && m.in_bounds(x + 1, y) ==> m.tile_at(x, y).spec_wall_east() == m.tile_at(
            x + 1,
            y,
        ).spec_wall_west()
    &&& forall|x: int, y: int|
        #![trigger m.tile_at(x, y).spec_wall_south()]
        m.in_bounds(x, y) && m.in_bounds(x, y + 1) ==> m.tile_at(x, y).spec_wall_south()
            == m.tile_at(x, y + 1).spec_wall_north()
}

/// The border hull: every tile on the grid edge has its outward wall set.
pub open spec fn hull_wf(m: Maze) -> bool {
    &&& forall|x: int|
        #![trigger m.tile_at(x, 0).spec_wall_north()]
        0 <= x < m.nb_column ==> m.tile_at(x, 0).spec_wall_north()
    &&& forall|x: int|
        #![trigger m.tile_at(x, m.nb_line - 1).spec_wall_south()]
        0 <= x < m.nb_column ==> m.tile_at(x, m.nb_line - 1).spec_wall_south()
    &&& forall|y: int|
        #![trigger m.tile_at(0, y).spec_wall_west()]
        0 <= y < m.nb_line ==> m.tile_at(0, y).spec_wall_west()
    &&& forall|y: int|
        #![trigger m.tile_at(m.nb_column - 1, y).spec_wall_east()]
        0 <= y < m.nb_line ==> m.tile_at(m.nb_column - 1, y).spec_wall_east()
}

/// `a` and `b` have the same shape and the same nest and food flags on
/// every tile.
pub open spec fn same_population(a: Maze, b: Maze) -> bool {
    &&& a.nb_column == b.nb_column
    &&& a.nb_line == b.nb_line
    &&& a.tiles@.len() == b.tiles@.len()
    &&& forall|i: int|
        0 <= i < a.tiles@.len() ==> ((#[trigger] a.tiles@[i] & TILE_NEST) != 0 <==> (
        #[trigger] b.tiles@[i] & TILE_NEST) != 0)
    &&& forall|i: int|
        0 <= i < a.tiles@.len() ==> ((#[trigger] a.tiles@[i] & TILE_FOOD) != 0 <==> (
        #[trigger] b.tiles@[i] & TILE_FOOD) != 0)
}

/// Two distinct `mask` matches make the count at least two.
pub proof fn lemma_count_two_distinct(s: Seq<u8>, mask: u8, i: int, k: int)
    requires
        0 <= i < s.len(),
        0 <= k < s.len(),
        i != k,
        s[i] & mask != 0,
        s[k] & mask != 0,
    ensures
        count_matching(s, mask) >= 2,
    decreases s.len(),
{
    let last = s.len() - 1;
    if i == last {
        lemma_count_matching_pos(s.drop_last(), mask, k);
    } else if k == last {
        lemma_count_matching_pos(s.drop_last(), mask, i);
    } else {
        lemma_count_two_distinct(s.drop_last(), mask, i, k);
    }
}

/// Build a minimal square maze: a nest in the first tile, food in the
/// last, and no walls anywhere. A single-tile maze fails, because the food
/// overwrites the only nest tile.
pub fn generate_basic_maze(size: u32) -> (r: Result<Maze, ServerError>)
    requires
        1 <= size,
        size * size <= u32::MAX,
    ensures
        size == 1 ==> (r matches Err(e) && e is InvalidMaze),
        size >= 2 ==> (r matches Ok(m) && {
            &&& m.wf()
            &&& m.population_wf()
            &&& m.nb_column == size
            &&& m.nb_line == size
            &&& m.nest_column == 0
            &&& m.nest_line == 0
            &&& m.tiles@.len() == size * size
            &&& m.tiles@[0] == TILE_NEST
            &&& m.tiles@[size * size - 1] == TILE_FOOD
            &&& forall|j: int| 0 < j < size * size - 1 ==> #[trigger] m.tiles@[j] == 0u8
        }),
{
    proof {
        vstd::arithmetic::mul::lemma_mul_strictly_positive(size as int, size as int);
        vstd::arithmetic::mul::lemma_mul_inequality(1, size as int, size as int);
        if size >= 2 {
            vstd::arithmetic::mul::lemma_mul_inequality(2, size as int, size as int);
        }
    }
    let count = (size as usize) * (size as usize);
    let mut tiles_vec: Vec<u8> = Vec::new();
    let mut i: usize = 0;
    while i < count
        invariant
            0 <= i <= count,
            tiles_vec@.len() == i,
            forall|j: int| 0 <= j < i ==> tiles_vec@[j] == 0u8,
        decreases count - i,
    {
        tiles_vec.push(0u8);
        i = i + 1;
    }
    tiles_vec.set(0, TILE_NEST);
    tiles_vec.set(count - 1, TILE_FOOD);
    proof {
        assert(TILE_NEST & TILE_NEST != 0u8) by (bit_vector);
        assert(TILE_FOOD & TILE_FOOD != 0u8) by (bit_vector);
        assert(TILE_FOOD & TILE_NEST == 0u8) by (bit_vector);
        assert(0u8 & TILE_NEST == 0u8) by (bit_vector);
        assert(0u8 & TILE_FOOD == 0u8) by (bit_vector);
        if count == 1 {
            lemma_count_matching_none(tiles_vec@, TILE_NEST);
        } else {
            lemma_count_matching_single(tiles_vec@, TILE_NEST, 0);
            lemma_count_matching_pos(tiles_vec@, TILE_FOOD, count as int - 1);
        }
    }
    let r = Maze::new(size, size, tiles_vec.as_slice());
    proof {
        if size >= 2 {
            assert(r is Ok);
            if let Ok(m) = &r {
                lemma_index_bound(
                    m.nest_column as int,
                    m.nest_line as int,
                    size as int,
                    size as int,
                );
                let ix = m.nest_column as int + m.nest_line as int * size as int;
                if ix != 0 {
                    assert(m.tiles@[ix] & TILE_NEST == 0);
                }
                lemma_index_injective(
                    m.nest_column as int,
                    m.nest_line as int,
                    0,
                    0,
                    size as int,
                    size as int,
                );
            }
        }
    }
    r
}

} // verus!
