//! The game state: players, the pheromone field, movement and evaporation.
use vstd::prelude::*;

use crate::error::ServerError;
use crate::maze::Maze;
use crate::maze::Tile;
use crate::maze::lemma_index_bound;
use crate::messages::MoveDirection;
use crate::messages::MoveMessageBody;
use crate::messages::PlayerId;

verus! {

use std::collections::HashMap;

/// Pheromone levels are fixed-point fractions of the unit interval:
/// a stored level `v` stands for `v / PHER_SCALE`.
pub const PHER_SCALE: u32 = 1000000;

/// The amount added when an ant carrying food drops pheromone: `0.2`.
pub const PHER_DROP: u32 = 200000;

/// Every stored level lies in the unit interval.
pub open spec fn levels_wf(s: Seq<u32>) -> bool {
    forall|i: int| 0 <= i < s.len() ==> #[trigger] s[i] <= PHER_SCALE
}

/// One level after evaporation: `clamp(v * (1 - 0.1), 0, 1)`.
pub open spec fn evap_one(v: u32) -> u32 {
    (((v as int) * 9) / 10) as u32
}

/// One level after a pheromone drop: `clamp(v + 0.2, 0, 1)`.
pub open spec fn drop_one(v: u32) -> u32 {
    if v + PHER_DROP > PHER_SCALE {
        PHER_SCALE
    } else {
        (v + PHER_DROP) as u32
    }
}

/// Evaporation keeps levels in the unit interval, strictly reduces
/// a non-zero level and leaves a zero level at zero.
pub proof fn lemma_evap_one_props(v: u32)
    by (nonlinear_arith)
    requires
        v <= PHER_SCALE,
    ensures
        evap_one(v) <= v,
        v > 0 ==> evap_one(v) < v,
        v == 0 ==> evap_one(v) == 0,
        evap_one(v) <= PHER_SCALE,
{
}

/// A pheromone drop keeps levels in the unit interval and never
/// reduces them.
pub proof fn lemma_drop_one_props(v: u32)
    requires
        v <= PHER_SCALE,
    ensures
        drop_one(v) <= PHER_SCALE,
        drop_one(v) >= v,
        drop_one(v) > 0,
{
}

/// The player information: position and carried food.
#[derive(Debug, Clone, Copy)]
pub struct PlayerInfo {
    /// Position as `(column, line)`.
    pub position: (u32, u32),
    pub has_food: bool,
}

impl PlayerInfo {
    /// A fresh player, placed at the maze nest and carrying nothing.
    pub fn new(maze: &Maze) -> (r: PlayerInfo)
        ensures
            r.position.0 == maze.nest_column,
            r.position.1 == maze.nest_line,
            !r.has_food,
    {
        PlayerInfo { position: (maze.nest_column, maze.nest_line), has_food: false }
    }
}

/// Whether `t` has its wall toward `dir` set.
pub open spec fn wall_in(t: Tile, dir: MoveDirection) -> bool {
    match dir {
        MoveDirection::North => t.spec_wall_north(),
        MoveDirection::South => t.spec_wall_south(),
        MoveDirection::East => t.spec_wall_east(),
        MoveDirection::West => t.spec_wall_west(),
    }
}

/// Whether a player standing at `pos` may move one step in `dir`:
/// the position is on the grid, the tile has no wall toward `dir`,
/// and the destination is on the grid too.
pub open spec fn move_allowed(maze: Maze, pos: (u32, u32), dir: MoveDirection) -> bool {
    let (nx, ny) = MoveDirection::spec_step(dir, pos.0 as int, pos.1 as int);
    &&& maze.in_bounds(pos.0 as int, pos.1 as int)
    &&& !wall_in(maze.tile_at(pos.0 as int, pos.1 as int), dir)
    &&& maze.in_bounds(nx, ny)
}

/// The player after a successful move in `dir`: the new position, food
/// picked up on a food tile, food deposited at the nest.
pub open spec fn moved_player(maze: Maze, p: PlayerInfo, dir: MoveDirection) -> PlayerInfo {
    let (nx, ny) = MoveDirection::spec_step(dir, p.position.0 as int, p.position.1 as int);
    let dest = maze.tile_at(nx, ny);
    PlayerInfo {
        position: (nx as u32, ny as u32),
        has_food: if dest.spec_is_food() {
            true
        } else if dest.spec_is_nest() && p.has_food {
            false
        } else {
            p.has_food
        },
    }
}

/// Game state structure: the immediate state of one game session.
#[derive(Debug)]
pub struct GameState {
    /// Every known player, connected or not, by identity.
    pub players: HashMap<PlayerId, PlayerInfo>,
    pub maze: Maze,
    /// The current pheromone field, one level per tile, indexed like tiles.
    pub pheromon: Vec<u32>,
}

impl GameState {
    /// Structural well-formedness: a well-formed maze and a matching,
    /// bounded pheromone field.
    pub open spec fn wf(self) -> bool {
        &&& self.maze.wf()
        &&& self.pheromon@.len() == self.maze.area()
        &&& levels_wf(self.pheromon@)
    }

    /// Create a new initial game state for `maze`: no player yet and a
    /// pheromone field at zero everywhere.
    pub fn new(maze: Maze) -> (r: GameState)
        requires
            maze.wf(),
        ensures
            r.wf(),
            r.maze == maze,
            r.players@ =~= Map::<PlayerId, PlayerInfo>::empty(),
            r.pheromon@.len() == maze.area(),
            forall|i: int| 0 <= i < r.pheromon@.len() ==> #[trigger] r.pheromon@[i] == 0u32,
    {
        proof {
            assert(maze.area() <= u32::MAX);
        }
        let count = maze.tiles.len();
        let mut pheromon: Vec<u32> = Vec::new();
        let mut i: usize = 0;
        while i < count
            invariant
                0 <= i <= count,
                pheromon@.len() == i,
                forall|j: int| 0 <= j < i ==> #[trigger] pheromon@[j] == 0u32,
            decreases count - i,
        {
            pheromon.push(0u32);
            i = i + 1;
        }
        GameState { maze, players: HashMap::new(), pheromon }
    }

    /// Drop pheromone on `position`; out of bounds is a no-op.
    pub fn drop_pheromon(&mut self, position: (u32, u32))
        requires
            old(self).wf(),
        ensures
            final(self).wf(),
            final(self).maze == old(self).maze,
            final(self).players == old(self).players,
            old(self).maze.in_bounds(position.0 as int, position.1 as int) ==> final(self).pheromon@ == old(self).pheromon@.update(
                old(self).maze.idx(position.0 as int, position.1 as int),
                drop_one(old(self).pheromon@[old(self).maze.idx(
                    position.0 as int,
                    position.1 as int,
                )]),
            ),
            !old(self).maze.in_bounds(position.0 as int, position.1 as int) ==> final(self).pheromon@ == old(self).pheromon@,
    {
        if position.0 >= self.maze.nb_column || position.1 >= self.maze.nb_line {
            return ;
        }
        proof {
            lemma_index_bound(
                position.0 as int,
                position.1 as int,
                self.maze.nb_column as int,
                self.maze.nb_line as int,
            );
        }
        let i = position.0 as usize + (position.1 as usize) * (self.maze.nb_column as usize);
        let level = self.pheromon[i];
        let updated = if level + PHER_DROP > PHER_SCALE {
            PHER_SCALE
        } else {
            level + PHER_DROP
        };
        self.pheromon.set(i, updated);
    }

    /// Evaporate the whole pheromone field: every level is scaled by
    /// `1 - 0.1` and stays in the unit interval.
    pub fn update_pheromon(&mut self)
        requires
            old(self).wf(),
        ensures
            final(self).wf(),
            final(self).maze == old(self).maze,
            final(self).players == old(self).players,
            final(self).pheromon@.len() == old(self).pheromon@.len(),
            forall|i: int| 0 <= i < old(self).pheromon@.len() ==> #[trigger] final(self).pheromon@[i] == evap_one(old(self).pheromon@[i]),
    {
        let len = self.pheromon.len();
        let mut i: usize = 0;
        while i < len
            invariant
                0 <= i <= len,
                len == self.pheromon@.len(),
                self.maze == old(self).maze,
                self.players == old(self).players,
                old(self).wf(),
                self.pheromon@.len() == old(self).pheromon@.len(),
                forall|j: int| 0 <= j < i ==> #[trigger] self.pheromon@[j] == evap_one(
                    old(self).pheromon@[j],
                ),
                forall|j: int| i <= j < len ==> #[trigger] self.pheromon@[j] == old(self).pheromon@[j],
            decreases len - i,
        {
            let v = self.pheromon[i];
            proof {
                assert(old(self).pheromon@[i as int] <= PHER_SCALE);
                lemma_evap_one_props(v);
            }
            self.pheromon.set(i, v * 9 / 10);
            i = i + 1;
        }
        proof {
            assert forall|k: int| 0 <= k < self.pheromon@.len() implies #[trigger] self.pheromon@[k]
                <= PHER_SCALE by {
                lemma_evap_one_props(old(self).pheromon@[k]);
            }
        }
    }

    /// The pheromone field after a successful move of `p` in `dir`:
    /// a drop at the new position when the player was carrying food.
    pub open spec fn pheromon_after_move(self, p: PlayerInfo, dir: MoveDirection) -> Seq<u32> {
        let (nx, ny) = MoveDirection::spec_step(dir, p.position.0 as int, p.position.1 as int);
        if p.has_food {
            self.pheromon@.update(
                self.maze.idx(nx, ny),
                drop_one(self.pheromon@[self.maze.idx(nx, ny)]),
            )
        } else {
            self.pheromon@
        }
    }

    /// Process the movement of a player, triggering appropriate actions.
    ///
    /// A move into a wall, off the grid, or from a position that is not on
    /// the grid leaves the player and the field unchanged. A successful move
    /// updates the position, drops pheromone at the new position when the
    /// player carries food, deposits food at the nest and picks food up on a
    /// food tile.
    pub fn process_movement(&mut self, player: PlayerInfo, msg: &MoveMessageBody) -> (r: PlayerInfo)
        requires
            old(self).wf(),
        ensures
            final(self).wf(),
            final(self).maze == old(self).maze,
            final(self).players == old(self).players,
            !move_allowed(old(self).maze, player.position, msg.direction) ==> r == player && final(self).pheromon@ == old(self).pheromon@,
            move_allowed(old(self).maze, player.position, msg.direction) ==> r == moved_player(
                old(self).maze,
                player,
                msg.direction,
            ) && final(self).pheromon@ == old(self).pheromon_after_move(player, msg.direction),
    {
        let tile = match self.maze.get_tile(player.position.0, player.position.1) {
            Some(t) => t,
            None => {
                return player;
            },
        };
        let through_wall = match msg.direction {
            MoveDirection::North => tile.wall_north(),
            MoveDirection::South => tile.wall_south(),
            MoveDirection::East => tile.wall_east(),
            MoveDirection::West => tile.wall_west(),
        };
        if through_wall {
            return player;
        }
        let new_pos = match MoveDirection::apply_movement(msg.direction, player.position) {
            Some(p) => p,
            None => {
                return player;
            },
        };
        let dest_tile = match self.maze.get_tile(new_pos.0, new_pos.1) {
            Some(t) => t,
            None => {
                return player;
            },
        };
        let mut updated = player;
        updated.position = new_pos;
        if player.has_food {
            self.drop_pheromon(new_pos);
        }
        if updated.has_food && dest_tile.is_nest() {
            updated.has_food = false;
        }
        if dest_tile.is_food() {
            updated.has_food = true;
        }
        updated
    }

    /// Process a message from the player with identity `id`.
    ///
    /// A `Move` message is applied to the game state and the updated player
    /// information is returned; any other message leaves the state unchanged
    /// and fails with [`ServerError::UnexpectedParameter`].
    pub fn process_message(&mut self, id: PlayerId, msg: &crate::messages::Message) -> (r: Result<
        PlayerInfo,
        ServerError,
    >)
        requires
            old(self).wf(),
            old(self).players@.contains_key(id),
        ensures
            final(self).wf(),
            final(self).maze == old(self).maze,
            match msg {
                crate::messages::Message::Move(m) => {
                    &&& r matches Ok(p) && p == final(self).players@[id]
                    &&& final(self).players@ == old(self).players@.insert(
                        id,
                        state_moved(*old(self), id, m.direction),
                    )
                    &&& r matches Ok(p) && p == state_moved(*old(self), id, m.direction)
                    &&& final(self).pheromon@ == (if move_allowed(
                        old(self).maze,
                        old(self).players@[id].position,
                        m.direction,
                    ) {
                        old(self).pheromon_after_move(old(self).players@[id], m.direction)
                    } else {
                        old(self).pheromon@
                    })
                },
                _ => {
                    &&& r matches Err(e) && e == ServerError::UnexpectedParameter
                    &&& final(self).players@ == old(self).players@
                    &&& final(self).pheromon@ == old(self).pheromon@
                },
            },
    {
        let player_info = *self.players.get(&id).unwrap();
        match msg {
            crate::messages::Message::Move(move_msg) => {
                let new_player_info = self.process_movement(player_info, move_msg);
                self.players.insert(id, new_player_info);
                Ok(new_player_info)
            },
            _ => Err(ServerError::UnexpectedParameter),
        }
    }

    /// An owned snapshot of the pheromone field.
    ///
    /// The result is an independent value: later mutations of this state
    /// cannot alter a snapshot already handed out.
    pub fn snapshot_pheromon(&self) -> (r: Vec<u32>)
        ensures
            r@ == self.pheromon@,
    {
        crate::messages::copy_levels(&self.pheromon)
    }
}

/// The player information of `id` after applying one move in `dir` to `s`.
pub open spec fn state_moved(s: GameState, id: PlayerId, dir: MoveDirection) -> PlayerInfo {
    let p = s.players@[id];
    if move_allowed(s.maze, p.position, dir) {
        moved_player(s.maze, p, dir)
    } else {
        p
    }
}

} // verus!
