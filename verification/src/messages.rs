//! Message structures exchanged between clients and the server.
use vstd::prelude::*;

use crate::error::ServerError;
use crate::maze::Maze;

verus! {

/// A player identity: the 128-bit value of a version-4 UUID.
pub type PlayerId = u128;

/// Each movement a player can do.
#[derive(Debug, Clone, Copy, PartialEq, Eq, Structural)]
pub enum MoveDirection {
    North,
    South,
    East,
    West,
}

impl MoveDirection {
    /// The numeric tag this direction carries on the wire.
    pub open spec fn spec_code(self) -> u32 {
        match self {
            MoveDirection::North => 0,
            MoveDirection::South => 1,
            MoveDirection::East => 2,
            MoveDirection::West => 3,
        }
    }

    pub fn code(self) -> (r: u32)
        ensures
            r == self.spec_code(),
    {
        match self {
            MoveDirection::North => 0,
            MoveDirection::South => 1,
            MoveDirection::East => 2,
            MoveDirection::West => 3,
        }
    }

    pub fn from_code(code: u32) -> (r: Option<MoveDirection>)
        ensures
            r is Some <==> code < 4,
            r matches Some(d) ==> d.spec_code() == code,
    {
        match code {
            0 => Some(MoveDirection::North),
            1 => Some(MoveDirection::South),
            2 => Some(MoveDirection::East),
            3 => Some(MoveDirection::West),
            _ => None,
        }
    }

    /// The prospective position one step in `dir` from `(x, y)`, over the
    /// unbounded grid: north decreases the line, south increases it, east
    /// increases the column, west decreases it.
    pub open spec fn spec_step(dir: MoveDirection, x: int, y: int) -> (int, int) {
        match dir {
            MoveDirection::North => (x, y - 1),
            MoveDirection::South => (x, y + 1),
            MoveDirection::East => (x + 1, y),
            MoveDirection::West => (x - 1, y),
        }
    }

    /// Apply one step of movement; `None` when the step leaves the
    /// non-negative coordinate range.
    pub fn apply_movement(dir: MoveDirection, pos: (u32, u32)) -> (r: Option<(u32, u32)>)
        ensures
            match r {
                Some(p) => (p.0 as int, p.1 as int) == MoveDirection::spec_step(
                    dir,
                    pos.0 as int,
                    pos.1 as int,
                ),
                None => {
                    let (nx, ny) = MoveDirection::spec_step(dir, pos.0 as int, pos.1 as int);
                    nx < 0 || ny < 0 || nx > u32::MAX || ny > u32::MAX
                },
            },
    {
        match dir {
            MoveDirection::North => {
                if pos.1 == 0 {
                    None
                } else {
                    Some((pos.0, pos.1 - 1))
                }
            },
            MoveDirection::South => {
                if pos.1 == u32::MAX {
                    None
                } else {
                    Some((pos.0, pos.1 + 1))
                }
            },
            MoveDirection::East => {
                if pos.0 == u32::MAX {
                    None
                } else {
                    Some((pos.0 + 1, pos.1))
                }
            },
            MoveDirection::West => {
                if pos.0 == 0 {
                    None
                } else {
                    Some((pos.0 - 1, pos.1))
                }
            },
        }
    }
}

/// The direction opposite to `direction`.
pub fn invert_move_direction(direction: MoveDirection) -> (r: MoveDirection)
    ensures
        r == spec_invert(direction),
{
    match direction {
        MoveDirection::North => MoveDirection::South,
        MoveDirection::South => MoveDirection::North,
        MoveDirection::East => MoveDirection::West,
        MoveDirection::West => MoveDirection::East,
    }
}

pub open spec fn spec_invert(direction: MoveDirection) -> MoveDirection {
    match direction {
        MoveDirection::North => MoveDirection::South,
        MoveDirection::South => MoveDirection::North,
        MoveDirection::East => MoveDirection::West,
        MoveDirection::West => MoveDirection::East,
    }
}

/// Inverting a direction twice gives the direction back.
pub proof fn lemma_invert_involution(direction: MoveDirection)
    ensures
        spec_invert(spec_invert(direction)) == direction,
{
}

/// A rearrangement of the four directions holds every direction.
pub proof fn lemma_all_directions_present(s: Seq<MoveDirection>, d: MoveDirection)
    requires
        s.to_multiset() == seq![
            MoveDirection::North,
            MoveDirection::South,
            MoveDirection::West,
            MoveDirection::East,
        ].to_multiset(),
    ensures
        exists|i: int| 0 <= i < s.len() && s[i] == d,
{
    let base = seq![
        MoveDirection::North,
        MoveDirection::South,
        MoveDirection::West,
        MoveDirection::East,
    ];
    base.to_multiset_ensures();
    s.to_multiset_ensures();
    assert(base[0] == MoveDirection::North && base[1] == MoveDirection::South && base[2]
        == MoveDirection::West && base[3] == MoveDirection::East);
    match d {
        MoveDirection::North => assert(base.to_multiset().contains(base[0])),
        MoveDirection::South => assert(base.to_multiset().contains(base[1])),
        MoveDirection::West => assert(base.to_multiset().contains(base[2])),
        MoveDirection::East => assert(base.to_multiset().contains(base[3])),
    }
    assert(s.to_multiset().contains(d));
    let i = choose|i: int| 0 <= i < s.len() && s[i] == d;
}

/// Message sent by a client in the lobby to initiate matchmaking.
#[derive(Debug, Clone)]
pub struct JoinMessageBody {
    /// Asked difficulty.
    pub difficulty: u32,
    /// Optional player identity for reconnecting to a running session.
    pub player_id: Option<PlayerId>,
}

/// Message sent by the server to let the client join the game session.
#[derive(Debug, Clone)]
pub struct OkMazeMessageBody {
    pub maze: Maze,
    pub player_id: PlayerId,
}

/// Message sent by the server with the current game view of one player.
///
/// Pheromone levels are fixed-point values: `level` out of
/// [`crate::state::PHER_SCALE`] stands for the fraction `level / PHER_SCALE`
/// of the unit interval.
#[derive(Debug, Clone)]
pub struct InfoMessageBody {
    pub player_column: u32,
    pub player_line: u32,
    pub player_has_food: bool,
    pub pheromon: Vec<u32>,
}

/// Message sent by a client to move its ant.
#[derive(Debug, Clone)]
pub struct MoveMessageBody {
    pub direction: MoveDirection,
}

/// Enumeration of all the possible message formats.
#[derive(Debug)]
pub enum Message {
    Join(JoinMessageBody),
    OkMaze(OkMazeMessageBody),
    Info(InfoMessageBody),
    Error(ServerError),
    Move(MoveMessageBody),
    Unexpected { expected: Vec<String>, received: Box<Message> },
}

/// The mathematical value of a [`Maze`]: its dimensions, nest position and
/// tile bytes.
pub struct MazeV {
    pub nb_column: u32,
    pub nb_line: u32,
    pub nest_column: u32,
    pub nest_line: u32,
    pub tiles: Seq<u8>,
}

impl View for Maze {
    type V = MazeV;

    open spec fn view(&self) -> MazeV {
        MazeV {
            nb_column: self.nb_column,
            nb_line: self.nb_line,
            nest_column: self.nest_column,
            nest_line: self.nest_line,
            tiles: self.tiles@,
        }
    }
}

/// The mathematical value of a [`ServerError`].
pub enum ErrorV {
    InvalidMaze(Seq<char>),
    Transmission(Seq<char>),
    SerializerError(Seq<char>),
    AlreadyConnected,
    UnexpectedParameter,
    Other(Seq<char>),
}

impl View for ServerError {
    type V = ErrorV;

    open spec fn view(&self) -> ErrorV {
        match self {
            ServerError::InvalidMaze(m) => ErrorV::InvalidMaze(m@),
            ServerError::Transmission(m) => ErrorV::Transmission(m@),
            ServerError::SerializerError(m) => ErrorV::SerializerError(m@),
            ServerError::AlreadyConnected => ErrorV::AlreadyConnected,
            ServerError::UnexpectedParameter => ErrorV::UnexpectedParameter,
            ServerError::Other(m) => ErrorV::Other(m@),
        }
    }
}

/// The mathematical value of a [`Message`].
pub enum MessageV {
    Join { difficulty: u32, player_id: Option<PlayerId> },
    OkMaze { maze: MazeV, player_id: PlayerId },
    Info { player_column: u32, player_line: u32, player_has_food: bool, pheromon: Seq<u32> },
    Error(ErrorV),
    Move(MoveDirection),
    Unexpected { expected: Seq<Seq<char>>, received: Box<MessageV> },
}

impl Message {
    /// The mathematical value of this message.
    pub open spec fn value(self) -> MessageV
        decreases self,
    {
        match self {
            Message::Join(b) => MessageV::Join {
                difficulty: b.difficulty,
                player_id: b.player_id,
            },
            Message::OkMaze(b) => MessageV::OkMaze { maze: b.maze@, player_id: b.player_id },
            Message::Info(b) => MessageV::Info {
                player_column: b.player_column,
                player_line: b.player_line,
                player_has_food: b.player_has_food,
                pheromon: b.pheromon@,
            },
            Message::Error(e) => MessageV::Error(e@),
            Message::Move(b) => MessageV::Move(b.direction),
            Message::Unexpected { expected, received } => MessageV::Unexpected {
                expected: Seq::new(expected@.len(), |i: int| expected@[i]@),
                received: Box::new((*received).value()),
            },
        }
    }
}

impl View for Message {
    type V = MessageV;

    open spec fn view(&self) -> MessageV {
        self.value()
    }
}

/// An owned copy of a string, equal to the original.
pub fn copy_string(s: &String) -> (r: String)
    ensures
        r == *s,
{
    s.clone()
}

/// An owned copy of a vector of levels, equal to the original.
pub fn copy_levels(v: &Vec<u32>) -> (r: Vec<u32>)
    ensures
        r@ == v@,
{
    let mut out: Vec<u32> = Vec::new();
    let len = v.len();
    let mut k: usize = 0;
    while k < len
        invariant
            0 <= k <= len,
            len == v@.len(),
            out@ == v@.subrange(0, k as int),
        decreases len - k,
    {
        out.push(v[k]);
        k = k + 1;
    }
    proof {
        assert(out@ =~= v@);
    }
    out
}

impl ServerError {
    /// An owned copy with the same mathematical value.
    pub fn duplicate(&self) -> (r: ServerError)
        ensures
            r@ == self@,
    {
        match self {
            ServerError::InvalidMaze(m) => ServerError::InvalidMaze(copy_string(m)),
            ServerError::Transmission(m) => ServerError::Transmission(copy_string(m)),
            ServerError::SerializerError(m) => ServerError::SerializerError(copy_string(m)),
            ServerError::AlreadyConnected => ServerError::AlreadyConnected,
            ServerError::UnexpectedParameter => ServerError::UnexpectedParameter,
            ServerError::Other(m) => ServerError::Other(copy_string(m)),
        }
    }
}

impl Message {
    /// An owned deep copy with the same mathematical value.
    pub fn duplicate(&self) -> (r: Message)
        ensures
            r@ == self@,
        decreases *self,
    {
        let r = match self {
            Message::Join(b) => Message::Join(
                JoinMessageBody { difficulty: b.difficulty, player_id: b.player_id },
            ),
            Message::OkMaze(b) => Message::OkMaze(
                OkMazeMessageBody { maze: b.maze.duplicate(), player_id: b.player_id },
            ),
            Message::Info(b) => Message::Info(
                InfoMessageBody {
                    player_column: b.player_column,
                    player_line: b.player_line,
                    player_has_food: b.player_has_food,
                    pheromon: copy_levels(&b.pheromon),
                },
            ),
            Message::Error(e) => Message::Error(e.duplicate()),
            Message::Move(b) => Message::Move(MoveMessageBody { direction: b.direction }),
            Message::Unexpected { expected, received } => {
                let mut exp: Vec<String> = Vec::new();
                let len = expected.len();
                let mut k: usize = 0;
                while k < len
                    invariant
                        0 <= k <= len,
                        len == expected@.len(),
                        exp@ =~= expected@.subrange(0, k as int),
                    decreases len - k,
                {
                    exp.push(copy_string(&expected[k]));
                    k = k + 1;
                }
                proof {
                    assert(exp@ =~= expected@);
                }
                Message::Unexpected { expected: exp, received: Box::new(received.duplicate()) }
            },
        };
        proof {
            assert(r@ =~~= self@);
        }
        r
    }
}

} // verus!
