//! Recording of the messages a game session processes.
use vstd::prelude::*;

use crate::maze::Maze;
use crate::messages::Message;
use crate::messages::PlayerId;

verus! {

/// A message from a recorded game: the delay since the previous recorded
/// message in milliseconds, the sender, and the message itself.
#[derive(Debug)]
pub struct MessageRecord {
    pub delay_ms: u64,
    pub player: PlayerId,
    pub message: Message,
}

/// A finalized recorded game.
#[derive(Debug)]
pub struct GameRecord {
    pub messages: Vec<MessageRecord>,
    pub maze: Maze,
    pub players: Vec<PlayerId>,
}

/// The recording state for an active game, filled in message by message.
#[derive(Debug)]
pub struct GameRecordState {
    pub maze: Maze,
    pub players: Vec<PlayerId>,
    pub messages: Vec<MessageRecord>,
    pub last_message_ms: Option<u64>,
}

impl GameRecordState {
    /// The set of players observed so far.
    pub open spec fn players_seen(self) -> Set<PlayerId> {
        self.players@.to_set()
    }

    /// Create a new empty recording for `maze`.
    pub fn new(maze: Maze) -> (r: GameRecordState)
        ensures
            r.maze == maze,
            r.players@.len() == 0,
            r.messages@.len() == 0,
            r.last_message_ms is None,
    {
        GameRecordState { maze, players: Vec::new(), messages: Vec::new(), last_message_ms: None }
    }

    /// Append one message to the recording. The stored delay is the time
    /// since the previously recorded message, or zero for the first; the
    /// player is added to the observed set when new.
    pub fn track(&mut self, player: PlayerId, message: &Message, now_ms: u64)
        ensures
            final(self).maze == old(self).maze,
            final(self).last_message_ms == Some(now_ms),
            final(self).messages@.len() == old(self).messages@.len() + 1,
            final(self).messages@.subrange(0, old(self).messages@.len() as int) == old(
                self,
            ).messages@,
            ({
                let rec = final(self).messages@.last();
                &&& rec.player == player
                &&& rec.message@ == message@
                &&& rec.delay_ms == match old(self).last_message_ms {
                    Some(t) => if now_ms >= t {
                        (now_ms - t) as u64
                    } else {
                        0u64
                    },
                    None => 0u64,
                }
            }),
            final(self).players_seen() == old(self).players_seen().insert(player),
    {
        let mut known = false;
        let mut k: usize = 0;
        let len = self.players.len();
        while k < len
            invariant
                0 <= k <= len,
                len == self.players@.len(),
                known <==> exists|j: int| 0 <= j < k && self.players@[j] == player,
            decreases len - k,
        {
            if self.players[k] == player {
                known = true;
            }
            k = k + 1;
        }
        if !known {
            self.players.push(player);
        }
        proof {
            let s0 = old(self).players@;
            let s1 = self.players@;
            assert forall|x: PlayerId| #[trigger] s1.contains(x) implies (s0.contains(x) || x
                == player) by {
                let i = choose|i: int| 0 <= i < s1.len() && s1[i] == x;
                if i < s0.len() {
                    assert(s0[i] == x);
                }
            }
            assert forall|x: PlayerId| s0.contains(x) || x == player implies #[trigger] s1.contains(
                x,
            ) by {
                if s0.contains(x) {
                    let i = choose|i: int| 0 <= i < s0.len() && s0[i] == x;
                    assert(s1[i] == x);
                } else {
                    if known {
                        let j = choose|j: int| 0 <= j < s0.len() && s0[j] == player;
                        assert(s1[j] == x);
                    } else {
                        assert(s1[s0.len() as int] == x);
                    }
                }
            }
            assert(self.players@.to_set() =~= old(self).players@.to_set().insert(player));
        }
        let delay_ms = match self.last_message_ms {
            Some(t) => {
                if now_ms >= t {
                    now_ms - t
                } else {
                    0
                }
            },
            None => 0,
        };
        self.last_message_ms = Some(now_ms);
        self.messages.push(MessageRecord { delay_ms, player, message: message.duplicate() });
    }

    /// Freeze this recording state into a finalized [`GameRecord`].
    pub fn freeze(self) -> (r: GameRecord)
        ensures
            r.maze == self.maze,
            r.players@ == self.players@,
            r.messages@ == self.messages@,
    {
        GameRecord { messages: self.messages, maze: self.maze, players: self.players }
    }
}

} // verus!
