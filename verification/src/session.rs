//! The per-session engine: player registration, message processing and the
//! periodic broadcast and evaporation ticks.
//!
//! The engine here is the decision core of a session: it owns the game
//! state and says, for each inbound event, how the state changes and what
//! must be sent where. The surrounding tasks, timers and channels live
//! outside the library; they feed events in and perform the returned sends.
use vstd::prelude::*;

use crate::error::ServerError;
use crate::messages::InfoMessageBody;
use crate::messages::Message;
use crate::messages::MessageV;
use crate::messages::PlayerId;
use crate::record::GameRecord;
use crate::record::GameRecordState;
use crate::state::GameState;
use crate::state::PlayerInfo;
use crate::state::state_moved;

verus! {

use std::collections::HashMap;

/// What a broadcast tick decided.
pub enum TickOutcome {
    /// Every registered player is detached: the session must stop, and
    /// surface its recording if it kept one.
    Stop(Option<GameRecord>),
    /// Send each message to the connected player it is addressed to.
    Broadcast(Vec<(PlayerId, Message)>),
}

/// The mathematical value of the `info` message for player `p` of `s`.
pub open spec fn info_value(s: GameState, p: PlayerInfo) -> MessageV {
    MessageV::Info {
        player_column: p.position.0,
        player_line: p.position.1,
        player_has_food: p.has_food,
        pheromon: s.pheromon@,
    }
}

/// A game session: the game state, one connection flag per known player,
/// and an optional recording.
pub struct GameSession {
    pub state: GameState,
    /// Presence of an outbound channel, per known player identity.
    pub channels: HashMap<PlayerId, bool>,
    /// Known player identities in registration order.
    pub ids: Vec<PlayerId>,
    pub record_state: Option<GameRecordState>,
}

impl GameSession {
    /// The session invariant: a well-formed game state, and the same key
    /// set on the player map and on the channel map, mirrored by `ids`.
    pub open spec fn wf(self) -> bool {
        &&& self.state.wf()
        &&& self.state.players@.dom() == self.channels@.dom()
        &&& forall|i: int, j: int|
            0 <= i < j < self.ids@.len() ==> #[trigger] self.ids@[i] != #[trigger] self.ids@[j]
        &&& forall|i: int|
            0 <= i < self.ids@.len() ==> self.channels@.dom().contains(#[trigger] self.ids@[i])
        &&& forall|id: PlayerId|
            self.channels@.dom().contains(id) ==> #[trigger] self.ids@.contains(id)
    }

    /// At every event boundary the set of known players and the set of
    /// player channel slots agree.
    pub proof fn lemma_players_channels_agree(self)
        requires
            self.wf(),
        ensures
            self.state.players@.dom() == self.channels@.dom(),
    {
    }

    /// Creates a new session over `state`, recording it when `recorded`.
    pub fn new(state: GameState, recorded: bool) -> (r: GameSession)
        requires
            state.wf(),
            state.players@.dom() == Set::<PlayerId>::empty(),
        ensures
            r.wf(),
            r.state == state,
            r.channels@.dom() == Set::<PlayerId>::empty(),
            recorded <==> r.record_state is Some,
            r.record_state matches Some(rec) ==> rec.messages@.len() == 0 && rec.maze@ == state.maze@,
    {
        let record_state = if recorded {
            Some(GameRecordState::new(state.maze.duplicate()))
        } else {
            None
        };
        let r = GameSession { state, channels: HashMap::new(), ids: Vec::new(), record_state };
        proof {
            assert(r.channels@.dom() =~= Set::<PlayerId>::empty());
            assert(r.state.players@.dom() =~= r.channels@.dom());
        }
        r
    }

    /// Whether `id` is a registered player of this session.
    pub fn has_player(&self, id: PlayerId) -> (r: bool)
        ensures
            r == self.channels@.dom().contains(id),
    {
        self.channels.contains_key(&id)
    }

    /// Register or reattach the player `id`.
    ///
    /// An unknown identity is created at the nest and marked connected; a
    /// known identity whose channel slot is empty is reattached; a known,
    /// currently connected identity fails with `AlreadyConnected` and
    /// leaves the session untouched.
    pub fn init_player(&mut self, id: PlayerId) -> (r: Result<(), ServerError>)
        requires
            old(self).wf(),
        ensures
            final(self).wf(),
            final(self).state.maze == old(self).state.maze,
            final(self).state.pheromon == old(self).state.pheromon,
            final(self).record_state == old(self).record_state,
            old(self).channels@.dom().contains(id) ==> final(self).ids@ == old(self).ids@,
            !old(self).channels@.dom().contains(id) ==> final(self).ids@ == old(self).ids@.push(
                id,
            ),
            !old(self).channels@.dom().contains(id) ==> {
                &&& r is Ok
                &&& final(self).channels@ == old(self).channels@.insert(id, true)
                &&& final(self).state.players@ =~= old(self).state.players@.insert(
                    id,
                    PlayerInfo {
                        position: (old(self).state.maze.nest_column, old(self).state.maze.nest_line),
                        has_food: false,
                    },
                )
            },
            old(self).channels@.dom().contains(id) && !old(self).channels@[id] ==> {
                &&& r is Ok
                &&& final(self).channels@ == old(self).channels@.insert(id, true)
                &&& final(self).state.players@ == old(self).state.players@
            },
            old(self).channels@.dom().contains(id) && old(self).channels@[id] ==> {
                &&& r matches Err(e) && e == ServerError::AlreadyConnected
                &&& final(self).channels@ == old(self).channels@
                &&& final(self).state.players@ == old(self).state.players@
            },
    {
        match self.channels.get(&id) {
            Some(connected) => {
                if *connected {
                    Err(ServerError::AlreadyConnected)
                } else {
                    self.channels.insert(id, true);
                    proof {
                        assert(self.state.players@.dom() =~= self.channels@.dom());
                    }
                    Ok(())
                }
            },
            None => {
                let info = PlayerInfo::new(&self.state.maze);
                self.channels.insert(id, true);
                self.state.players.insert(id, info);
                self.ids.push(id);
                proof {
                    assert(self.state.players@.dom() =~= self.channels@.dom());
                    assert forall|x: PlayerId| self.channels@.dom().contains(x) implies
                    #[trigger] self.ids@.contains(x) by {
                        if x == id {
                            assert(self.ids@[self.ids@.len() - 1] == x);
                        } else {
                            assert(old(self).ids@.contains(x));
                            let i = choose|i: int|
                                0 <= i < old(self).ids@.len() && old(self).ids@[i] == x;
                            assert(self.ids@[i] == x);
                        }
                    }
                }
                Ok(())
            },
        }
    }

    /// Demote the channel slot of `id` to absent, after a failed send.
    /// The player stays known and may reconnect.
    pub fn mark_disconnected(&mut self, id: PlayerId)
        requires
            old(self).wf(),
        ensures
            final(self).wf(),
            final(self).state == old(self).state,
            old(self).channels@.dom().contains(id) ==> final(self).channels@ == old(
                self,
            ).channels@.insert(id, false),
            !old(self).channels@.dom().contains(id) ==> final(self).channels@ == old(
                self,
            ).channels@,
    {
        if self.channels.contains_key(&id) {
            self.channels.insert(id, false);
            proof {
                assert(self.state.players@.dom() =~= self.channels@.dom());
            }
        }
    }

    /// Process one message from the registered player `id`, at wall-clock
    /// time `now_ms`, and return the reply to send to that player.
    ///
    /// A `move` message moves the player and replies with the resulting
    /// `info` snapshot; any other message leaves the game state unchanged
    /// and replies `unexpected`. When recording, the message is tracked
    /// first.
    pub fn process_player_message(&mut self, id: PlayerId, message: &Message, now_ms: u64) -> (r:
        Message)
        requires
            old(self).wf(),
            old(self).channels@.dom().contains(id),
        ensures
            final(self).wf(),
            final(self).state.maze == old(self).state.maze,
            final(self).channels@ == old(self).channels@,
            final(self).ids@ == old(self).ids@,
            match message {
                Message::Move(m) => {
                    &&& final(self).state.players@ == old(self).state.players@.insert(
                        id,
                        state_moved(old(self).state, id, m.direction),
                    )
                    &&& r@ == info_value(
                        final(self).state,
                        state_moved(old(self).state, id, m.direction),
                    )
                    &&& final(self).state.pheromon@ == (if crate::state::move_allowed(
                        old(self).state.maze,
                        old(self).state.players@[id].position,
                        m.direction,
                    ) {
                        old(self).state.pheromon_after_move(
                            old(self).state.players@[id],
                            m.direction,
                        )
                    } else {
                        old(self).state.pheromon@
                    })
                },
                _ => {
                    &&& final(self).state.players@ == old(self).state.players@
                    &&& final(self).state.pheromon@ == old(self).state.pheromon@
                    &&& r@ == (MessageV::Unexpected {
                        expected: seq!["move"@],
                        received: Box::new(message@),
                    })
                },
            },
            old(self).record_state is Some <==> final(self).record_state is Some,
            final(self).record_state matches Some(rec) ==> {
                &&& old(self).record_state matches Some(rec0)
                &&& rec.messages@.len() == rec0.messages@.len() + 1
                &&& rec.messages@.subrange(0, rec0.messages@.len() as int) == rec0.messages@
                &&& rec.messages@.last().player == id
                &&& rec.messages@.last().message@ == message@
                &&& rec.messages@.last().delay_ms == match rec0.last_message_ms {
                    Some(t) => if now_ms >= t {
                        (now_ms - t) as u64
                    } else {
                        0u64
                    },
                    None => 0u64,
                }
                &&& rec.last_message_ms == Some(now_ms)
            },
            old(self).record_state is None ==> final(self).record_state == old(self).record_state,
    {
        if let Some(rec) = &mut self.record_state {
            rec.track(id, message, now_ms);
        }
        match message {
            Message::Move(_) => {
                let info = match self.state.process_message(id, message) {
                    Ok(i) => i,
                    Err(_) => {
                        proof {
                            assert(false);
                        }
                        PlayerInfo { position: (0, 0), has_food: false }
                    },
                };
                let pheromon = self.state.snapshot_pheromon();
                proof {
                    assert(self.state.players@.dom() =~= self.channels@.dom());
                }
                Message::Info(
                    InfoMessageBody {
                        player_column: info.position.0,
                        player_line: info.position.1,
                        player_has_food: info.has_food,
                        pheromon,
                    },
                )
            },
            _ => {
                let mut expected: Vec<String> = Vec::new();
                expected.push(String::from_str("move"));
                let r = Message::Unexpected {
                    expected,
                    received: Box::new(message.duplicate()),
                };
                proof {
                    assert(r@ matches MessageV::Unexpected { expected: e, received: rc } && e
                        =~= seq!["move"@] && rc == Box::new(message@));
                }
                r
            },
        }
    }

    /// Decide one broadcast tick: stop when every channel slot is absent,
    /// otherwise produce the `info` message to send to each connected
    /// player.
    pub fn tick_players(&mut self) -> (r: TickOutcome)
        requires
            old(self).wf(),
        ensures
            final(self).wf(),
            final(self).state == old(self).state,
            final(self).channels@ == old(self).channels@,
            final(self).ids@ == old(self).ids@,
            (r is Stop <==> forall|id: PlayerId|
                old(self).channels@.dom().contains(id) ==> !(#[trigger] old(self).channels@[id])),
            r matches TickOutcome::Stop(rec) ==> {
                &&& final(self).record_state is None
                &&& (rec is Some <==> old(self).record_state is Some)
                &&& match (rec, old(self).record_state) {
                    (Some(g), Some(rs)) => g.messages@ == rs.messages@ && g.players@ == rs.players@
                        && g.maze == rs.maze,
                    _ => true,
                }
            },
            r is Broadcast ==> final(self).record_state == old(self).record_state,
            r matches TickOutcome::Broadcast(v) ==> {
                &&& forall|k: int|
                    0 <= k < v@.len() ==> old(self).channels@.dom().contains(
                        (#[trigger] v@[k]).0,
                    ) && old(self).channels@[v@[k].0]
                &&& forall|k: int|
                    0 <= k < v@.len() ==> (#[trigger] v@[k]).1@ == info_value(
                        old(self).state,
                        old(self).state.players@[v@[k].0],
                    )
                &&& forall|id: PlayerId|
                    old(self).channels@.dom().contains(id) && old(self).channels@[id]
                        ==> exists|k: int| 0 <= k < v@.len() && (#[trigger] v@[k]).0 == id
            },
    {
        let mut sends: Vec<(PlayerId, Message)> = Vec::new();
        let mut any_present = false;
        let len = self.ids.len();
        let mut k: usize = 0;
        while k < len
            invariant
                0 <= k <= len,
                self == old(self),
                self.wf(),
                len == self.ids@.len(),
                any_present <==> exists|j: int|
                    0 <= j < k && self.channels@[#[trigger] self.ids@[j]],
                forall|t: int|
                    0 <= t < sends@.len() ==> self.channels@.dom().contains((#[trigger] sends@[t]).0)
                        && self.channels@[sends@[t].0],
                forall|t: int|
                    0 <= t < sends@.len() ==> (#[trigger] sends@[t]).1@ == info_value(
                        self.state,
                        self.state.players@[sends@[t].0],
                    ),
                forall|j: int|
                    0 <= j < k && self.channels@[#[trigger] self.ids@[j]] ==> exists|t: int|
                        0 <= t < sends@.len() && (#[trigger] sends@[t]).0 == self.ids@[j],
            decreases len - k,
        {
            let id = self.ids[k];
            let connected = match self.channels.get(&id) {
                Some(c) => *c,
                None => false,
            };
            if connected {
                any_present = true;
                let info = *self.state.players.get(&id).unwrap();
                let pheromon = self.state.snapshot_pheromon();
                let msg = Message::Info(
                    InfoMessageBody {
                        player_column: info.position.0,
                        player_line: info.position.1,
                        player_has_food: info.has_food,
                        pheromon,
                    },
                );
                let ghost sends0 = sends@;
                sends.push((id, msg));
                proof {
                    assert(sends@[sends@.len() - 1].0 == id);
                    assert forall|j: int|
                        0 <= j < k + 1 && self.channels@[#[trigger] self.ids@[j]] implies exists|
                        t: int,
                    | 0 <= t < sends@.len() && (#[trigger] sends@[t]).0 == self.ids@[j] by {
                        if j < k {
                            assert(exists|t0: int|
                                0 <= t0 < sends0.len() && (#[trigger] sends0[t0]).0
                                    == self.ids@[j]);
                            let t0 = choose|t0: int|
                                0 <= t0 < sends0.len() && (#[trigger] sends0[t0]).0
                                    == self.ids@[j];
                            assert(sends@[t0].0 == self.ids@[j]);
                        } else {
                            assert(sends@[sends@.len() - 1].0 == self.ids@[j]);
                        }
                    }
                }
            }
            k = k + 1;
        }
        if !any_present {
            proof {
                assert forall|id: PlayerId| self.channels@.dom().contains(id) implies !(
                #[trigger] self.channels@[id]) by {
                    assert(self.ids@.contains(id));
                    let j = choose|j: int| 0 <= j < self.ids@.len() && self.ids@[j] == id;
                    assert(!self.channels@[self.ids@[j]]);
                }
            }
            let record = self.record_state.take();
            let frozen = match record {
                Some(rec) => Some(rec.freeze()),
                None => None,
            };
            return TickOutcome::Stop(frozen);
        }
        proof {
            assert forall|id: PlayerId|
                self.channels@.dom().contains(id) && self.channels@[id] implies exists|t: int|
                0 <= t < sends@.len() && (#[trigger] sends@[t]).0 == id by {
                assert(self.ids@.contains(id));
                let j = choose|j: int| 0 <= j < self.ids@.len() && self.ids@[j] == id;
                assert(self.channels@[self.ids@[j]]);
                let t = choose|t: int|
                    0 <= t < sends@.len() && (#[trigger] sends@[t]).0 == self.ids@[j];
                assert(sends@[t].0 == id);
            }
        }
        TickOutcome::Broadcast(sends)
    }

    /// Run one evaporation tick over the pheromone field.
    pub fn tick_evaporate(&mut self)
        requires
            old(self).wf(),
        ensures
            final(self).wf(),
            final(self).state.maze == old(self).state.maze,
            final(self).state.players == old(self).state.players,
            final(self).channels@ == old(self).channels@,
            final(self).ids@ == old(self).ids@,
            final(self).record_state == old(self).record_state,
            final(self).state.pheromon@.len() == old(self).state.pheromon@.len(),
            forall|i: int|
                0 <= i < old(self).state.pheromon@.len() ==> #[trigger] final(self).state.pheromon@[i] == crate::state::evap_one(old(self).state.pheromon@[i]),
    {
        self.state.update_pheromon();
    }
}

} // verus!
