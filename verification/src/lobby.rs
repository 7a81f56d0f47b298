//! The lobby: matchmaking, reconnection and housekeeping decisions.
//!
//! The lobby core owns the list of session keys and the player-to-session
//! map. Whether a session is still alive is a fact the surrounding runtime
//! learns from its weak handles; it passes those answers in, and every
//! bookkeeping decision taken on them is verified here.
use vstd::prelude::*;

use crate::config::LobbyConfig;
use crate::error::ServerError;
use crate::maze::Maze;
use crate::messages::JoinMessageBody;
use crate::messages::PlayerId;

verus! {

use std::collections::HashMap;

/// A key naming one running session.
pub type SessionKey = u64;

/// What the lobby decided for a join request.
pub enum MatchDecision {
    /// Reattach the player to the session it belongs to.
    Reconnect(PlayerId, SessionKey),
    /// The identity is unknown or its session is gone.
    Expired,
    /// Put a fresh player into the first live session.
    JoinExisting(PlayerId, SessionKey),
    /// No live session: generate a maze and start a new session for this
    /// fresh player.
    CreateNew(PlayerId),
}

/// The entries of `s` kept by the mask `m`.
pub open spec fn filter_mask(s: Seq<SessionKey>, m: Seq<bool>) -> Seq<SessionKey>
    decreases s.len(),
{
    if s.len() == 0 || m.len() == 0 {
        Seq::empty()
    } else if m[0] {
        seq![s[0]] + filter_mask(s.drop_first(), m.drop_first())
    } else {
        filter_mask(s.drop_first(), m.drop_first())
    }
}

/// The lobby bookkeeping state.
pub struct Lobby {
    /// Keys of the sessions started so far and not yet pruned.
    pub games: Vec<SessionKey>,
    /// The session each known player belongs to.
    pub players: HashMap<PlayerId, SessionKey>,
    /// Known player identities, mirroring the map's keys.
    pub ids: Vec<PlayerId>,
    pub config: LobbyConfig,
    /// The random source for maze generation and nest placement.
    pub rng: fastrand::Rng,
}

impl Lobby {
    /// The lobby invariant: the identity list mirrors the player map keys.
    pub open spec fn wf(self) -> bool {
        &&& forall|i: int, j: int|
            0 <= i < j < self.ids@.len() ==> #[trigger] self.ids@[i] != #[trigger] self.ids@[j]
        &&& forall|i: int|
            0 <= i < self.ids@.len() ==> self.players@.dom().contains(#[trigger] self.ids@[i])
        &&& forall|id: PlayerId|
            self.players@.dom().contains(id) ==> #[trigger] self.ids@.contains(id)
    }

    /// Create a new empty lobby.
    pub fn new(config: LobbyConfig) -> (r: Lobby)
        ensures
            r.wf(),
            r.games@.len() == 0,
            r.players@ =~= Map::<PlayerId, SessionKey>::empty(),
            r.config == config,
    {
        Lobby {
            games: Vec::new(),
            players: HashMap::new(),
            ids: Vec::new(),
            config,
            rng: crate::rng::rng_new(),
        }
    }

    /// The session the player belongs to, if any.
    pub fn get_player_game(&self, id: PlayerId) -> (r: Option<SessionKey>)
        ensures
            r is Some <==> self.players@.dom().contains(id),
            r matches Some(k) ==> k == self.players@[id],
    {
        match self.players.get(&id) {
            Some(k) => Some(*k),
            None => None,
        }
    }

    /// Resolve a join request, given which games are currently live and,
    /// for a reconnecting player, whether its own session is live.
    ///
    /// A request with an identity reconnects exactly when the identity is
    /// known and its session is live, and is expired otherwise. A request
    /// without one joins the first live session under the fresh identity,
    /// or asks for a new session when no game is live.
    pub fn find_suitable_game(
        &self,
        body: &JoinMessageBody,
        games_alive: &Vec<bool>,
        reconnect_alive: bool,
        fresh_id: PlayerId,
    ) -> (r: MatchDecision)
        requires
            games_alive@.len() == self.games@.len(),
        ensures
            match body.player_id {
                Some(u) => r == if self.players@.dom().contains(u) && reconnect_alive {
                    MatchDecision::Reconnect(u, self.players@[u])
                } else {
                    MatchDecision::Expired
                },
                None => {
                    if exists|k: int| 0 <= k < games_alive@.len() && games_alive@[k] {
                        let first = choose|k: int|
                            0 <= k < games_alive@.len() && #[trigger] games_alive@[k] && forall|
                                j: int,
                            | 0 <= j < k ==> !games_alive@[j];
                        r == MatchDecision::JoinExisting(fresh_id, self.games@[first])
                    } else {
                        r == MatchDecision::CreateNew(fresh_id)
                    }
                },
            },
    {
        match body.player_id {
            Some(u) => {
                let known = self.players.contains_key(&u);
                if known && reconnect_alive {
                    let key = *self.players.get(&u).unwrap();
                    MatchDecision::Reconnect(u, key)
                } else {
                    MatchDecision::Expired
                }
            },
            None => {
                let len = self.games.len();
                let mut k: usize = 0;
                while k < len
                    invariant
                        0 <= k <= len,
                        len == self.games@.len(),
                        games_alive@.len() == self.games@.len(),
                        body.player_id is None,
                        forall|j: int| 0 <= j < k ==> !(#[trigger] games_alive@[j]),
                    decreases len - k,
                {
                    if games_alive[k] {
                        proof {
                            assert(games_alive@[k as int] && (forall|j: int|
                                0 <= j < k ==> !games_alive@[j]));
                            let c = choose|c: int|
                                0 <= c < games_alive@.len() && #[trigger] games_alive@[c] && forall|
                                    j: int,
                                | 0 <= j < c ==> !games_alive@[j];
                            if c < k {
                                assert(!games_alive@[c]);
                            }
                            if c > k {
                                assert(!games_alive@[k as int]);
                            }
                            assert(c == k);
                        }
                        return MatchDecision::JoinExisting(fresh_id, self.games[k]);
                    }
                    k = k + 1;
                }
                MatchDecision::CreateNew(fresh_id)
            },
        }
    }

    /// Generate the maze for a new session from this lobby's configuration
    /// and the difficulty the client asked.
    pub fn create_new_game_maze(&self, critera: &JoinMessageBody) -> (r: Result<Maze, ServerError>)
        ensures
            r matches Ok(m) ==> {
                &&& m.wf()
                &&& m.population_wf()
                &&& crate::maze::mutual_walls(m)
                &&& crate::maze::hull_wf(m)
            },
    {
        crate::generator::generate_maze(&self.config.generator, critera, &self.rng)
    }

    /// Remember a newly started session.
    pub fn register_new_game(&mut self, key: SessionKey)
        requires
            old(self).wf(),
        ensures
            final(self).wf(),
            final(self).games@ == old(self).games@.push(key),
            final(self).players@ == old(self).players@,
    {
        self.games.push(key);
    }

    /// Remember, or update, the session a player belongs to.
    pub fn register_player(&mut self, id: PlayerId, key: SessionKey)
        requires
            old(self).wf(),
        ensures
            final(self).wf(),
            final(self).games@ == old(self).games@,
            final(self).players@ == old(self).players@.insert(id, key),
    {
        let known = self.players.contains_key(&id);
        self.players.insert(id, key);
        if !known {
            self.ids.push(id);
        }
        proof {
            assert forall|x: PlayerId| self.players@.dom().contains(x) implies
            #[trigger] self.ids@.contains(x) by {
                if x == id {
                    if known {
                        assert(old(self).ids@.contains(x));
                        let i = choose|i: int|
                            0 <= i < old(self).ids@.len() && old(self).ids@[i] == x;
                        assert(self.ids@[i] == x);
                    } else {
                        assert(self.ids@[self.ids@.len() - 1] == x);
                    }
                } else {
                    assert(old(self).ids@.contains(x));
                    let i = choose|i: int| 0 <= i < old(self).ids@.len() && old(self).ids@[i] == x;
                    assert(self.ids@[i] == x);
                }
            }
        }
    }

    /// A copy of the known player identities, for a housekeeping sweep.
    pub fn player_ids(&self) -> (r: Vec<PlayerId>)
        ensures
            r@ == self.ids@,
    {
        let mut out: Vec<PlayerId> = Vec::new();
        let len = self.ids.len();
        let mut k: usize = 0;
        while k < len
            invariant
                0 <= k <= len,
                len == self.ids@.len(),
                out@ == self.ids@.subrange(0, k as int),
            decreases len - k,
        {
            out.push(self.ids[k]);
            k = k + 1;
        }
        proof {
            assert(out@ =~= self.ids@);
        }
        out
    }

    /// Forget a player whose session is gone.
    pub fn remove_player(&mut self, id: PlayerId)
        requires
            old(self).wf(),
        ensures
            final(self).wf(),
            final(self).games@ == old(self).games@,
            final(self).players@ == old(self).players@.remove(id),
    {
        self.players.remove(&id);
        let len = self.ids.len();
        let mut k: usize = 0;
        while k < len
            invariant
                0 <= k <= len,
                len == self.ids@.len(),
                forall|j: int| 0 <= j < k ==> #[trigger] self.ids@[j] != id,
                self.ids@ == old(self).ids@,
                self.games@ == old(self).games@,
                self.players@ == old(self).players@.remove(id),
                old(self).wf(),
            decreases len - k,
        {
            if self.ids[k] == id {
                self.ids.remove(k);
                proof {
                    assert forall|x: PlayerId| self.players@.dom().contains(x) implies
                    #[trigger] self.ids@.contains(x) by {
                        assert(old(self).ids@.contains(x));
                        let i = choose|i: int|
                            0 <= i < old(self).ids@.len() && old(self).ids@[i] == x;
                        if i < k {
                            assert(self.ids@[i] == x);
                        } else {
                            assert(old(self).ids@[i] != id);
                            assert(self.ids@[i - 1] == x);
                        }
                    }
                }
                return ;
            }
            k = k + 1;
        }
        proof {
            assert forall|x: PlayerId| self.players@.dom().contains(x) implies
            #[trigger] self.ids@.contains(x) by {
                assert(old(self).ids@.contains(x));
            }
        }
    }

    /// Keep only the games whose entry in `alive` is set: the periodic
    /// housekeeping prune of dead session references.
    pub fn prune_games(&mut self, alive: &Vec<bool>)
        requires
            old(self).wf(),
            alive@.len() == old(self).games@.len(),
        ensures
            final(self).wf(),
            final(self).games@ == filter_mask(old(self).games@, alive@),
            final(self).players@ == old(self).players@,
    {
        let len = self.games.len();
        let mut kept: Vec<SessionKey> = Vec::new();
        let mut k: usize = 0;
        while k < len
            invariant
                0 <= k <= len,
                len == self.games@.len(),
                alive@.len() == len,
                self.games@ == old(self).games@,
                self.players@ == old(self).players@,
                self.ids@ == old(self).ids@,
                kept@ == filter_mask(self.games@.take(k as int), alive@.take(k as int)),
            decreases len - k,
        {
            proof {
                lemma_filter_mask_snoc(
                    self.games@.take(k as int),
                    alive@.take(k as int),
                    self.games@[k as int],
                    alive@[k as int],
                );
                assert(self.games@.take(k as int).push(self.games@[k as int]) =~= self.games@.take(
                    k as int + 1,
                ));
                assert(alive@.take(k as int).push(alive@[k as int]) =~= alive@.take(k as int + 1));
            }
            if alive[k] {
                kept.push(self.games[k]);
            }
            k = k + 1;
        }
        proof {
            assert(self.games@.take(len as int) =~= self.games@);
            assert(alive@.take(len as int) =~= alive@);
        }
        self.games = kept;
    }
}

/// Keeping one more masked entry extends the filtered sequence by that
/// entry exactly when its mask bit is set.
proof fn lemma_filter_mask_snoc(s: Seq<SessionKey>, m: Seq<bool>, x: SessionKey, b: bool)
    requires
        s.len() == m.len(),
    ensures
        filter_mask(s.push(x), m.push(b)) == if b {
            filter_mask(s, m) + seq![x]
        } else {
            filter_mask(s, m)
        },
    decreases s.len(),
{
    let s2 = s.push(x);
    let m2 = m.push(b);
    if s.len() == 0 {
        assert(s2[0] == x && m2[0] == b);
        assert(s2.drop_first() =~= Seq::<SessionKey>::empty());
        assert(m2.drop_first() =~= Seq::<bool>::empty());
        assert(filter_mask(Seq::<SessionKey>::empty(), Seq::<bool>::empty())
            == Seq::<SessionKey>::empty());
        if b {
            assert(filter_mask(s2, m2) =~= filter_mask(s, m) + seq![x]);
        } else {
            assert(filter_mask(s2, m2) =~= filter_mask(s, m));
        }
    } else {
        assert(s2[0] == s[0] && m2[0] == m[0]);
        assert(s2.drop_first() =~= s.drop_first().push(x));
        assert(m2.drop_first() =~= m.drop_first().push(b));
        lemma_filter_mask_snoc(s.drop_first(), m.drop_first(), x, b);
        if b {
            assert(filter_mask(s2, m2) =~= filter_mask(s, m) + seq![x]);
        }
    }
}

} // verus!
