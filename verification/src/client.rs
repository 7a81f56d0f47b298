//! The client-side view of a game and its connection state machine.
use vstd::prelude::*;

use crate::error::ServerError;
use crate::maze::Maze;
use crate::messages::Message;
use crate::messages::PlayerId;

verus! {

/// State of a game as seen by a client.
#[derive(Debug)]
pub struct ClientGameView {
    pub maze: Option<Maze>,
    pub player_position: (u32, u32),
    pub pheromon: Vec<u32>,
    pub player_has_food: bool,
}

/// State of the client connection.
#[derive(Debug, Clone, Copy, PartialEq, Eq, Structural)]
pub enum ClientState {
    Uninitialized,
    JoinPending,
    Joined,
    Dead,
}

/// The protocol state of a client connection to a server: which messages
/// are legal next and how the view evolves on each server message. Reading
/// and writing the socket stay with the caller.
#[derive(Debug)]
pub struct ClientInstance {
    pub view: ClientGameView,
    pub state: ClientState,
    pub player_uuid: Option<PlayerId>,
}

impl ClientInstance {
    /// A fresh, not yet joined client.
    pub fn new() -> (r: ClientInstance)
        ensures
            r.state == ClientState::Uninitialized,
            r.player_uuid is None,
            r.view.maze is None,
    {
        ClientInstance {
            view: ClientGameView {
                maze: None,
                player_position: (0, 0),
                pheromon: Vec::new(),
                player_has_food: false,
            },
            state: ClientState::Uninitialized,
            player_uuid: None,
        }
    }

    /// Record that the join request went out: only legal on a fresh client.
    pub fn join_sent(&mut self) -> (r: Result<(), ServerError>)
        ensures
            old(self).state == ClientState::Uninitialized ==> r is Ok && final(self).state
                == ClientState::JoinPending,
            old(self).state != ClientState::Uninitialized ==> (r matches Err(e)
                && e is Transmission) && final(self).state == old(self).state,
            final(self).player_uuid == old(self).player_uuid,
    {
        if let ClientState::Uninitialized = self.state {
            self.state = ClientState::JoinPending;
            Ok(())
        } else {
            ServerError::transmission_error(
                String::from_str("Invalid state for join operation."),
            )
        }
    }

    /// Record that the transport failed: the client is dead.
    pub fn mark_dead(&mut self)
        ensures
            final(self).state == ClientState::Dead,
            final(self).player_uuid == old(self).player_uuid,
    {
        self.state = ClientState::Dead;
    }

    /// Apply one message received from the server.
    ///
    /// While joining, only `okMaze` is accepted: it stores the maze and the
    /// assigned identity. Once joined, `info` updates the view and anything
    /// else kills the connection. Reading on a fresh or dead client fails
    /// and changes nothing.
    pub fn apply_server_message(&mut self, message: Message) -> (r: Result<(), ServerError>)
        ensures
            final(self).state == match old(self).state {
                ClientState::Uninitialized => ClientState::Uninitialized,
                ClientState::Dead => ClientState::Dead,
                ClientState::JoinPending => if message is OkMaze {
                    ClientState::Joined
                } else {
                    ClientState::Dead
                },
                ClientState::Joined => if message is Info {
                    ClientState::Joined
                } else {
                    ClientState::Dead
                },
            },
            r is Ok <==> match old(self).state {
                ClientState::JoinPending => message is OkMaze,
                ClientState::Joined => message is Info,
                _ => false,
            },
            match message {
                Message::OkMaze(b) => old(self).state == ClientState::JoinPending ==> {
                    &&& final(self).player_uuid == Some(b.player_id)
                    &&& final(self).view.maze matches Some(m) && m@ == b.maze@
                },
                Message::Info(b) => old(self).state == ClientState::Joined ==> {
                    &&& final(self).view.player_position == (b.player_column, b.player_line)
                    &&& final(self).view.pheromon@ == b.pheromon@
                    &&& final(self).view.player_has_food == b.player_has_food
                    &&& final(self).player_uuid == old(self).player_uuid
                },
                _ => true,
            },
    {
        match self.state {
            ClientState::Dead => ServerError::transmission_error(
                String::from_str("Attempting to read messages from a dead instance."),
            ),
            ClientState::Uninitialized => ServerError::transmission_error(
                String::from_str("Channel is not initialized, join first."),
            ),
            ClientState::JoinPending => {
                if let Message::OkMaze(ok_maze) = message {
                    self.view.maze = Some(ok_maze.maze);
                    self.player_uuid = Some(ok_maze.player_id);
                    self.state = ClientState::Joined;
                    Ok(())
                } else {
                    self.state = ClientState::Dead;
                    ServerError::transmission_error(
                        String::from_str("Unexpected message received when joining."),
                    )
                }
            },
            ClientState::Joined => {
                if let Message::Info(info) = message {
                    self.view.player_position = (info.player_column, info.player_line);
                    self.view.pheromon = info.pheromon;
                    self.view.player_has_food = info.player_has_food;
                    Ok(())
                } else {
                    self.state = ClientState::Dead;
                    ServerError::transmission_error(
                        String::from_str("Unexpected message received during info fetching."),
                    )
                }
            },
        }
    }
}

} // verus!
