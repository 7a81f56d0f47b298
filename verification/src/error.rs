//! The error taxonomy shared by every component of the server.
use vstd::prelude::*;

verus! {

/// Any failure that the server can report or propagate.
#[derive(Debug, Clone)]
pub enum ServerError {
    /// Maze generation preconditions or on-wire maze validation failed.
    InvalidMaze(String),
    /// I/O or framing failure; fatal for the affected connection.
    Transmission(String),
    /// Encode or decode of a message body failed; fatal for the message.
    SerializerError(String),
    /// A second player registration for an identity that is currently connected.
    AlreadyConnected,
    /// A message that is semantically invalid for the current state.
    UnexpectedParameter,
    /// Anything else, carrying a description.
    Other(String),
}

impl ServerError {
    /// Create a [`ServerError::Transmission`] value.
    pub fn transmission(msg: String) -> (r: ServerError)
        ensures
            r == ServerError::Transmission(msg),
    {
        ServerError::Transmission(msg)
    }

    /// Create a [`ServerError::Transmission`] error [`Result`].
    pub fn transmission_error<R>(msg: String) -> (r: Result<R, ServerError>)
        ensures
            r == Result::<R, ServerError>::Err(ServerError::Transmission(msg)),
    {
        Err(ServerError::Transmission(msg))
    }

    /// Create a [`ServerError::InvalidMaze`] value.
    pub fn invalid_maze(msg: String) -> (r: ServerError)
        ensures
            r == ServerError::InvalidMaze(msg),
    {
        ServerError::InvalidMaze(msg)
    }

    /// Create a [`ServerError::InvalidMaze`] error [`Result`].
    pub fn invalid_maze_error<R>(msg: String) -> (r: Result<R, ServerError>)
        ensures
            r == Result::<R, ServerError>::Err(ServerError::InvalidMaze(msg)),
    {
        Err(ServerError::InvalidMaze(msg))
    }

    /// Create a [`ServerError::Other`] value from a foreign error description.
    pub fn other(msg: String) -> (r: ServerError)
        ensures
            r == ServerError::Other(msg),
    {
        ServerError::Other(msg)
    }

    /// Create a [`ServerError::Other`] error [`Result`] from a foreign error description.
    pub fn other_error<R>(msg: String) -> (r: Result<R, ServerError>)
        ensures
            r == Result::<R, ServerError>::Err(ServerError::Other(msg)),
    {
        Err(ServerError::Other(msg))
    }
}

} // verus!
