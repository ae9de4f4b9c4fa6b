//! The decisions of the request protocol between a client and the server:
//! how a session moves between its states, what the server answers to each
//! command, and what a client makes of each answer.
use crate::error::{error_message, KvStoreError, Result};
use vstd::prelude::*;

verus! {

/// Where a server-side session stands.
#[derive(PartialEq, Eq, Structural, Debug, Clone, Copy)]
pub enum SessionState {
    /// Waiting for the handshake.
    Wait,
    /// Ready for commands.
    Connect,
    /// Finished: the session should end.
    Done,
}

/// A command sent by a client.
#[derive(Debug, Clone)]
pub enum SessionClientCommand {
    Handshake,
    Quit,
    Get(String),
    Put(String, String),
    Remove(String),
    Invalid,
}

/// An answer sent by the server.
#[derive(Debug, Clone)]
pub enum SessionServerResp {
    OK,
    ERR(String),
    Value(String),
    NotFound,
    InvalidCmd,
}

/// The state of a session after it handled `cmd` in state `state`.
pub fn next_state(state: SessionState, cmd: &SessionClientCommand) -> (r: SessionState)
    ensures
        r == match cmd {
            SessionClientCommand::Handshake => SessionState::Connect,
            SessionClientCommand::Quit => SessionState::Done,
            _ => state,
        },
{
    match cmd {
        SessionClientCommand::Handshake => SessionState::Connect,
        SessionClientCommand::Quit => SessionState::Done,
        _ => state,
    }
}

/// Whether a session in `state` should end.
pub fn should_quit(state: SessionState) -> (r: bool)
    ensures
        r == (state == SessionState::Done),
{
    state == SessionState::Done
}

/// The server's answer to a command that needs no engine call: the
/// handshake and quit are acknowledged, an invalid command is reported.
pub fn reply_to_control(cmd: &SessionClientCommand) -> (r: Option<SessionServerResp>)
    ensures
        match cmd {
            SessionClientCommand::Handshake | SessionClientCommand::Quit => r == Some(
                SessionServerResp::OK,
            ),
            SessionClientCommand::Invalid => r == Some(SessionServerResp::InvalidCmd),
            _ => r is None,
        },
{
    match cmd {
        SessionClientCommand::Handshake | SessionClientCommand::Quit => Some(SessionServerResp::OK),
        SessionClientCommand::Invalid => Some(SessionServerResp::InvalidCmd),
        _ => None,
    }
}

/// The server's answer to a set or remove, given what the engine returned.
pub fn reply_to_write(outcome: &Result<()>) -> (r: SessionServerResp)
    ensures
        match outcome {
            Ok(()) => r == SessionServerResp::OK,
            Err(e) => r matches SessionServerResp::ERR(m) && m@ == error_message(*e),
        },
{
    match outcome {
        Ok(()) => SessionServerResp::OK,
        Err(e) => SessionServerResp::ERR(e.message()),
    }
}

/// The server's answer to a get, given what the engine returned.
pub fn reply_to_get(outcome: &Result<Option<String>>) -> (r: SessionServerResp)
    ensures
        match outcome {
            Ok(Some(v)) => r matches SessionServerResp::Value(w) && w@ == v@,
            Ok(None) => r == SessionServerResp::NotFound,
            Err(e) => r matches SessionServerResp::ERR(m) && m@ == error_message(*e),
        },
{
    match outcome {
        Ok(Some(v)) => SessionServerResp::Value(v.clone()),
        Ok(None) => SessionServerResp::NotFound,
        Err(e) => SessionServerResp::ERR(e.message()),
    }
}

/// The text of the error a client reports for an answer it did not expect.
pub open spec fn unexpected_answer() -> Seq<char> {
    "unknown error"@
}

/// What a client's set or remove returns, given the server's answer.
pub fn write_outcome(resp: SessionServerResp) -> (r: Result<()>)
    ensures
        match resp {
            SessionServerResp::OK => r is Ok,
            SessionServerResp::ERR(m) => r matches Err(KvStoreError::Rpc(e)) && e@ == m@,
            _ => r matches Err(KvStoreError::Rpc(e)) && e@ == unexpected_answer(),
        },
{
    match resp {
        SessionServerResp::OK => Ok(()),
        SessionServerResp::ERR(m) => Err(KvStoreError::Rpc(m)),
        _ => Err(KvStoreError::Rpc("unknown error".to_owned())),
    }
}

/// What a client's get returns, given the server's answer.
pub fn get_outcome(resp: SessionServerResp) -> (r: Result<Option<String>>)
    ensures
        match resp {
            SessionServerResp::Value(v) => r matches Ok(Some(w)) && w@ == v@,
            SessionServerResp::NotFound => r matches Ok(None),
            SessionServerResp::ERR(m) => r matches Err(KvStoreError::Rpc(e)) && e@ == m@,
            _ => r matches Err(KvStoreError::Rpc(e)) && e@ == unexpected_answer(),
        },
{
    match resp {
        SessionServerResp::Value(v) => Ok(Some(v)),
        SessionServerResp::NotFound => Ok(None),
        SessionServerResp::ERR(m) => Err(KvStoreError::Rpc(m)),
        _ => Err(KvStoreError::Rpc("unknown error".to_owned())),
    }
}

} // verus!
