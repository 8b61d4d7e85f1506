use vstd::prelude::*;

verus! {

/// The protocol state of a session.
#[derive(Debug, Clone, Copy, PartialEq, Eq, Structural)]
pub enum ProtocolState {
    Handshake,
    Status,
    Login,
    Play,
}

/// What moves a session between states.
#[derive(Debug, Clone, Copy, PartialEq, Eq, Structural)]
pub enum SessionEvent {
    /// The client sent a handshake that names the next state (1 status, 2 login).
    HandshakeSent(i32),
    /// The server confirmed the login.
    LoginSucceeded,
}

/// The state after `event` in `state`; `None` where the event has no place there.
pub open spec fn transition(state: ProtocolState, event: SessionEvent) -> Option<ProtocolState> {
    match (state, event) {
        (ProtocolState::Handshake, SessionEvent::HandshakeSent(n)) => if n == 1 {
            Some(ProtocolState::Status)
        } else if n == 2 {
            Some(ProtocolState::Login)
        } else {
            None
        },
        (ProtocolState::Login, SessionEvent::LoginSucceeded) => Some(ProtocolState::Play),
        _ => None,
    }
}

/// Moves a session to its next state.
pub fn next_state(state: ProtocolState, event: SessionEvent) -> (r: Option<ProtocolState>)
    ensures
        r == transition(state, event),
{
    match (state, event) {
        (ProtocolState::Handshake, SessionEvent::HandshakeSent(n)) => if n == 1 {
            Some(ProtocolState::Status)
        } else if n == 2 {
            Some(ProtocolState::Login)
        } else {
            None
        },
        (ProtocolState::Login, SessionEvent::LoginSucceeded) => Some(ProtocolState::Play),
        _ => None,
    }
}

/// Play is terminal: no event leads out of it, and only a login success leads into it.
pub proof fn lemma_play_is_terminal(state: ProtocolState, event: SessionEvent)
    ensures
        state == ProtocolState::Play ==> transition(state, event) is None,
        transition(state, event) == Some(ProtocolState::Play) ==> state == ProtocolState::Login
            && event == SessionEvent::LoginSucceeded,
{
}

} // verus!
