use mclient::session::{next_state, ProtocolState, SessionEvent};

#[test]
fn session_states() {
    assert_eq!(next_state(ProtocolState::Handshake, SessionEvent::HandshakeSent(1)), Some(ProtocolState::Status));
    assert_eq!(next_state(ProtocolState::Handshake, SessionEvent::HandshakeSent(2)), Some(ProtocolState::Login));
    assert_eq!(next_state(ProtocolState::Handshake, SessionEvent::HandshakeSent(3)), None);
    assert_eq!(next_state(ProtocolState::Login, SessionEvent::LoginSucceeded), Some(ProtocolState::Play));
    assert_eq!(next_state(ProtocolState::Play, SessionEvent::LoginSucceeded), None);
    assert_eq!(next_state(ProtocolState::Status, SessionEvent::LoginSucceeded), None);
}
