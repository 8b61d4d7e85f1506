use mclient::packet::{
    frame_length, handle_play_packet, handshake, header_complete, keep_alive, split_frame, login_start, login_success, ping_request,
    ping_response, pong, receive_chat_message, request_status, send_chat_message, status_response,
    write_packet, PlayAction,
};
use mclient::play::{player_info, read_add_entry};
use mclient::registry::PlayerRegistry;
use mclient::status::{favicon_png, status_favicon};
use mclient::varint::{decode_varint, WireError};

const ALICE: u128 = 0x0123_4567_89ab_cdef_0011_2233_4455_6677;

fn uuid_bytes(u: u128) -> Vec<u8> {
    u.to_be_bytes().to_vec()
}

fn field(s: &[u8]) -> Vec<u8> {
    let mut v = vec![s.len() as u8];
    v.extend_from_slice(s);
    v
}

#[test]
fn registry_first_name_wins() {
    let mut r = PlayerRegistry::new();
    r.apply_add(7, "first".to_string());
    r.apply_add(7, "second".to_string());
    assert_eq!(r.get(7).map(|s| s.as_str()), Some("first"));
    assert_eq!(r.len(), 1);
}

#[test]
fn registry_remove_absent_is_noop() {
    let mut r = PlayerRegistry::new();
    r.apply_add(1, "x".to_string());
    r.apply_remove(2);
    assert_eq!(r.len(), 1);
    assert_eq!(r.get(1).map(|s| s.as_str()), Some("x"));
}

#[test]
fn registry_snapshot_after_add_add_remove() {
    let mut r = PlayerRegistry::new();
    r.apply_add(10, "x".to_string());
    r.apply_add(20, "y".to_string());
    r.apply_remove(10);
    let snap = r.snapshot();
    assert_eq!(snap.len(), 1);
    assert_eq!(snap.get(&20).map(|s| s.as_str()), Some("y"));
}

#[test]
fn ping_response_accepts_exact_echo() {
    let payload: u64 = 92233720;
    assert_eq!(ping_response(&payload.to_be_bytes(), payload), Ok(()));
}

#[test]
fn ping_response_rejects_mismatch() {
    let payload: u64 = 92233720;
    assert_eq!(
        ping_response(&(payload + 1).to_be_bytes(), payload),
        Err(WireError::ProtocolMismatch)
    );
    assert_eq!(
        ping_response(&payload.to_be_bytes()[..7], payload),
        Err(WireError::ProtocolMismatch)
    );
}

#[test]
fn ping_request_bytes() {
    let p = ping_request(92233720);
    assert_eq!(p, vec![9, 0x01, 0, 0, 0, 0, 0x05, 0x7f, 0x5f, 0xf8]);
}

#[test]
fn keep_alive_is_echoed_unchanged() {
    let mut r = PlayerRegistry::new();
    r.apply_add(5, "bob".to_string());
    let payload = vec![0, 0, 0, 0, 0, 0, 0x12, 0x34];
    match handle_play_packet(0x21, &payload, &mut r) {
        Ok(PlayAction::Send(bytes)) => {
            assert_eq!(bytes, vec![9, 0x0f, 0, 0, 0, 0, 0, 0, 0x12, 0x34]);
        }
        _ => panic!("expected an echo"),
    }
    assert_eq!(r.len(), 1);
    assert_eq!(keep_alive(&payload), vec![9, 0x0f, 0, 0, 0, 0, 0, 0, 0x12, 0x34]);
}

#[test]
fn play_ping_is_echoed_under_its_id() {
    let mut r = PlayerRegistry::new();
    let payload = vec![0, 0, 0, 42];
    match handle_play_packet(0x30, &payload, &mut r) {
        Ok(PlayAction::Send(bytes)) => assert_eq!(bytes, vec![5, 0x30, 0, 0, 0, 42]),
        _ => panic!("expected an echo"),
    }
    assert_eq!(pong(&payload), vec![5, 0x30, 0, 0, 0, 42]);
}

#[test]
fn disconnect_and_unknown_packets() {
    let mut r = PlayerRegistry::new();
    assert!(matches!(handle_play_packet(0x1a, &[], &mut r), Ok(PlayAction::Disconnect)));
    assert!(matches!(handle_play_packet(0x3c, &[1, 2], &mut r), Ok(PlayAction::PlayerInfoUpdate)));
    assert!(matches!(handle_play_packet(0x7f, &[1, 2], &mut r), Ok(PlayAction::Ignore)));
    assert_eq!(r.len(), 0);
}

#[test]
fn status_session_bytes_and_favicon() {
    let hs = handshake(758, "127.0.0.1", 25565, 1);
    let mut expected = vec![0x00, 0xf6, 0x05, 9];
    expected.extend_from_slice(b"127.0.0.1");
    expected.extend_from_slice(&[0x63, 0xdd, 0x01]);
    let mut framed = vec![expected.len() as u8];
    framed.extend_from_slice(&expected);
    assert_eq!(hs, framed);
    assert_eq!(request_status(), vec![1, 0]);

    let json = "{\"description\":\"hi\",\"favicon\":\"data:image/png;base64,iVBORw0KGgo=\"}";
    let body = field(json.as_bytes());
    let text = status_response(&body).unwrap();
    assert_eq!(text, json);
    assert_eq!(
        favicon_png(&text),
        Some(vec![0x89, 0x50, 0x4e, 0x47, 0x0d, 0x0a, 0x1a, 0x0a])
    );
}

#[test]
fn favicon_absent_or_invalid() {
    assert_eq!(favicon_png("{\"description\":\"hi\"}"), None);
    assert_eq!(favicon_png("{\"favicon\":\"data:image/png;base64,@@@\"}"), None);
    assert_eq!(favicon_png("{\"favicon\":\"data:image/png;base64,AAAA"), None);
}

fn alice_entry() -> Vec<u8> {
    let mut e = uuid_bytes(ALICE);
    e.extend(field(b"Alice"));
    e.extend_from_slice(&[0, 0, 0, 0]);
    e
}

#[test]
fn player_info_add_one_entry() {
    let mut body = vec![0, 1];
    body.extend(alice_entry());
    let mut r = PlayerRegistry::new();
    assert_eq!(player_info(&body, &mut r), Ok(body.len()));
    assert_eq!(r.len(), 1);
    assert_eq!(r.get(ALICE).map(|s| s.as_str()), Some("Alice"));
}

#[test]
fn player_info_skips_properties_and_display_name() {
    let mut e = uuid_bytes(3);
    e.extend(field(b"Carol"));
    e.push(2);
    e.extend(field(b"textures"));
    e.extend(field(b"abc"));
    e.push(1);
    e.extend(field(b"sig"));
    e.extend(field(b"skin"));
    e.extend(field(b"v"));
    e.push(0);
    e.extend_from_slice(&[1, 0x80, 0x01, 1]);
    e.extend(field(b"{\"text\":\"C\"}"));
    assert_eq!(read_add_entry(&e, 0).map(|(id, n, q)| (id, n, q)), Ok((3, "Carol".to_string(), e.len())));
    let mut body = vec![0, 2];
    body.extend(e);
    body.extend(alice_entry());
    let mut r = PlayerRegistry::new();
    assert_eq!(player_info(&body, &mut r), Ok(body.len()));
    assert_eq!(r.len(), 2);
    assert_eq!(r.get(3).map(|s| s.as_str()), Some("Carol"));
}

#[test]
fn player_info_remove_entries() {
    let mut r = PlayerRegistry::new();
    r.apply_add(ALICE, "Alice".to_string());
    r.apply_add(9, "Zed".to_string());
    let mut body = vec![4, 2];
    body.extend(uuid_bytes(ALICE));
    body.extend(uuid_bytes(77));
    assert_eq!(handle_play_packet(0x36, &body, &mut r).is_ok(), true);
    assert_eq!(r.len(), 1);
    assert_eq!(r.get(9).map(|s| s.as_str()), Some("Zed"));
}

#[test]
fn player_info_other_action_is_ignored() {
    let mut r = PlayerRegistry::new();
    assert_eq!(player_info(&[2, 1, 0xff], &mut r), Ok(2));
    assert_eq!(r.len(), 0);
}

#[test]
fn player_info_errors() {
    let mut r = PlayerRegistry::new();
    let mut body = vec![0, 1];
    body.extend(uuid_bytes(ALICE));
    assert_eq!(player_info(&body, &mut r), Err(WireError::Truncated));
    let mut bad = vec![0, 1];
    bad.extend(uuid_bytes(ALICE));
    bad.extend(field(&[0xff, 0xfe]));
    assert_eq!(player_info(&bad, &mut r), Err(WireError::DecodeError));
    let mut neg = vec![0, 1];
    neg.extend(uuid_bytes(ALICE));
    neg.extend_from_slice(&[0xff, 0xff, 0xff, 0xff, 0x0f]);
    assert_eq!(player_info(&neg, &mut r), Err(WireError::DecodeError));
    assert_eq!(player_info(&[0x80, 0x80, 0x80, 0x80, 0x80], &mut r), Err(WireError::MalformedVarInt));
    assert_eq!(r.len(), 0);
}

#[test]
fn login_packets() {
    let p = login_start("eudinaltapartee");
    let mut expected = vec![17, 0, 15];
    expected.extend_from_slice(b"eudinaltapartee");
    assert_eq!(p, expected);
    let mut body = uuid_bytes(ALICE);
    body.extend(field(b"Alice"));
    let (id, name) = login_success(&body).unwrap();
    assert_eq!(id, ALICE);
    assert_eq!(name, "Alice");
}

#[test]
fn chat_packets() {
    assert_eq!(send_chat_message("hi"), vec![4, 0x03, 2, b'h', b'i']);
    let json = "{\"text\":\"hello\"}";
    let mut body = field(json.as_bytes());
    body.push(1);
    body.extend(uuid_bytes(ALICE));
    let m = receive_chat_message(&body).unwrap();
    assert_eq!(m.text, json);
    assert_eq!(m.position, 1);
    assert_eq!(m.sender, ALICE);
    let mut r = PlayerRegistry::new();
    assert!(matches!(handle_play_packet(0x0f, &body, &mut r), Ok(PlayAction::Chat(_))));
    assert_eq!(receive_chat_message(&field(json.as_bytes())).err(), Some(WireError::Truncated));
}

#[test]
fn write_packet_frames_id_and_body() {
    assert_eq!(write_packet(0x36, &[1, 2, 3]), vec![4, 0x36, 1, 2, 3]);
    let big = vec![7u8; 200];
    let f = write_packet(0, &big);
    assert_eq!(&f[..3], &[0xc9, 0x01, 0x00]);
    assert_eq!(f.len(), 203);
}

#[test]
fn frame_reads_back() {
    let body = vec![0xde, 0xad, 0xbe, 0xef];
    let f = write_packet(-2, &body);
    let (len, k) = decode_varint(&f, 0).unwrap();
    assert_eq!(len as usize + k, f.len());
    let (id, m) = decode_varint(&f, k).unwrap();
    assert_eq!(id, -2);
    assert_eq!(&f[k + m..], &body[..]);
}

#[test]
fn frame_header_completion() {
    assert!(!header_complete(&[]));
    assert!(!header_complete(&[0x80]));
    assert!(header_complete(&[0x80, 0x01]));
    assert!(header_complete(&[0x05]));
    assert!(header_complete(&[0x80, 0x80, 0x80, 0x80, 0x80]));
}

#[test]
fn chat_text_not_utf8_degrades_to_empty_line() {
    let mut body = field(&[0xff, 0xfe]);
    body.push(0);
    body.extend(uuid_bytes(ALICE));
    let mut r = PlayerRegistry::new();
    match handle_play_packet(0x0f, &body, &mut r) {
        Ok(PlayAction::Chat(m)) => assert_eq!(m.text, ""),
        _ => panic!("expected an empty chat line"),
    }
}

#[test]
fn player_name_not_utf8_keeps_the_session() {
    let mut body = vec![0, 2];
    body.extend(alice_entry());
    body.extend(uuid_bytes(8));
    body.extend(field(&[0xc3, 0x28]));
    body.extend_from_slice(&[0, 0, 0, 0]);
    let mut r = PlayerRegistry::new();
    assert!(matches!(handle_play_packet(0x36, &body, &mut r), Ok(PlayAction::Ignore)));
    assert_eq!(r.get(ALICE).map(|s| s.as_str()), Some("Alice"));
    assert_eq!(r.len(), 1);
}

#[test]
fn frame_length_and_split() {
    assert_eq!(frame_length(&[0xc9, 0x01]), Ok(201));
    assert_eq!(frame_length(&[0xff, 0xff, 0xff, 0xff, 0x0f]), Err(WireError::DecodeError));
    assert_eq!(frame_length(&[0x80]), Err(WireError::Truncated));
    assert_eq!(split_frame(&[0x21, 1, 2, 3]), Ok((0x21, vec![1, 2, 3])));
    assert_eq!(split_frame(&[0x1a]), Ok((0x1a, vec![])));
    assert_eq!(split_frame(&[]), Err(WireError::Truncated));
}

#[test]
fn chat_text_not_utf8_still_reads_position_and_sender() {
    let mut body = field(&[0xff, 0xfe]);
    body.push(2);
    body.extend(uuid_bytes(ALICE));
    let m = receive_chat_message(&body).unwrap();
    assert_eq!(m.text, "");
    assert_eq!(m.position, 2);
    assert_eq!(m.sender, ALICE);
}

#[test]
fn status_body_favicon() {
    let json = "{\"favicon\":\"data:image/png;base64,iVBORw0KGgo=\",\"players\":{}}";
    let mut body = field(json.as_bytes());
    body.extend_from_slice(&[9, 9]);
    assert_eq!(
        status_favicon(&body),
        Some(vec![0x89, 0x50, 0x4e, 0x47, 0x0d, 0x0a, 0x1a, 0x0a])
    );
    assert_eq!(status_favicon(&[0x80]), None);
}
