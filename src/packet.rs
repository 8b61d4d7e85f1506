use crate::play::{
    add_entry_at, add_run, entry_head_at, entry_rest_end, player_info, player_info_run,
    properties_end, read_entry_head,
};
use crate::registry::registry_add;
use crate::registry::PlayerRegistry;
use crate::varint::{
    lemma_encoding_len, lemma_varint_round_trip, pow128, unsigned_of, varint_decode, varint_sum,
    varint_encoding, varint_write, WireError,
};
use crate::varint::decode_varint;
use crate::wire::{
    be_value, field_at, pow256, read_field_at, read_uuid_at, utf8_decoded, utf8_text, uuid_at,
    varint_at,
};
use vstd::prelude::*;
use vstd::string::StringSliceAdditionalSpecFns;
use vstd::utf8::{decode_utf8, valid_utf8};

verus! {

/// Largest body that a frame built here may carry under a one-byte packet ID, so that
/// the frame's length fits an `i32`.
pub const MAX_BODY_LEN: usize = 0x7FFF_FFFE;

/// Largest text that an outbound packet built here may carry.
pub const MAX_TEXT_LEN: usize = 0x7FFE_0000;

/// Packet ID of the keep-alive that the server sends in the Play state.
pub const KEEP_ALIVE_ID: i32 = 0x21;

/// Packet ID under which the client echoes a keep-alive.
pub const KEEP_ALIVE_ECHO_ID: i32 = 0x0F;

/// Packet ID of the ping that the server sends in the Play state, and of its echo.
pub const PLAY_PING_ID: i32 = 0x30;

/// Packet ID of player_info in the Play state.
pub const PLAYER_INFO_ID: i32 = 0x36;

/// Packet ID of the player info update in the Play state.
pub const PLAYER_INFO_UPDATE_ID: i32 = 0x3C;

/// Packet ID of an inbound chat message in the Play state.
pub const CHAT_ID: i32 = 0x0F;

/// Packet ID of the disconnect in the Play state.
pub const DISCONNECT_ID: i32 = 0x1A;

/// Packet ID of an outbound chat message in the Play state.
pub const CHAT_SEND_ID: i32 = 0x03;

/// A frame: the VarInt length of what follows, then the VarInt packet ID and the body.
pub open spec fn frame(id: i32, body: Seq<u8>) -> Seq<u8> {
    let inner = varint_encoding(unsigned_of(id)) + body;
    varint_encoding(inner.len()) + inner
}

/// A length-prefixed field: the VarInt byte length, then the bytes.
pub open spec fn string_field(b: Seq<u8>) -> Seq<u8> {
    varint_encoding(b.len()) + b
}

/// The `n` low bytes of `v`, most significant first.
pub open spec fn be_bytes(v: nat, n: nat) -> Seq<u8>
    decreases n,
{
    if n == 0 {
        Seq::empty()
    } else {
        be_bytes(v / 256, (n - 1) as nat).push((v % 256) as u8)
    }
}

/// The body of a handshake.
pub open spec fn handshake_body(protocol_version: i32, host: Seq<u8>, port: u16, next_state: i32) -> Seq<
    u8,
> {
    varint_encoding(unsigned_of(protocol_version)) + string_field(host) + be_bytes(port as nat, 2)
        + varint_encoding(unsigned_of(next_state))
}

/// Appends the `n` low bytes of `v` to `out`, most significant first.
fn push_be(out: &mut Vec<u8>, v: u64, n: usize)
    ensures
        final(out)@ == old(out)@ + be_bytes(v as nat, n as nat),
    decreases n,
{
    if n == 0 {
        assert(old(out)@ + be_bytes(v as nat, 0) =~= old(out)@);
    } else {
        push_be(out, v / 256, n - 1);
        out.push((v % 256) as u8);
        assert(final(out)@ =~= old(out)@ + be_bytes(v as nat, n as nat));
    }
}

/// Appends a length-prefixed copy of `b` to `out`.
fn push_field(out: &mut Vec<u8>, b: &[u8])
    requires
        b@.len() <= MAX_BODY_LEN,
    ensures
        final(out)@ == old(out)@ + string_field(b@),
{
    let mut len_bytes = varint_write(b.len() as i32);
    out.append(&mut len_bytes);
    let mut i: usize = 0;
    while i < b.len()
        invariant
            i <= b@.len(),
            out@ == old(out)@ + varint_encoding(b@.len()) + b@.take(i as int),
        decreases b@.len() - i,
    {
        out.push(b[i]);
        i = i + 1;
        assert(out@ =~= old(out)@ + varint_encoding(b@.len()) + b@.take(i as int));
    }
    assert(b@.take(i as int) =~= b@);
    assert(out@ =~= old(out)@ + string_field(b@));
}

/// Frames the packet `id` with `body`.
pub fn write_packet(id: i32, body: &[u8]) -> (r: Vec<u8>)
    requires
        varint_encoding(unsigned_of(id)).len() + body@.len() <= 0x7FFF_FFFF,
    ensures
        r@ == frame(id, body@),
{
    let mut inner = varint_write(id);
    proof {
        reveal_with_fuel(pow128, 6);
        lemma_encoding_len(unsigned_of(id), 5);
    }
    let mut i: usize = 0;
    while i < body.len()
        invariant
            i <= body@.len(),
            varint_encoding(unsigned_of(id)).len() <= 5,
            inner@ == varint_encoding(unsigned_of(id)) + body@.take(i as int),
        decreases body@.len() - i,
    {
        inner.push(body[i]);
        i = i + 1;
        assert(inner@ =~= varint_encoding(unsigned_of(id)) + body@.take(i as int));
    }
    assert(body@.take(i as int) =~= body@);
    let mut out = varint_write(inner.len() as i32);
    out.append(&mut inner);
    out
}

/// Whether the bytes read so far of a frame's length prefix are all of it: the last one
/// has no continuation bit, or five have been read (a longer prefix is malformed).
pub fn header_complete(header: &[u8]) -> (r: bool)
    ensures
        r == (header@.len() > 0 && (header@.last() < 128 || header@.len() >= 5)),
{
    let n = header.len();
    n > 0 && (header[n - 1] < 128 || n >= 5)
}

/// The body length that a frame's length prefix gives; a negative length is a decode
/// error.
pub fn frame_length(header: &[u8]) -> (r: Result<usize, WireError>)
    ensures
        match varint_decode(header@) {
            Ok((v, _)) => if v < 0 {
                r == Err::<usize, WireError>(WireError::DecodeError)
            } else {
                r == Ok::<usize, WireError>(v as usize)
            },
            Err(e) => r == Err::<usize, WireError>(e),
        },
{
    proof {
        assert(header@.skip(0) =~= header@);
    }
    match decode_varint(header, 0) {
        Ok((v, _)) => if v < 0 {
            Err(WireError::DecodeError)
        } else {
            Ok(v as usize)
        },
        Err(e) => Err(e),
    }
}

/// Splits what follows a frame's length prefix into the packet ID and the body.
pub fn split_frame(frame: &[u8]) -> (r: Result<(i32, Vec<u8>), WireError>)
    ensures
        match varint_decode(frame@) {
            Ok((id, n)) => (r matches Ok((i, b)) && i == id && b@ == frame@.skip(n as int)),
            Err(e) => r == Err::<(i32, Vec<u8>), WireError>(e),
        },
{
    proof {
        assert(frame@.skip(0) =~= frame@);
    }
    let (id, n) = match decode_varint(frame, 0) {
        Ok(x) => x,
        Err(e) => return Err(e),
    };
    let mut body: Vec<u8> = Vec::new();
    let mut i: usize = n;
    while i < frame.len()
        invariant
            n <= i <= frame@.len(),
            body@ == frame@.subrange(n as int, i as int),
        decreases frame@.len() - i,
    {
        body.push(frame[i]);
        i = i + 1;
        assert(body@ =~= frame@.subrange(n as int, i as int));
    }
    assert(body@ =~= frame@.skip(n as int));
    Ok((id, body))
}

/// A frame reads back as it was built: its length prefix gives the number of bytes that
/// follow, the first of them spell the packet ID, and the rest is the body.
pub proof fn lemma_frame_round_trip(id: i32, body: Seq<u8>)
    requires
        varint_encoding(unsigned_of(id)).len() + body.len() <= 0x7FFF_FFFF,
    ensures
        ({
            let f = frame(id, body);
            let inner = varint_encoding(unsigned_of(id)) + body;
            let k = varint_encoding(inner.len()).len();
            let m = varint_encoding(unsigned_of(id)).len();
            &&& varint_decode(f) == Ok::<(i32, nat), WireError>((inner.len() as i32, k))
            &&& f.len() == k + inner.len()
            &&& varint_decode(f.skip(k as int)) == Ok::<(i32, nat), WireError>((id, m))
            &&& f.skip((k + m) as int) == body
        }),
{
    let e = varint_encoding(unsigned_of(id));
    let inner = e + body;
    reveal_with_fuel(pow128, 6);
    lemma_encoding_len(unsigned_of(id), 5);
    let n = inner.len() as i32;
    assert(unsigned_of(n) == inner.len());
    lemma_varint_round_trip(n, inner);
    lemma_varint_round_trip(id, body);
    let f = frame(id, body);
    let k = varint_encoding(inner.len()).len();
    assert(f.skip(k as int) =~= inner);
    assert(f.skip((k + e.len()) as int) =~= body);
}

/// The handshake that opens a session and selects its next state (1 status, 2 login).
pub fn handshake(protocol_version: i32, host: &str, port: u16, next_state: i32) -> (r: Vec<u8>)
    requires
        host.spec_bytes().len() <= MAX_TEXT_LEN,
    ensures
        r@ == frame(0, handshake_body(protocol_version, host.spec_bytes(), port, next_state)),
{
    let mut body = varint_write(protocol_version);
    push_field(&mut body, host.as_bytes());
    push_be(&mut body, port as u64, 2);
    let mut state = varint_write(next_state);
    body.append(&mut state);
    proof {
        reveal_with_fuel(pow128, 6);
        lemma_encoding_len(unsigned_of(protocol_version), 5);
        lemma_encoding_len(unsigned_of(next_state), 5);
        lemma_encoding_len(host.spec_bytes().len(), 5);
        assert(be_bytes(port as nat, 2).len() == 2) by {
            reveal_with_fuel(be_bytes, 3);
        }
        assert(body@ =~= handshake_body(protocol_version, host.spec_bytes(), port, next_state));
    }
    write_packet(0, body.as_slice())
}

/// The status request, which has an empty body.
pub fn request_status() -> (r: Vec<u8>)
    ensures
        r@ == frame(0, Seq::empty()),
{
    let body: Vec<u8> = Vec::new();
    write_packet(0, body.as_slice())
}

/// The status ping that carries `payload`.
pub fn ping_request(payload: u64) -> (r: Vec<u8>)
    ensures
        r@ == frame(1, be_bytes(payload as nat, 8)),
{
    let mut body: Vec<u8> = Vec::new();
    push_be(&mut body, payload, 8);
    proof {
        assert(be_bytes(payload as nat, 8).len() == 8) by {
            reveal_with_fuel(be_bytes, 9);
        }
    }
    write_packet(1, body.as_slice())
}

/// Checks the body of a pong against the payload of the ping that it answers: the
/// bytes must be exactly the eight bytes that were sent.
pub fn ping_response(body: &[u8], payload: u64) -> (r: Result<(), WireError>)
    ensures
        r == if body@ == be_bytes(payload as nat, 8) {
            Ok::<(), WireError>(())
        } else {
            Err(WireError::ProtocolMismatch)
        },
{
    let mut sent: Vec<u8> = Vec::new();
    push_be(&mut sent, payload, 8);
    assert(sent@ =~= be_bytes(payload as nat, 8));
    if same_bytes(sent.as_slice(), body) {
        Ok(())
    } else {
        Err(WireError::ProtocolMismatch)
    }
}

/// Whether two byte strings are equal.
pub fn same_bytes(a: &[u8], b: &[u8]) -> (r: bool)
    ensures
        r == (a@ == b@),
{
    if a.len() != b.len() {
        return false;
    }
    let mut i: usize = 0;
    while i < a.len()
        invariant
            i <= a@.len() == b@.len(),
            a@.take(i as int) == b@.take(i as int),
        decreases a@.len() - i,
    {
        if a[i] != b[i] {
            assert(a@[i as int] != b@[i as int]);
            return false;
        }
        i = i + 1;
        assert(a@.take(i as int) =~= b@.take(i as int));
    }
    assert(a@ =~= a@.take(i as int));
    assert(b@ =~= b@.take(i as int));
    true
}

/// The login start that names the player.
pub fn login_start(username: &str) -> (r: Vec<u8>)
    requires
        username.spec_bytes().len() <= MAX_TEXT_LEN,
    ensures
        r@ == frame(0, string_field(username.spec_bytes())),
{
    let mut body: Vec<u8> = Vec::new();
    push_field(&mut body, username.as_bytes());
    proof {
        reveal_with_fuel(pow128, 6);
        lemma_encoding_len(username.spec_bytes().len(), 5);
        assert(body@ =~= string_field(username.spec_bytes()));
    }
    write_packet(0, body.as_slice())
}

/// An outbound chat message.
pub fn send_chat_message(message: &str) -> (r: Vec<u8>)
    requires
        message.spec_bytes().len() <= MAX_TEXT_LEN,
    ensures
        r@ == frame(CHAT_SEND_ID, string_field(message.spec_bytes())),
{
    let mut body: Vec<u8> = Vec::new();
    push_field(&mut body, message.as_bytes());
    proof {
        reveal_with_fuel(pow128, 6);
        lemma_encoding_len(message.spec_bytes().len(), 5);
        assert(body@ =~= string_field(message.spec_bytes()));
    }
    write_packet(CHAT_SEND_ID, body.as_slice())
}

/// The echo of a keep-alive: the same payload under the echo ID.
pub fn keep_alive(payload: &[u8]) -> (r: Vec<u8>)
    requires
        payload@.len() <= MAX_BODY_LEN,
    ensures
        r@ == frame(KEEP_ALIVE_ECHO_ID, payload@),
{
    write_packet(KEEP_ALIVE_ECHO_ID, payload)
}

/// The echo of a Play-state ping: the same payload under the ping's ID.
pub fn pong(payload: &[u8]) -> (r: Vec<u8>)
    requires
        payload@.len() <= MAX_BODY_LEN,
    ensures
        r@ == frame(PLAY_PING_ID, payload@),
{
    write_packet(PLAY_PING_ID, payload)
}

/// The JSON text of a status response body.
pub open spec fn status_text(s: Seq<u8>) -> Result<Seq<char>, WireError> {
    match field_at(s, 0) {
        Ok((a, b)) => match utf8_decoded(s.subrange(a as int, b as int)) {
            Some(t) => Ok(t),
            None => Err(WireError::DecodeError),
        },
        Err(e) => Err(e),
    }
}

/// Reads the JSON text of a status response body (the bytes after the packet ID).
pub fn status_response(body: &[u8]) -> (r: Result<String, WireError>)
    ensures
        match r {
            Ok(t) => status_text(body@) == Ok::<Seq<char>, WireError>(t@),
            Err(e) => status_text(body@) == Err::<Seq<char>, WireError>(e),
        },
{
    let (a, b) = match read_field_at(body, 0) {
        Ok(x) => x,
        Err(e) => return Err(e),
    };
    match utf8_text(&body[a..b]) {
        Some(t) => Ok(t),
        None => Err(WireError::DecodeError),
    }
}

/// Reads the identity and name of a login success body; the session then enters Play.
pub fn login_success(body: &[u8]) -> (r: Result<(u128, String), WireError>)
    ensures
        match r {
            Ok((id, name)) => (entry_head_at(body@, 0) matches Ok(((i, n), _)) && i == id && n
                == name@),
            Err(e) => entry_head_at(body@, 0) == Err::<((u128, Seq<char>), nat), WireError>(e),
        },
{
    match read_entry_head(body, 0) {
        Ok((id, name, _)) => Ok((id, name)),
        Err(e) => Err(e),
    }
}

/// An inbound chat message: its JSON text, its position byte and its sender.
pub struct ChatMessage {
    pub text: String,
    pub position: u8,
    pub sender: u128,
}

/// The parts of a chat message body: text, position and sender. A text that is not
/// valid UTF-8 degrades to an empty text; the position and sender are still read.
pub open spec fn chat_at(s: Seq<u8>) -> Result<(Seq<char>, u8, u128), WireError> {
    match field_at(s, 0) {
        Err(e) => Err(e),
        Ok((a, b)) => if b >= s.len() {
            Err(WireError::Truncated)
        } else {
            match uuid_at(s, b + 1) {
                Err(e) => Err(e),
                Ok((id, _)) => Ok(
                    (
                        match utf8_decoded(s.subrange(a as int, b as int)) {
                            Some(t) => t,
                            None => Seq::empty(),
                        },
                        s[b as int],
                        id,
                    ),
                ),
            }
        },
    }
}

/// Reads an inbound chat message body (the bytes after the packet ID). A text that is
/// not valid UTF-8 is shown as an empty line rather than ending the session.
pub fn receive_chat_message(body: &[u8]) -> (r: Result<ChatMessage, WireError>)
    ensures
        match r {
            Ok(m) => chat_at(body@) == Ok::<(Seq<char>, u8, u128), WireError>(
                (m.text@, m.position, m.sender),
            ),
            Err(e) => chat_at(body@) == Err::<(Seq<char>, u8, u128), WireError>(e),
        },
{
    let (a, b) = match read_field_at(body, 0) {
        Ok(x) => x,
        Err(e) => return Err(e),
    };
    if b >= body.len() {
        return Err(WireError::Truncated);
    }
    let text = match utf8_text(&body[a..b]) {
        Some(t) => t,
        None => String::new(),
    };
    let position = body[b];
    match read_uuid_at(body, b + 1) {
        Ok((sender, _)) => Ok(ChatMessage { text, position, sender }),
        Err(e) => Err(e),
    }
}

/// What the session does after a Play-state packet.
pub enum PlayAction {
    /// Write these bytes to the server.
    Send(Vec<u8>),
    /// Show this chat message.
    Chat(ChatMessage),
    /// The server announced a player info update; the client only notes it.
    PlayerInfoUpdate,
    /// The server closed the session.
    Disconnect,
    /// Nothing further to do.
    Ignore,
}

/// Handles one Play-state packet with ID `id` and body `body`: keep-alives and pings are
/// echoed, player_info updates the registry, chat is decoded, a player info update is
/// noted, disconnect ends the session, any other packet is dropped. A text that is not UTF-8 is no reason to end the session:
/// a chat message degrades to an empty line, a player_info update stops where it was.
pub fn handle_play_packet(id: i32, body: &[u8], players: &mut PlayerRegistry) -> (r: Result<
    PlayAction,
    WireError,
>)
    requires
        body@.len() <= MAX_BODY_LEN,
    ensures
        id != PLAYER_INFO_ID ==> final(players)@ == old(players)@,
        id == KEEP_ALIVE_ID ==> (r matches Ok(PlayAction::Send(f)) && f@ == frame(
            KEEP_ALIVE_ECHO_ID,
            body@,
        )),
        id == PLAY_PING_ID ==> (r matches Ok(PlayAction::Send(f)) && f@ == frame(
            PLAY_PING_ID,
            body@,
        )),
        id == PLAYER_INFO_ID ==> match player_info_run(body@, old(players)@) {
            (m, Ok(_)) => final(players)@ == m && r matches Ok(PlayAction::Ignore),
            (m, Err(e)) => final(players)@ == m && if e == WireError::DecodeError {
                r matches Ok(PlayAction::Ignore)
            } else {
                r == Err::<PlayAction, WireError>(e)
            },
        },
        id == CHAT_ID ==> match chat_at(body@) {
            Ok((t, p, s)) => r matches Ok(PlayAction::Chat(c)) && c.text@ == t && c.position == p
                && c.sender == s,
            Err(e) => if e == WireError::DecodeError {
                (r matches Ok(PlayAction::Chat(c)) && c.text@.len() == 0)
            } else {
                r == Err::<PlayAction, WireError>(e)
            },
        },
        id == DISCONNECT_ID ==> r matches Ok(PlayAction::Disconnect),
        id == PLAYER_INFO_UPDATE_ID ==> r matches Ok(PlayAction::PlayerInfoUpdate),
        id != KEEP_ALIVE_ID && id != PLAY_PING_ID && id != PLAYER_INFO_ID && id != CHAT_ID && id
            != DISCONNECT_ID && id != PLAYER_INFO_UPDATE_ID ==> r matches Ok(PlayAction::Ignore),
{
    if id == KEEP_ALIVE_ID {
        Ok(PlayAction::Send(keep_alive(body)))
    } else if id == PLAY_PING_ID {
        Ok(PlayAction::Send(pong(body)))
    } else if id == PLAYER_INFO_ID {
        match player_info(body, players) {
            Ok(_) => Ok(PlayAction::Ignore),
            Err(WireError::DecodeError) => Ok(PlayAction::Ignore),
            Err(e) => Err(e),
        }
    } else if id == CHAT_ID {
        match receive_chat_message(body) {
            Ok(m) => Ok(PlayAction::Chat(m)),
            Err(WireError::DecodeError) => Ok(
                PlayAction::Chat(ChatMessage { text: String::new(), position: 0, sender: 0 }),
            ),
            Err(e) => Err(e),
        }
    } else if id == DISCONNECT_ID {
        Ok(PlayAction::Disconnect)
    } else if id == PLAYER_INFO_UPDATE_ID {
        Ok(PlayAction::PlayerInfoUpdate)
    } else {
        Ok(PlayAction::Ignore)
    }
}

proof fn lemma_be_value_of_bytes(v: nat, n: nat)
    requires
        v < pow256(n),
    ensures
        be_value(be_bytes(v, n)) == v,
        be_bytes(v, n).len() == n,
    decreases n,
{
    if n > 0 {
        let k = pow256((n - 1) as nat);
        assert(v / 256 < k) by (nonlinear_arith)
            requires
                v < 256 * k,
        ;
        lemma_be_value_of_bytes(v / 256, (n - 1) as nat);
        assert(be_bytes(v, n).drop_last() =~= be_bytes(v / 256, (n - 1) as nat));
    } else {
        assert(v == 0);
    }
}

proof fn lemma_byte_varint_at(s: Seq<u8>, q: nat)
    requires
        q < s.len(),
        s[q as int] < 128,
    ensures
        varint_at(s, q) == Ok::<(i32, nat), WireError>((s[q as int] as i32, q + 1)),
{
    let t = s.skip(q as int);
    assert(t[0] == s[q as int]);
    assert(t.take(1).drop_first() =~= Seq::<u8>::empty());
    assert(t.take(1)[0] == s[q as int]);
    assert(varint_sum(Seq::<u8>::empty()) == 0);
    assert(varint_sum(t.take(1)) == s[q as int]);
}

proof fn lemma_entry_head(prefix: Seq<u8>, u: u128, name: Seq<u8>, rest: Seq<u8>)
    requires
        valid_utf8(name),
        name.len() <= 0x7FFF_FFFF,
    ensures
        ({
            let s = prefix + be_bytes(u as nat, 16) + string_field(name) + rest;
            entry_head_at(s, prefix.len()) == Ok::<((u128, Seq<char>), nat), WireError>(
                ((u, decode_utf8(name)), (s.len() - rest.len()) as nat),
            )
        }),
{
    let id = be_bytes(u as nat, 16);
    let s = prefix + id + string_field(name) + rest;
    let p = prefix.len();
    assert(u < pow256(16)) by {
        reveal_with_fuel(pow256, 17);
    }
    lemma_be_value_of_bytes(u as nat, 16);
    assert(s.subrange(p as int, p + 16int) =~= id);
    assert(uuid_at(s, p) == Ok::<(u128, nat), WireError>((u, p + 16)));
    let q1 = p + 16;
    let ln = name.len() as i32;
    assert(unsigned_of(ln) == name.len());
    let k = varint_encoding(name.len()).len();
    lemma_varint_round_trip(ln, name + rest);
    assert(s.skip(q1 as int) =~= varint_encoding(name.len()) + (name + rest));
    assert(varint_at(s, q1) == Ok::<(i32, nat), WireError>((ln, q1 + k)));
    let a = q1 + k;
    let q2 = a + name.len();
    assert(field_at(s, q1) == Ok::<(nat, nat), WireError>((a, q2)));
    assert(s.subrange(a as int, q2 as int) =~= name);
}

proof fn lemma_entry_rest_zeros(s: Seq<u8>, q: nat)
    requires
        q + 4 == s.len(),
        s[q as int] == 0,
        s[q + 1int] == 0,
        s[q + 2int] == 0,
        s[q + 3int] == 0,
    ensures
        entry_rest_end(s, q) == Ok::<nat, WireError>(q + 4),
{
    lemma_byte_varint_at(s, q);
    lemma_byte_varint_at(s, q + 1);
    lemma_byte_varint_at(s, q + 2);
    lemma_byte_varint_at(s, q + 3);
    assert(properties_end(s, q + 1, 0) == Ok::<nat, WireError>(q + 1));
}

/// One "add" entry of player_info (an identity, a UTF-8 name, no properties, game mode 0,
/// ping 0, no display name) that follows any prefix adds that name unless the identity is
/// already present, and ends exactly where the bytes end.
pub proof fn lemma_single_add_entry(
    prefix: Seq<u8>,
    u: u128,
    name: Seq<u8>,
    m: Map<u128, Seq<char>>,
)
    requires
        valid_utf8(name),
        name.len() <= 0x7FFF_FFFF,
    ensures
        ({
            let s = prefix + be_bytes(u as nat, 16) + string_field(name) + seq![0u8, 0u8, 0u8, 0u8];
            add_run(s, prefix.len(), 1, m) == (
                registry_add(m, u, decode_utf8(name)),
                Ok::<nat, WireError>(s.len()),
            )
        }),
{
    let zeros = seq![0u8, 0u8, 0u8, 0u8];
    let s = prefix + be_bytes(u as nat, 16) + string_field(name) + zeros;
    lemma_entry_head(prefix, u, name, zeros);
    let q = (s.len() - 4) as nat;
    assert(s[q as int] == 0 && s[q + 1int] == 0 && s[q + 2int] == 0 && s[q + 3int] == 0);
    lemma_entry_rest_zeros(s, q);
    assert(add_entry_at(s, prefix.len()) == Ok::<((u128, Seq<char>), nat), WireError>(
        ((u, decode_utf8(name)), s.len()),
    ));
    assert(add_run(s, s.len(), 0, registry_add(m, u, decode_utf8(name))) == (
        registry_add(m, u, decode_utf8(name)),
        Ok::<nat, WireError>(s.len()),
    ));
}

/// A player_info body that adds one entry (an identity, a UTF-8 name, no properties,
/// game mode 0, ping 0, no display name) is read to its last byte, and leaves the registry
/// with that name for the identity: unchanged where the identity was already present, and
/// exactly that one player where the registry was empty.
pub proof fn lemma_player_info_single_add(u: u128, name: Seq<u8>, m: Map<u128, Seq<char>>)
    requires
        valid_utf8(name),
        name.len() <= 0x7FFF_FFFF,
    ensures
        ({
            let body = seq![0u8, 1u8] + be_bytes(u as nat, 16) + string_field(name) + seq![
                0u8,
                0u8,
                0u8,
                0u8,
            ];
            &&& player_info_run(body, m) == (
                registry_add(m, u, decode_utf8(name)),
                Ok::<nat, WireError>(body.len()),
            )
            &&& m.contains_key(u) ==> player_info_run(body, m).0 == m
            &&& m == Map::<u128, Seq<char>>::empty() ==> player_info_run(body, m).0 == map![
                u => decode_utf8(name),
            ]
        }),
{
    let prefix = seq![0u8, 1u8];
    let body = prefix + be_bytes(u as nat, 16) + string_field(name) + seq![0u8, 0u8, 0u8, 0u8];
    assert(body[0] == 0 && body[1] == 1);
    lemma_byte_varint_at(body, 0);
    lemma_byte_varint_at(body, 1);
    lemma_single_add_entry(prefix, u, name, m);
    assert(registry_add(Map::<u128, Seq<char>>::empty(), u, decode_utf8(name)) =~= map![
        u => decode_utf8(name),
    ]);
}

} // verus!
