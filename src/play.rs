use crate::registry::{registry_add, PlayerRegistry};
use crate::varint::WireError;
use crate::wire::{
    field_at, read_field_at, read_uuid_at, read_varint_at, utf8_decoded, utf8_text, uuid_at,
    varint_at,
};
use vstd::prelude::*;

verus! {

/// A count read off the wire; a negative count means no items.
pub open spec fn count_of(n: i32) -> nat {
    if n < 0 { 0 } else { n as nat }
}

/// The position after one property of a player entry: name, value, a signed flag and,
/// when the flag is 1, a signature.
pub open spec fn property_end(s: Seq<u8>, p: nat) -> Result<nat, WireError> {
    match field_at(s, p) {
        Err(e) => Err(e),
        Ok((_, q1)) => match field_at(s, q1) {
            Err(e) => Err(e),
            Ok((_, q2)) => match varint_at(s, q2) {
                Err(e) => Err(e),
                Ok((signed, q3)) => if signed == 1 {
                    match field_at(s, q3) {
                        Err(e) => Err(e),
                        Ok((_, q4)) => Ok(q4),
                    }
                } else {
                    Ok(q3)
                },
            },
        },
    }
}

/// The position after `k` properties that start at `p`.
pub open spec fn properties_end(s: Seq<u8>, p: nat, k: nat) -> Result<nat, WireError>
    decreases k,
{
    if k == 0 {
        Ok(p)
    } else {
        match property_end(s, p) {
            Ok(q) => properties_end(s, q, (k - 1) as nat),
            Err(e) => Err(e),
        }
    }
}

/// The identity and name that open an "add" entry, and the position after the name.
pub open spec fn entry_head_at(s: Seq<u8>, p: nat) -> Result<((u128, Seq<char>), nat), WireError> {
    match uuid_at(s, p) {
        Err(e) => Err(e),
        Ok((id, q1)) => match field_at(s, q1) {
            Err(e) => Err(e),
            Ok((a, q2)) => match utf8_decoded(s.subrange(a as int, q2 as int)) {
                None => Err(WireError::DecodeError),
                Some(name) => Ok(((id, name), q2)),
            },
        },
    }
}

/// The position after the rest of an "add" entry: its properties, game mode, ping and
/// optional display name, all read past.
pub open spec fn entry_rest_end(s: Seq<u8>, p: nat) -> Result<nat, WireError> {
    match varint_at(s, p) {
        Err(e) => Err(e),
        Ok((np, q3)) => match properties_end(s, q3, count_of(np)) {
            Err(e) => Err(e),
            Ok(q4) => match varint_at(s, q4) {
                Err(e) => Err(e),
                Ok((_, q5)) => match varint_at(s, q5) {
                    Err(e) => Err(e),
                    Ok((_, q6)) => match varint_at(s, q6) {
                        Err(e) => Err(e),
                        Ok((shown, q7)) => if shown == 1 {
                            match field_at(s, q7) {
                                Err(e) => Err(e),
                                Ok((_, q8)) => Ok(q8),
                            }
                        } else {
                            Ok(q7)
                        },
                    },
                },
            },
        },
    }
}

/// One entry of an "add" action: identity and name are kept, the rest is read past.
pub open spec fn add_entry_at(s: Seq<u8>, p: nat) -> Result<((u128, Seq<char>), nat), WireError> {
    match entry_head_at(s, p) {
        Err(e) => Err(e),
        Ok((entry, q)) => match entry_rest_end(s, q) {
            Err(e) => Err(e),
            Ok(q8) => Ok((entry, q8)),
        },
    }
}

/// The registry after the `k` "add" entries at `p`, and where the entries end; on an
/// error, the registry as the entries before it left it.
pub open spec fn add_run(s: Seq<u8>, p: nat, k: nat, m: Map<u128, Seq<char>>) -> (
    Map<u128, Seq<char>>,
    Result<nat, WireError>,
)
    decreases k,
{
    if k == 0 {
        (m, Ok(p))
    } else {
        match add_entry_at(s, p) {
            Ok(((id, name), q)) => add_run(s, q, (k - 1) as nat, registry_add(m, id, name)),
            Err(e) => (m, Err(e)),
        }
    }
}

/// The registry after the `k` "remove" identities at `p`, and where they end.
pub open spec fn remove_run(s: Seq<u8>, p: nat, k: nat, m: Map<u128, Seq<char>>) -> (
    Map<u128, Seq<char>>,
    Result<nat, WireError>,
)
    decreases k,
{
    if k == 0 {
        (m, Ok(p))
    } else {
        match uuid_at(s, p) {
            Ok((id, q)) => remove_run(s, q, (k - 1) as nat, m.remove(id)),
            Err(e) => (m, Err(e)),
        }
    }
}

/// A player_info body: action, count, then entries. Action 0 adds, action 4 removes,
/// any other action leaves the registry alone.
pub open spec fn player_info_run(s: Seq<u8>, m: Map<u128, Seq<char>>) -> (
    Map<u128, Seq<char>>,
    Result<nat, WireError>,
) {
    match varint_at(s, 0) {
        Err(e) => (m, Err(e)),
        Ok((action, q1)) => match varint_at(s, q1) {
            Err(e) => (m, Err(e)),
            Ok((n, q2)) => if action == 0 {
                add_run(s, q2, count_of(n), m)
            } else if action == 4 {
                remove_run(s, q2, count_of(n), m)
            } else {
                (m, Ok(q2))
            },
        },
    }
}

/// A position result seen as a mathematical number.
pub open spec fn pos_of(r: Result<usize, WireError>) -> Result<nat, WireError> {
    match r {
        Ok(q) => Ok(q as nat),
        Err(e) => Err(e),
    }
}

fn skip_property(buf: &[u8], pos: usize) -> (r: Result<usize, WireError>)
    requires
        pos <= buf@.len(),
    ensures
        pos_of(r) == property_end(buf@, pos as nat),
        r matches Ok(q) ==> q <= buf@.len(),
{
    let (_, q1) = match read_field_at(buf, pos) {
        Ok(x) => x,
        Err(e) => return Err(e),
    };
    let (_, q2) = match read_field_at(buf, q1) {
        Ok(x) => x,
        Err(e) => return Err(e),
    };
    let (signed, q3) = match read_varint_at(buf, q2) {
        Ok(x) => x,
        Err(e) => return Err(e),
    };
    if signed == 1 {
        match read_field_at(buf, q3) {
            Ok((_, q4)) => Ok(q4),
            Err(e) => Err(e),
        }
    } else {
        Ok(q3)
    }
}

fn skip_properties(buf: &[u8], pos: usize, count: i32) -> (r: Result<usize, WireError>)
    requires
        pos <= buf@.len(),
    ensures
        pos_of(r) == properties_end(buf@, pos as nat, count_of(count)),
        r matches Ok(q) ==> q <= buf@.len(),
{
    let mut i: i32 = 0;
    let mut p: usize = pos;
    while i < count
        invariant
            0 <= i,
            count >= 0 ==> i <= count,
            count < 0 ==> i == 0,
            p <= buf@.len(),
            properties_end(buf@, pos as nat, count_of(count)) == properties_end(
                buf@,
                p as nat,
                (count_of(count) - i) as nat,
            ),
        decreases count - i,
    {
        match skip_property(buf, p) {
            Ok(q) => {
                p = q;
                i = i + 1;
            },
            Err(e) => return Err(e),
        }
    }
    Ok(p)
}

fn skip_entry_rest(buf: &[u8], pos: usize) -> (r: Result<usize, WireError>)
    requires
        pos <= buf@.len(),
    ensures
        pos_of(r) == entry_rest_end(buf@, pos as nat),
        r matches Ok(q) ==> q <= buf@.len(),
{
    let (np, q3) = match read_varint_at(buf, pos) {
        Ok(x) => x,
        Err(e) => return Err(e),
    };
    let q4 = match skip_properties(buf, q3, np) {
        Ok(x) => x,
        Err(e) => return Err(e),
    };
    let (_, q5) = match read_varint_at(buf, q4) {
        Ok(x) => x,
        Err(e) => return Err(e),
    };
    let (_, q6) = match read_varint_at(buf, q5) {
        Ok(x) => x,
        Err(e) => return Err(e),
    };
    let (shown, q7) = match read_varint_at(buf, q6) {
        Ok(x) => x,
        Err(e) => return Err(e),
    };
    if shown == 1 {
        match read_field_at(buf, q7) {
            Ok((_, q8)) => Ok(q8),
            Err(e) => Err(e),
        }
    } else {
        Ok(q7)
    }
}

/// Reads the identity and name at `pos`, and the position after the name.
pub fn read_entry_head(buf: &[u8], pos: usize) -> (r: Result<(u128, String, usize), WireError>)
    requires
        pos <= buf@.len(),
    ensures
        match r {
            Ok((id, name, q)) => entry_head_at(buf@, pos as nat) == Ok::<
                ((u128, Seq<char>), nat),
                WireError,
            >(((id, name@), q as nat)) && q <= buf@.len(),
            Err(e) => entry_head_at(buf@, pos as nat) == Err::<((u128, Seq<char>), nat), WireError>(
                e,
            ),
        },
{
    let (id, q1) = match read_uuid_at(buf, pos) {
        Ok(x) => x,
        Err(e) => return Err(e),
    };
    let (a, q2) = match read_field_at(buf, q1) {
        Ok(x) => x,
        Err(e) => return Err(e),
    };
    match utf8_text(&buf[a..q2]) {
        Some(t) => Ok((id, t, q2)),
        None => Err(WireError::DecodeError),
    }
}

/// Reads one entry of an "add" action at `pos`: identity, name, and the position after
/// the entry.
pub fn read_add_entry(buf: &[u8], pos: usize) -> (r: Result<(u128, String, usize), WireError>)
    requires
        pos <= buf@.len(),
    ensures
        match r {
            Ok((id, name, q)) => add_entry_at(buf@, pos as nat) == Ok::<
                ((u128, Seq<char>), nat),
                WireError,
            >(((id, name@), q as nat)) && q <= buf@.len(),
            Err(e) => add_entry_at(buf@, pos as nat) == Err::<((u128, Seq<char>), nat), WireError>(
                e,
            ),
        },
{
    let (id, name, q2) = match read_entry_head(buf, pos) {
        Ok(x) => x,
        Err(e) => return Err(e),
    };
    match skip_entry_rest(buf, q2) {
        Ok(q) => Ok((id, name, q)),
        Err(e) => Err(e),
    }
}

/// Applies the `number_of_players` "add" entries that start at `pos`; returns the
/// position after them. On an error, the entries before it have been applied.
pub fn update_player_list(
    buf: &[u8],
    pos: usize,
    number_of_players: i32,
    online_players: &mut PlayerRegistry,
) -> (r: Result<usize, WireError>)
    requires
        pos <= buf@.len(),
    ensures
        (final(online_players)@, pos_of(r)) == add_run(
            buf@,
            pos as nat,
            count_of(number_of_players),
            old(online_players)@,
        ),
{
    let mut i: i32 = 0;
    let mut p: usize = pos;
    while i < number_of_players
        invariant
            0 <= i,
            number_of_players >= 0 ==> i <= number_of_players,
            number_of_players < 0 ==> i == 0,
            p <= buf@.len(),
            add_run(buf@, pos as nat, count_of(number_of_players), old(online_players)@) == add_run(
                buf@,
                p as nat,
                (count_of(number_of_players) - i) as nat,
                online_players@,
            ),
        decreases number_of_players - i,
    {
        match read_add_entry(buf, p) {
            Ok((id, name, q)) => {
                online_players.apply_add(id, name);
                p = q;
                i = i + 1;
            },
            Err(e) => return Err(e),
        }
    }
    Ok(p)
}

/// Removes the `number_of_players` identities that start at `pos`; returns the position
/// after them. On an error, the identities before it have been removed.
pub fn remove_from_online_players(
    buf: &[u8],
    pos: usize,
    number_of_players: i32,
    online_players: &mut PlayerRegistry,
) -> (r: Result<usize, WireError>)
    requires
        pos <= buf@.len(),
    ensures
        (final(online_players)@, pos_of(r)) == remove_run(
            buf@,
            pos as nat,
            count_of(number_of_players),
            old(online_players)@,
        ),
{
    let mut i: i32 = 0;
    let mut p: usize = pos;
    while i < number_of_players
        invariant
            0 <= i,
            number_of_players >= 0 ==> i <= number_of_players,
            number_of_players < 0 ==> i == 0,
            p <= buf@.len(),
            remove_run(buf@, pos as nat, count_of(number_of_players), old(online_players)@)
                == remove_run(
                buf@,
                p as nat,
                (count_of(number_of_players) - i) as nat,
                online_players@,
            ),
        decreases number_of_players - i,
    {
        match read_uuid_at(buf, p) {
            Ok((id, q)) => {
                online_players.apply_remove(id);
                p = q;
                i = i + 1;
            },
            Err(e) => return Err(e),
        }
    }
    Ok(p)
}

/// Interprets a player_info body (the bytes after the packet ID) against the registry;
/// returns the position where the interpreted part ends.
pub fn player_info(buf: &[u8], online_players: &mut PlayerRegistry) -> (r: Result<usize, WireError>)
    ensures
        (final(online_players)@, pos_of(r)) == player_info_run(buf@, old(online_players)@),
{
    let (action, q1) = match read_varint_at(buf, 0) {
        Ok(x) => x,
        Err(e) => return Err(e),
    };
    let (number_of_players, q2) = match read_varint_at(buf, q1) {
        Ok(x) => x,
        Err(e) => return Err(e),
    };
    if action == 0 {
        update_player_list(buf, q2, number_of_players, online_players)
    } else if action == 4 {
        remove_from_online_players(buf, q2, number_of_players, online_players)
    } else {
        Ok(q2)
    }
}

} // verus!
