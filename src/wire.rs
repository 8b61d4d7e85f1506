use crate::varint::{decode_varint, varint_decode, WireError};
use vstd::prelude::*;
use vstd::utf8::{decode_utf8, valid_utf8};

verus! {

/// The text that a byte sequence spells as UTF-8, or `None` where it is not valid UTF-8.
pub open spec fn utf8_decoded(b: Seq<u8>) -> Option<Seq<char>> {
    if valid_utf8(b) {
        Some(decode_utf8(b))
    } else {
        None
    }
}

/// Relies on `String::from_utf8`: the text that the bytes spell, when they are valid UTF-8.
#[verifier::external_body]
pub(crate) fn utf8_text(b: &[u8]) -> (r: Option<String>)
    ensures
        match r {
            Some(t) => utf8_decoded(b@) == Some(t@),
            None => utf8_decoded(b@) == None::<Seq<char>>,
        },
{
    String::from_utf8(b.to_vec()).ok()
}

/// The VarInt at position `p` of `s`, and the position after it.
pub open spec fn varint_at(s: Seq<u8>, p: nat) -> Result<(i32, nat), WireError> {
    match varint_decode(s.skip(p as int)) {
        Ok((v, n)) => Ok((v, p + n)),
        Err(e) => Err(e),
    }
}

/// The bounds `(start, end)` of the length-prefixed field at position `p` of `s`.
pub open spec fn field_at(s: Seq<u8>, p: nat) -> Result<(nat, nat), WireError> {
    match varint_at(s, p) {
        Ok((len, q)) => if len < 0 {
            Err(WireError::DecodeError)
        } else if q + len > s.len() {
            Err(WireError::Truncated)
        } else {
            Ok((q, (q + len) as nat))
        },
        Err(e) => Err(e),
    }
}

/// The unsigned big-endian number that `s` spells.
pub open spec fn be_value(s: Seq<u8>) -> nat
    decreases s.len(),
{
    if s.len() == 0 {
        0
    } else {
        be_value(s.drop_last()) * 256 + s.last() as nat
    }
}

/// The 128-bit identity at position `p` of `s`, and the position after it.
pub open spec fn uuid_at(s: Seq<u8>, p: nat) -> Result<(u128, nat), WireError> {
    if p + 16 > s.len() {
        Err(WireError::Truncated)
    } else {
        Ok((be_value(s.subrange(p as int, p + 16int)) as u128, p + 16))
    }
}

/// Reads the VarInt at `pos`; on success returns it and the position after it.
pub fn read_varint_at(buf: &[u8], pos: usize) -> (r: Result<(i32, usize), WireError>)
    requires
        pos <= buf@.len(),
    ensures
        match r {
            Ok((v, q)) => varint_at(buf@, pos as nat) == Ok::<(i32, nat), WireError>((v, q as nat))
                && q <= buf@.len(),
            Err(e) => varint_at(buf@, pos as nat) == Err::<(i32, nat), WireError>(e),
        },
{
    match decode_varint(buf, pos) {
        Ok((v, n)) => Ok((v, pos + n)),
        Err(e) => Err(e),
    }
}

/// Reads the length prefix of the field at `pos`; returns the field's bounds.
pub fn read_field_at(buf: &[u8], pos: usize) -> (r: Result<(usize, usize), WireError>)
    requires
        pos <= buf@.len(),
    ensures
        match r {
            Ok((a, b)) => field_at(buf@, pos as nat) == Ok::<(nat, nat), WireError>(
                (a as nat, b as nat),
            ) && a <= b <= buf@.len(),
            Err(e) => field_at(buf@, pos as nat) == Err::<(nat, nat), WireError>(e),
        },
{
    let (len, q) = match read_varint_at(buf, pos) {
        Ok(x) => x,
        Err(e) => return Err(e),
    };
    if len < 0 {
        return Err(WireError::DecodeError);
    }
    if len as usize > buf.len() - q {
        return Err(WireError::Truncated);
    }
    Ok((q, q + len as usize))
}

proof fn lemma_be_value_bound(s: Seq<u8>)
    ensures
        be_value(s) < pow256(s.len()),
    decreases s.len(),
{
    if s.len() > 0 {
        lemma_be_value_bound(s.drop_last());
        let a = be_value(s.drop_last());
        let k = pow256((s.len() - 1) as nat);
        assert(a * 256 + (s.last() as nat) < 256 * k) by (nonlinear_arith)
            requires
                a < k,
                s.last() < 256,
        ;
    }
}

pub open spec fn pow256(k: nat) -> nat
    decreases k,
{
    if k == 0 { 1 } else { 256 * pow256((k - 1) as nat) }
}

/// Reads the big-endian 128-bit identity at `pos`.
pub fn read_uuid_at(buf: &[u8], pos: usize) -> (r: Result<(u128, usize), WireError>)
    requires
        pos <= buf@.len(),
    ensures
        match r {
            Ok((v, q)) => uuid_at(buf@, pos as nat) == Ok::<(u128, nat), WireError>((v, q as nat))
                && q <= buf@.len(),
            Err(e) => uuid_at(buf@, pos as nat) == Err::<(u128, nat), WireError>(e),
        },
{
    if buf.len() - pos < 16 {
        return Err(WireError::Truncated);
    }
    let mut acc: u128 = 0;
    let mut i: usize = 0;
    while i < 16
        invariant
            i <= 16,
            pos + 16 <= buf@.len() <= usize::MAX,
            acc == be_value(buf@.subrange(pos as int, pos + i)),
        decreases 16 - i,
    {
        let ghost t = buf@.subrange(pos as int, pos + i + 1);
        proof {
            assert(t.drop_last() =~= buf@.subrange(pos as int, pos + i));
            lemma_be_value_bound(buf@.subrange(pos as int, pos + i));
            lemma_pow256_mono(i as nat, 15);
            reveal_with_fuel(pow256, 16);
            assert(pow256(15) == 0x1_0000_0000_0000_0000_0000_0000_0000_00);
            assert(acc * 256 + 255 < 0x1_0000_0000_0000_0000_0000_0000_0000_0000) by (nonlinear_arith)
                requires
                    acc < 0x1_0000_0000_0000_0000_0000_0000_0000_00,
            ;
        }
        let b: u8 = buf[pos + i];
        acc = acc * 256 + b as u128;
        i = i + 1;
    }
    Ok((acc, pos + 16))
}

proof fn lemma_pow256_mono(a: nat, b: nat)
    requires
        a <= b,
    ensures
        pow256(a) <= pow256(b),
    decreases b,
{
    if a < b {
        lemma_pow256_mono(a, (b - 1) as nat);
    }
}

} // verus!
