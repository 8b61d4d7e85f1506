use vstd::prelude::*;

verus! {

/// Errors raised while decoding the wire format.
#[derive(Debug, Clone, Copy, PartialEq, Eq, Structural)]
pub enum WireError {
    /// A VarInt did not end within five bytes.
    MalformedVarInt,
    /// The input ended before a field was complete.
    Truncated,
    /// A length was negative or a text field was not valid UTF-8.
    DecodeError,
    /// A pong did not echo the payload of the ping.
    ProtocolMismatch,
}

pub open spec fn pow128(k: nat) -> nat
    decreases k,
{
    if k == 0 { 1 } else { 128 * pow128((k - 1) as nat) }
}

/// The unsigned 32-bit reading of a signed value (two's complement).
pub open spec fn unsigned_of(v: i32) -> nat {
    if v >= 0 { v as nat } else { (v + 0x1_0000_0000) as nat }
}

/// The signed 32-bit value whose two's-complement bits are the low 32 bits of `x`.
pub open spec fn wrap_i32(x: nat) -> i32 {
    let m = x % 0x1_0000_0000;
    if m < 0x8000_0000 { m as i32 } else { (m - 0x1_0000_0000) as i32 }
}

/// Base-128 digits of `u`, least significant first, with the continuation bit on
/// every byte but the last.
pub open spec fn varint_encoding(u: nat) -> Seq<u8>
    decreases u,
{
    if u < 128 {
        seq![u as u8]
    } else {
        seq![(u % 128 + 128) as u8] + varint_encoding(u / 128)
    }
}

/// The value that the 7-bit groups of `s` spell, first byte least significant.
pub open spec fn varint_sum(s: Seq<u8>) -> nat
    decreases s.len(),
{
    if s.len() == 0 {
        0
    } else {
        (s[0] % 128) as nat + 128 * varint_sum(s.drop_first())
    }
}

/// Number of bytes of the VarInt at the front of `s`, reading at most `budget` bytes.
pub open spec fn varint_scan(s: Seq<u8>, budget: nat) -> Result<nat, WireError>
    decreases budget,
{
    if budget == 0 {
        Err(WireError::MalformedVarInt)
    } else if s.len() == 0 {
        Err(WireError::Truncated)
    } else if s[0] < 128 {
        Ok(1)
    } else {
        match varint_scan(s.drop_first(), (budget - 1) as nat) {
            Ok(n) => Ok(n + 1),
            Err(e) => Err(e),
        }
    }
}

/// The VarInt at the front of `s`: its value and how many bytes it takes.
pub open spec fn varint_decode(s: Seq<u8>) -> Result<(i32, nat), WireError> {
    match varint_scan(s, 5) {
        Ok(n) => Ok((wrap_i32(varint_sum(s.take(n as int))), n)),
        Err(e) => Err(e),
    }
}


/// Adds `k` to the length carried by a scan result.
pub open spec fn add_len(r: Result<nat, WireError>, k: nat) -> Result<nat, WireError> {
    match r {
        Ok(n) => Ok(n + k),
        Err(e) => Err(e),
    }
}

proof fn lemma_sum_take_step(s: Seq<u8>, i: nat)
    requires
        i < s.len(),
    ensures
        varint_sum(s.take(i as int + 1)) == varint_sum(s.take(i as int)) + (s[i as int] % 128) as nat
            * pow128(i),
    decreases i,
{
    if i == 0 {
        assert(s.take(1).drop_first() =~= Seq::<u8>::empty());
        assert(s.take(0) =~= Seq::<u8>::empty());
        assert(varint_sum(Seq::<u8>::empty()) == 0);
        assert(s.take(1)[0] == s[0]);
        assert(pow128(0) == 1);
    } else {
        let t = s.drop_first();
        lemma_sum_take_step(t, (i - 1) as nat);
        assert(s.take(i as int + 1).drop_first() =~= t.take(i as int));
        assert(s.take(i as int).drop_first() =~= t.take(i - 1));
        assert(t[i - 1] == s[i as int]);
        assert(s.take(i as int + 1)[0] == s[0] && s.take(i as int)[0] == s[0]);
        assert(varint_sum(s.take(i as int + 1)) == (s[0] % 128) as nat + 128 * varint_sum(t.take(i as int)));
        assert(varint_sum(s.take(i as int)) == (s[0] % 128) as nat + 128 * varint_sum(t.take(i - 1)));
        let d = (s[i as int] % 128) as nat;
        assert(128 * (varint_sum(t.take(i - 1)) + d * pow128((i - 1) as nat)) == 128
            * varint_sum(t.take(i - 1)) + d * (128 * pow128((i - 1) as nat))) by (nonlinear_arith);
    }
}

/// Decodes the VarInt that starts at `pos` in `buf`; on success returns its value and
/// the number of bytes it takes.
pub fn decode_varint(buf: &[u8], pos: usize) -> (r: Result<(i32, usize), WireError>)
    requires
        pos <= buf@.len(),
    ensures
        match varint_decode(buf@.skip(pos as int)) {
            Ok((v, n)) => n <= 5 && pos + n <= buf@.len() <= usize::MAX && r == Ok::<(i32, usize), WireError>(
                (v, n as usize),
            ),
            Err(e) => r == Err::<(i32, usize), WireError>(e),
        },
{
    let ghost s = buf@.skip(pos as int);
    let len: usize = buf.len();
    let mut i: usize = 0;
    let mut value: u64 = 0;
    let mut mult: u64 = 1;
    proof {
        assert(s.skip(0) =~= s);
        assert(s.take(0) =~= Seq::<u8>::empty());
    }
    loop
        invariant
            i < 5,
            pos <= buf@.len(),
            i <= s.len(),
            len == buf@.len(),
            s == buf@.skip(pos as int),
            mult == pow128(i as nat),
            value == varint_sum(s.take(i as int)),
            value < pow128(i as nat),
            varint_scan(s, 5) == add_len(varint_scan(s.skip(i as int), (5 - i) as nat), i as nat),
        decreases 5 - i,
    {
        if i >= len - pos {
            proof {
                assert(s.skip(i as int).len() == 0);
            }
            return Err(WireError::Truncated);
        }
        let b: u8 = buf[pos + i];
        let ghost t = s.skip(i as int);
        assert(t[0] == b);
        proof {
            lemma_sum_take_step(s, i as nat);
            let d = (b % 128) as nat;
            assert(d * pow128(i as nat) <= 127 * pow128(i as nat)) by (nonlinear_arith)
                requires d <= 127;
            assert(pow128(i as nat + 1) == 128 * pow128(i as nat));
            reveal_with_fuel(pow128, 6);
            assert(pow128(5) == 34359738368);
            if i < 4 {
                lemma_pow128_mono(i as nat + 1, 4);
            }
        }
        value = value + ((b % 128) as u64) * mult;
        if b < 128 {
            let n: usize = i + 1;
            let m: u64 = value % 4294967296;
            let v: i32 = if m < 2147483648 { m as i32 } else { (m as i64 - 4294967296) as i32 };
            return Ok((v, n));
        }
        proof {
            assert(t.drop_first() =~= s.skip(i as int + 1));
        }
        if i == 4 {
            assert(varint_scan(s.skip(5), 0) == Err::<nat, WireError>(WireError::MalformedVarInt));
            return Err(WireError::MalformedVarInt);
        }
        mult = mult * 128;
        i = i + 1;
    }
}

proof fn lemma_malformed_scan_len(s: Seq<u8>, k: nat)
    requires
        varint_scan(s, k) == Err::<nat, WireError>(WireError::MalformedVarInt),
    ensures
        s.len() >= k,
    decreases k,
{
    if k > 0 {
        lemma_malformed_scan_len(s.drop_first(), (k - 1) as nat);
    }
}

/// Removes the first `n` bytes of `bytes`.
fn drop_front(bytes: &mut Vec<u8>, n: usize)
    requires
        n <= old(bytes)@.len(),
    ensures
        final(bytes)@ == old(bytes)@.skip(n as int),
{
    let mut rest: Vec<u8> = Vec::new();
    let mut i: usize = n;
    while i < bytes.len()
        invariant
            n <= i <= bytes@.len(),
            rest@ == bytes@.subrange(n as int, i as int),
        decreases bytes@.len() - i,
    {
        rest.push(bytes[i]);
        i = i + 1;
        assert(rest@ =~= bytes@.subrange(n as int, i as int));
    }
    assert(rest@ =~= bytes@.skip(n as int));
    *bytes = rest;
}

/// Reads the VarInt at the front of `bytes` and removes the bytes it read: on success
/// the bytes of the VarInt, on a malformed VarInt the five bytes read before a sixth
/// would have been needed. Where the bytes end too early, `bytes` is left as it was.
pub fn varint_read(bytes: &mut Vec<u8>) -> (r: Result<i32, WireError>)
    ensures
        match varint_decode(old(bytes)@) {
            Ok((v, n)) => r == Ok::<i32, WireError>(v) && final(bytes)@ == old(bytes)@.skip(n as int),
            Err(e) => r == Err::<i32, WireError>(e) && final(bytes)@ == if e
                == WireError::MalformedVarInt {
                old(bytes)@.skip(5)
            } else {
                old(bytes)@
            },
        },
{
    proof {
        assert(bytes@.skip(0) =~= bytes@);
    }
    match decode_varint(bytes.as_slice(), 0) {
        Ok((v, n)) => {
            drop_front(bytes, n);
            Ok(v)
        },
        Err(WireError::MalformedVarInt) => {
            proof {
                lemma_malformed_scan_len(bytes@, 5);
            }
            drop_front(bytes, 5);
            Err(WireError::MalformedVarInt)
        },
        Err(e) => Err(e),
    }
}

/// A read takes one to five bytes off the front of the input, on success and on a
/// malformed VarInt alike.
pub proof fn lemma_varint_read_takes_a_short_prefix(s: Seq<u8>)
    ensures
        match varint_decode(s) {
            Ok((_, n)) => 1 <= n <= 5 && n <= s.len(),
            Err(e) => e == WireError::MalformedVarInt ==> s.len() >= 5,
        },
{
    match varint_scan(s, 5) {
        Ok(n) => lemma_scan_ok_len(s, 5),
        Err(e) => if e == WireError::MalformedVarInt {
            lemma_malformed_scan_len(s, 5);
        },
    }
}

proof fn lemma_scan_ok_len(s: Seq<u8>, k: nat)
    ensures
        varint_scan(s, k) matches Ok(n) ==> 1 <= n <= k && n <= s.len(),
    decreases k,
{
    if k > 0 && s.len() > 0 && s[0] >= 128 {
        lemma_scan_ok_len(s.drop_first(), (k - 1) as nat);
    }
}

/// Encodes `value` as a VarInt: the 32 bits of `value`, read as unsigned, in groups
/// of seven, least significant first.
pub fn varint_write(value: i32) -> (r: Vec<u8>)
    ensures
        r@ == varint_encoding(unsigned_of(value)),
{
    let mut u: u32 = if value >= 0 {
        value as u32
    } else {
        (value as i64 + 4294967296) as u32
    };
    let mut res: Vec<u8> = Vec::new();
    proof {
        assert(res@ + varint_encoding(u as nat) =~= varint_encoding(u as nat));
    }
    while u >= 128
        invariant
            res@ + varint_encoding(u as nat) == varint_encoding(unsigned_of(value)),
        decreases u,
    {
        let ghost prev = res@;
        let b: u8 = (u % 128 + 128) as u8;
        res.push(b);
        u = u / 128;
        proof {
            assert(prev + varint_encoding((u * 128 + b - 128) as nat) =~= res@ + varint_encoding(
                u as nat,
            ));
        }
    }
    res.push(u as u8);
    proof {
        assert(varint_encoding(u as nat) == seq![u as u8]);
    }
    res
}

proof fn lemma_scan_encoding(u: nat, k: nat, rest: Seq<u8>)
    requires
        k >= 1,
        u < pow128(k),
    ensures
        varint_scan(varint_encoding(u) + rest, k) == Ok::<nat, WireError>(varint_encoding(u).len()),
    decreases u,
{
    let e = varint_encoding(u);
    if u >= 128 {
        let k1 = (k - 1) as nat;
        if k1 == 0 {
            assert(pow128(1) == 128) by {
                reveal_with_fuel(pow128, 2);
            }
        }
        assert(u / 128 < pow128(k1)) by (nonlinear_arith)
            requires
                u < 128 * pow128(k1),
        ;
        lemma_scan_encoding(u / 128, k1, rest);
        assert((e + rest).drop_first() =~= varint_encoding(u / 128) + rest);
    } else {
        assert((e + rest)[0] == e[0]);
    }
}

/// An encoding of a number below `128^k` takes at most `k` bytes, and never none.
pub proof fn lemma_encoding_len(u: nat, k: nat)
    requires
        k >= 1,
        u < pow128(k),
    ensures
        1 <= varint_encoding(u).len() <= k,
    decreases u,
{
    if u >= 128 {
        let k1 = (k - 1) as nat;
        if k1 == 0 {
            assert(pow128(1) == 128) by {
                reveal_with_fuel(pow128, 2);
            }
        }
        assert(u / 128 < pow128(k1)) by (nonlinear_arith)
            requires
                u < 128 * pow128(k1),
        ;
        lemma_encoding_len(u / 128, k1);
    }
}

proof fn lemma_sum_encoding(u: nat)
    ensures
        varint_sum(varint_encoding(u)) == u,
    decreases u,
{
    let e = varint_encoding(u);
    if u < 128 {
        assert(e.drop_first() =~= Seq::<u8>::empty());
        assert(varint_sum(Seq::<u8>::empty()) == 0);
        assert(e[0] == u);
    } else {
        lemma_sum_encoding(u / 128);
        assert(e.drop_first() =~= varint_encoding(u / 128));
        assert(e[0] == (u % 128 + 128) as u8);
        assert((e[0] % 128) as nat == u % 128);
        assert(u == 128 * (u / 128) + u % 128);
    }
}

/// Decoding the encoding of any `i32`, whatever bytes follow it, gives the value back
/// and takes exactly the bytes of the encoding.
pub proof fn lemma_varint_round_trip(v: i32, rest: Seq<u8>)
    ensures
        varint_decode(varint_encoding(unsigned_of(v)) + rest) == Ok::<(i32, nat), WireError>(
            (v, varint_encoding(unsigned_of(v)).len()),
        ),
{
    let u = unsigned_of(v);
    let e = varint_encoding(u);
    reveal_with_fuel(pow128, 6);
    lemma_scan_encoding(u, 5, rest);
    lemma_sum_encoding(u);
    assert((e + rest).take(e.len() as int) =~= e);
}

/// A VarInt whose first five bytes all carry the continuation bit, so that a sixth
/// would be needed, is malformed.
pub proof fn lemma_varint_sixth_byte_malformed(s: Seq<u8>)
    requires
        s.len() >= 5,
        forall|j: int| 0 <= j < 5 ==> s[j] >= 128,
    ensures
        varint_decode(s) == Err::<(i32, nat), WireError>(WireError::MalformedVarInt),
{
    let s1 = s.drop_first();
    let s2 = s1.drop_first();
    let s3 = s2.drop_first();
    let s4 = s3.drop_first();
    let s5 = s4.drop_first();
    assert(s1[0] == s[1] && s2[0] == s[2] && s3[0] == s[3] && s4[0] == s[4]);
    assert(varint_scan(s5, 0) == Err::<nat, WireError>(WireError::MalformedVarInt));
    assert(varint_scan(s4, 1) == Err::<nat, WireError>(WireError::MalformedVarInt));
    assert(varint_scan(s3, 2) == Err::<nat, WireError>(WireError::MalformedVarInt));
    assert(varint_scan(s2, 3) == Err::<nat, WireError>(WireError::MalformedVarInt));
    assert(varint_scan(s1, 4) == Err::<nat, WireError>(WireError::MalformedVarInt));
}

proof fn lemma_pow128_mono(a: nat, b: nat)
    requires
        a <= b,
    ensures
        pow128(a) <= pow128(b),
    decreases b,
{
    if a < b {
        lemma_pow128_mono(a, (b - 1) as nat);
    }
}

} // verus!
