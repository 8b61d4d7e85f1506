use base64::Engine;
use crate::packet::{same_bytes, status_text, string_field};
use crate::varint::{lemma_varint_round_trip, unsigned_of, varint_encoding, WireError};
use crate::wire::{field_at, read_field_at, utf8_decoded};
use vstd::prelude::*;
use vstd::string::StringSliceAdditionalSpecFns;

verus! {

/// The bytes that base64 text decodes to (standard alphabet, padded), or `None` where
/// the text is not valid base64.
pub uninterp spec fn base64_decoded(text: Seq<u8>) -> Option<Seq<u8>>;

/// Relies on base64's `STANDARD.decode`: the bytes that the text decodes to, or an error
/// where it is not valid base64.
#[verifier::external_body]
fn decode_base64(text: &[u8]) -> (r: Option<Vec<u8>>)
    ensures
        match r {
            Some(v) => base64_decoded(text@) == Some(v@),
            None => base64_decoded(text@) == None::<Seq<u8>>,
        },
{
    base64::engine::general_purpose::STANDARD.decode(text).ok()
}

/// The text that opens the icon inside a status response.
pub open spec fn favicon_marker() -> Seq<u8> {
    "\"favicon\":\"data:image/png;base64,".spec_bytes()
}

/// The first position at or after `i` where `pat` occurs in `s`.
pub open spec fn find_from(s: Seq<u8>, pat: Seq<u8>, i: nat) -> Option<nat>
    decreases s.len() + 1 - i,
{
    if i + pat.len() > s.len() {
        None
    } else if s.subrange(i as int, (i + pat.len()) as int) == pat {
        Some(i)
    } else {
        find_from(s, pat, i + 1)
    }
}

/// The first position at or after `i` that holds the byte `b`.
pub open spec fn find_byte_from(s: Seq<u8>, b: u8, i: nat) -> Option<nat>
    decreases s.len() - i,
{
    if i >= s.len() {
        None
    } else if s[i as int] == b {
        Some(i)
    } else {
        find_byte_from(s, b, i + 1)
    }
}

/// The bounds of the base64 icon in a status JSON text: from the end of the first
/// marker to the next double quote.
pub open spec fn favicon_span(s: Seq<u8>) -> Option<(nat, nat)> {
    match find_from(s, favicon_marker(), 0) {
        None => None,
        Some(i) => match find_byte_from(s, 34, i + favicon_marker().len()) {
            None => None,
            Some(j) => Some((i + favicon_marker().len(), j)),
        },
    }
}

fn find_marker(s: &[u8], pat: &[u8]) -> (r: Option<usize>)
    requires
        pat@.len() > 0,
    ensures
        s@.len() <= usize::MAX,
        r matches Some(i) ==> i + pat@.len() <= s@.len(),
        match r {
            Some(i) => find_from(s@, pat@, 0) == Some(i as nat),
            None => find_from(s@, pat@, 0) is None,
        },
{
    let len: usize = s.len();
    let mut i: usize = 0;
    while i <= len && pat.len() <= len - i
        invariant
            i <= s@.len() + 1,
            pat@.len() > 0,
            len == s@.len(),
            find_from(s@, pat@, 0) == find_from(s@, pat@, i as nat),
        decreases s@.len() + 1 - i,
    {
        if same_bytes(&s[i..i + pat.len()], pat) {
            return Some(i);
        }
        i = i + 1;
    }
    None
}

fn find_quote(s: &[u8], from: usize) -> (r: Option<usize>)
    ensures
        r matches Some(j) ==> from <= j < s@.len(),
        match r {
            Some(j) => find_byte_from(s@, 34, from as nat) == Some(j as nat),
            None => find_byte_from(s@, 34, from as nat) is None,
        },
{
    let len: usize = s.len();
    let mut i: usize = from;
    while i < len
        invariant
            from <= i,
            len == s@.len(),
            find_byte_from(s@, 34, from as nat) == find_byte_from(s@, 34, i as nat),
        decreases s@.len() - i,
    {
        if s[i] == 34 {
            return Some(i);
        }
        i = i + 1;
    }
    None
}

/// The icon that a status JSON text (as bytes) carries: the base64 text from the end of
/// the first marker to the next double quote, decoded.
pub open spec fn favicon_of(s: Seq<u8>) -> Option<Seq<u8>> {
    match favicon_span(s) {
        Some((a, b)) => base64_decoded(s.subrange(a as int, b as int)),
        None => None,
    }
}

/// Optional bytes, seen as a sequence.
pub open spec fn opt_bytes(r: Option<Vec<u8>>) -> Option<Seq<u8>> {
    match r {
        Some(v) => Some(v@),
        None => None,
    }
}

fn favicon_in(s: &[u8]) -> (r: Option<Vec<u8>>)
    ensures
        opt_bytes(r) == favicon_of(s@),
{
    let marker = "\"favicon\":\"data:image/png;base64,".as_bytes();
    proof {
        reveal_strlit("\"favicon\":\"data:image/png;base64,");
    }
    let i = match find_marker(s, marker) {
        Some(i) => i,
        None => return None,
    };
    let start = i + marker.len();
    let end = match find_quote(s, start) {
        Some(j) => j,
        None => return None,
    };
    let text = &s[start..end];
        assert(marker@ == favicon_marker());
    assert(find_from(s@, favicon_marker(), 0) == Some(i as nat));
    assert(find_byte_from(s@, 34, (i + favicon_marker().len()) as nat) == Some(end as nat));
    assert(favicon_span(s@) == Some((start as nat, end as nat)));
    assert(text@ == s@.subrange(start as int, end as int));
    decode_base64(text)
}

/// Extracts and decodes the server icon from a status JSON text, when the text holds one.
pub fn favicon_png(json: &str) -> (r: Option<Vec<u8>>)
    ensures
        opt_bytes(r) == favicon_of(json.spec_bytes()),
{
    favicon_in(json.as_bytes())
}

/// Extracts and decodes the server icon from a status response body (the bytes after the
/// packet ID): the icon of the JSON text that the body's field holds.
pub fn status_favicon(body: &[u8]) -> (r: Option<Vec<u8>>)
    ensures
        match field_at(body@, 0) {
            Ok((a, b)) => opt_bytes(r) == favicon_of(body@.subrange(a as int, b as int)),
            Err(_) => r is None,
        },
{
    match read_field_at(body, 0) {
        Ok((a, b)) => favicon_in(&body[a..b]),
        Err(_) => None,
    }
}

proof fn lemma_find_first(s: Seq<u8>, pat: Seq<u8>, at: nat, k: nat)
    requires
        k <= at,
        at + pat.len() <= s.len(),
        s.subrange(at as int, (at + pat.len()) as int) == pat,
        forall|i: int| k <= i < at ==> #[trigger] s.subrange(i, i + pat.len()) != pat,
    ensures
        find_from(s, pat, k) == Some(at),
    decreases at - k,
{
    if k < at {
        assert(s.subrange(k as int, (k + pat.len()) as int) != pat);
        lemma_find_first(s, pat, at, k + 1);
    }
}

proof fn lemma_find_quote(s: Seq<u8>, k: nat, end: nat)
    requires
        k <= end < s.len(),
        s[end as int] == 34,
        forall|i: int| k <= i < end ==> s[i] != 34,
    ensures
        find_byte_from(s, 34, k) == Some(end),
    decreases end - k,
{
    if k < end {
        lemma_find_quote(s, k + 1, end);
    }
}

/// A status response whose JSON text `j` carries an icon, written as `pre`, the marker,
/// the base64 text `b64` (without a double quote), a double quote and `post`, where the
/// marker does not occur earlier: the body reads back as `j`, and its icon is exactly the
/// decoding of `b64`.
pub proof fn lemma_status_favicon(pre: Seq<u8>, b64: Seq<u8>, post: Seq<u8>, rest: Seq<u8>)
    requires
        forall|i: int|
            0 <= i < pre.len() ==> #[trigger] (pre + favicon_marker()).subrange(
                i,
                i + favicon_marker().len(),
            ) != favicon_marker(),
        forall|i: int| 0 <= i < b64.len() ==> b64[i] != 34,
        pre.len() + favicon_marker().len() + b64.len() + 1 + post.len() <= 0x7FFF_FFFF,
    ensures
        ({
            let j = pre + favicon_marker() + b64 + seq![34u8] + post;
            let body = string_field(j) + rest;
            &&& (field_at(body, 0) matches Ok((a, b)) && body.subrange(a as int, b as int) == j)
            &&& status_text(body) == match utf8_decoded(j) {
                Some(t) => Ok::<Seq<char>, WireError>(t),
                None => Err(WireError::DecodeError),
            }
            &&& favicon_of(j) == base64_decoded(b64)
        }),
{
    let m = favicon_marker();
    let j = pre + m + b64 + seq![34u8] + post;
    let body = string_field(j) + rest;
    let at = pre.len();
    assert(j.subrange(at as int, (at + m.len()) as int) =~= m);
    assert forall|i: int| 0 <= i < at implies #[trigger] j.subrange(i, i + m.len()) != m by {
        assert(j.subrange(i, i + m.len()) =~= (pre + m).subrange(i, i + m.len()));
    }
    lemma_find_first(j, m, at, 0);
    let start = at + m.len();
    let end = start + b64.len();
    assert(j[end as int] == 34);
    assert forall|i: int| start <= i < end implies j[i] != 34 by {
        assert(j[i] == b64[i - start]);
    }
    lemma_find_quote(j, start, end);
    assert(j.subrange(start as int, end as int) =~= b64);
    let ln = j.len() as i32;
    assert(unsigned_of(ln) == j.len());
    lemma_varint_round_trip(ln, j + rest);
    assert(body =~= varint_encoding(j.len()) + (j + rest));
    assert(body.skip(0) =~= body);
    let k = varint_encoding(j.len()).len();
    assert(body.subrange(k as int, (k + j.len()) as int) =~= j);
}

} // verus!
