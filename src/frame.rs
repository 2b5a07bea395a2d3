//! Encoding of message bodies into frames, and the spec-level model of the
//! four-byte big-endian length header.

use vstd::prelude::*;

verus! {

/// The largest body a frame can carry: its length must fit in the 32-bit header.
pub const MAX_BODY_LEN: usize = 0xffff_ffff;

/// The four big-endian bytes of `n`, for `n < 2^32`.
pub open spec fn be_u32_bytes(n: nat) -> Seq<u8> {
    seq![
        (n / 0x100_0000) as u8,
        ((n / 0x1_0000) % 0x100) as u8,
        ((n / 0x100) % 0x100) as u8,
        (n % 0x100) as u8,
    ]
}

/// The number that the first four bytes of `s` spell in big-endian order.
pub open spec fn be_u32_value(s: Seq<u8>) -> nat
    recommends
        s.len() >= 4,
{
    s[0] as nat * 0x100_0000 + s[1] as nat * 0x1_0000 + s[2] as nat * 0x100 + s[3] as nat
}

/// The wire form of a message body: its length as a big-endian `u32`, then the body.
pub open spec fn frame_of(body: Seq<u8>) -> Seq<u8> {
    be_u32_bytes(body.len()) + body
}

/// Reading back the header of a length gives that length.
pub proof fn lemma_be_u32_round_trip(n: nat)
    requires
        n <= MAX_BODY_LEN,
    ensures
        be_u32_bytes(n).len() == 4,
        be_u32_value(be_u32_bytes(n)) == n,
{
    let b = be_u32_bytes(n);
    assert(b[0] as nat == n / 0x100_0000);
    assert(b[1] as nat == (n / 0x1_0000) % 0x100);
    assert(b[2] as nat == (n / 0x100) % 0x100);
    assert(b[3] as nat == n % 0x100);
    assert(be_u32_value(b) == n) by (nonlinear_arith)
        requires
            n <= 0xffff_ffff,
            b[0] as nat == n / 0x100_0000,
            b[1] as nat == (n / 0x1_0000) % 0x100,
            b[2] as nat == (n / 0x100) % 0x100,
            b[3] as nat == n % 0x100,
            be_u32_value(b) == b[0] as nat * 0x100_0000 + b[1] as nat * 0x1_0000 + b[2] as nat * 0x100 + b[3] as nat,
    ;
}

/// The header of the length that four bytes spell is those four bytes.
pub proof fn lemma_be_u32_bytes_of_value(s: Seq<u8>)
    requires
        s.len() >= 4,
    ensures
        be_u32_value(s) <= MAX_BODY_LEN,
        be_u32_bytes(be_u32_value(s)) == s.take(4),
{
    let n = be_u32_value(s);
    let (b0, b1, b2, b3) = (s[0] as nat, s[1] as nat, s[2] as nat, s[3] as nat);
    assert(n <= 0xffff_ffff && n / 0x100_0000 == b0 && (n / 0x1_0000) % 0x100 == b1
        && (n / 0x100) % 0x100 == b2 && n % 0x100 == b3) by (nonlinear_arith)
        requires
            b0 < 0x100,
            b1 < 0x100,
            b2 < 0x100,
            b3 < 0x100,
            n == b0 * 0x100_0000 + b1 * 0x1_0000 + b2 * 0x100 + b3,
    ;
    assert(be_u32_bytes(n) =~= s.take(4));
}

/// Prefixes `message` with its length as a big-endian `u32`.
///
/// A body longer than `MAX_BODY_LEN` has no frame; callers must not ask for one.
pub fn add_headers(message: &[u8]) -> (r: Vec<u8>)
    requires
        message@.len() <= MAX_BODY_LEN,
    ensures
        r@ == frame_of(message@),
{
    let length = message.len() as u32;
    let mut new_message: Vec<u8> = Vec::with_capacity(4);
    new_message.push((length / 0x100_0000) as u8);
    new_message.push(((length / 0x1_0000) % 0x100) as u8);
    new_message.push(((length / 0x100) % 0x100) as u8);
    new_message.push((length % 0x100) as u8);
    new_message.extend_from_slice(message);
    assert(new_message@ =~= frame_of(message@));
    new_message
}

/// Splits a buffer that starts with a header into the declared length and the
/// bytes that follow the header.
pub fn parse_headers(message: Vec<u8>) -> (r: (u32, Vec<u8>))
    requires
        message@.len() >= 4,
    ensures
        r.0 as nat == be_u32_value(message@),
        r.1@ == message@.skip(4),
{
    let b0 = message[0] as u32;
    let b1 = message[1] as u32;
    let b2 = message[2] as u32;
    let b3 = message[3] as u32;
    assert(b0 * 0x100_0000 + b1 * 0x1_0000 + b2 * 0x100 + b3 <= 0xffff_ffff) by (nonlinear_arith)
        requires
            b0 <= 0xff,
            b1 <= 0xff,
            b2 <= 0xff,
            b3 <= 0xff,
    ;
    let length = b0 * 0x100_0000 + b1 * 0x1_0000 + b2 * 0x100 + b3;
    let mut head = message;
    let body = head.split_off(4);
    assert(body@ =~= message@.skip(4));
    (length, body)
}

} // verus!
