//! Wire-level building blocks: little-endian integers and framed messages.
//!
//! Every message starts with a four-byte header, a 16-bit message id followed by a 16-bit payload
//! length, and goes on with that many payload bytes.
use vstd::prelude::*;

verus! {

/// The number of bytes of a message header.
pub const HEADER_LEN: usize = 4;

/// The little-endian 16-bit integer at offset `at` of `s`.
pub open spec fn le_u16(s: Seq<u8>, at: int) -> int {
    s[at] + 0x100 * s[at + 1]
}

/// The little-endian 32-bit integer at offset `at` of `s`.
pub open spec fn le_u32(s: Seq<u8>, at: int) -> int {
    s[at] + 0x100 * s[at + 1] + 0x1_0000 * s[at + 2] + 0x100_0000 * s[at + 3]
}

/// The two bytes that carry `n`, least significant first.
pub open spec fn u16_bytes(n: int) -> Seq<u8> {
    seq![(n % 0x100) as u8, (n / 0x100 % 0x100) as u8]
}

/// The four bytes that carry `n`, least significant first.
pub open spec fn u32_bytes(n: int) -> Seq<u8> {
    seq![
        (n % 0x100) as u8,
        (n / 0x100 % 0x100) as u8,
        (n / 0x1_0000 % 0x100) as u8,
        (n / 0x100_0000 % 0x100) as u8,
    ]
}

/// The id that the header of `s` announces.
pub open spec fn message_id(s: Seq<u8>) -> int {
    le_u16(s, 0)
}

/// The payload length that the header of `s` announces.
pub open spec fn payload_len(s: Seq<u8>) -> int {
    le_u16(s, 2)
}

/// Whether `s` holds a whole header and all the payload bytes that it announces.
pub open spec fn is_complete(s: Seq<u8>) -> bool {
    s.len() >= HEADER_LEN && s.len() >= HEADER_LEN + payload_len(s)
}

/// The payload of the message at the start of `s`.
pub open spec fn payload(s: Seq<u8>) -> Seq<u8> {
    s.subrange(HEADER_LEN as int, HEADER_LEN + payload_len(s))
}

/// The bytes of the message with the given id and payload.
pub open spec fn framed(id: u16, body: Seq<u8>) -> Seq<u8> {
    u16_bytes(id as int) + u16_bytes(body.len() as int) + body
}

/// Reads the little-endian 16-bit integer at offset `at`.
pub fn read_u16(s: &[u8], at: usize) -> (r: u16)
    requires
        at + 2 <= s@.len(),
    ensures
        r == le_u16(s@, at as int),
        r == s@[at as int] + 256 * s@[at + 1],
{
    s[at] as u16 + 0x100 * (s[at + 1] as u16)
}

/// Reads the little-endian 32-bit integer at offset `at`.
pub fn read_u32(s: &[u8], at: usize) -> (r: u32)
    requires
        at + 4 <= s@.len(),
    ensures
        r == le_u32(s@, at as int),
        r == s@[at as int] + 256 * (s@[at + 1] + 256 * (s@[at + 2] + 256 * s@[at + 3])),
{
    s[at] as u32 + 0x100 * (s[at + 1] as u32) + 0x1_0000 * (s[at + 2] as u32) + 0x100_0000 * (
    s[at + 3] as u32)
}

/// Reading a 16-bit integer gives back what was written, wherever it stands.
pub proof fn law_u16_reads_back(n: u16, before: Seq<u8>, after: Seq<u8>)
    ensures
        le_u16(before + u16_bytes(n as int) + after, before.len() as int) == n,
{
    let s = before + u16_bytes(n as int) + after;
    let at = before.len() as int;
    assert(s[at] == u16_bytes(n as int)[0]);
    assert(s[at + 1] == u16_bytes(n as int)[1]);
}

/// The four bytes that carry `n` make up `n`.
proof fn lemma_four_bytes(n: int)
    requires
        0 <= n <= u32::MAX,
    ensures
        n == n % 0x100 + 0x100 * (n / 0x100 % 0x100) + 0x1_0000 * (n / 0x1_0000 % 0x100) + 0x100_0000
            * (n / 0x100_0000 % 0x100),
{
    assert(n / 0x100 / 0x100 == n / 0x1_0000);
    assert(n / 0x1_0000 / 0x100 == n / 0x100_0000);
}

/// Reading a 32-bit integer gives back what was written, wherever it stands.
pub proof fn law_u32_reads_back(n: u32, before: Seq<u8>, after: Seq<u8>)
    ensures
        le_u32(before + u32_bytes(n as int) + after, before.len() as int) == n,
{
    let s = before + u32_bytes(n as int) + after;
    let at = before.len() as int;
    lemma_four_bytes(n as int);
    assert(s[at] == u32_bytes(n as int)[0]);
    assert(s[at + 1] == u32_bytes(n as int)[1]);
    assert(s[at + 2] == u32_bytes(n as int)[2]);
    assert(s[at + 3] == u32_bytes(n as int)[3]);
}

/// A framed message shows the id and the payload that it was made from, whatever follows it.
pub proof fn law_framed_reads_back(id: u16, body: Seq<u8>, after: Seq<u8>)
    requires
        body.len() <= u16::MAX,
    ensures
        framed(id, body).len() == HEADER_LEN + body.len(),
        is_complete(framed(id, body) + after),
        message_id(framed(id, body) + after) == id,
        payload_len(framed(id, body) + after) == body.len(),
        payload(framed(id, body) + after) == body,
{
    let s = framed(id, body) + after;
    let len_bytes = u16_bytes(body.len() as int);
    assert(s == Seq::<u8>::empty() + u16_bytes(id as int) + (len_bytes + body + after));
    law_u16_reads_back(id, Seq::<u8>::empty(), len_bytes + body + after);
    assert(s == u16_bytes(id as int) + len_bytes + (body + after));
    law_u16_reads_back(body.len() as u16, u16_bytes(id as int), body + after);
    assert(payload(s) =~= body);
}

/// A message starts with its id and the length of its payload, two bytes each with the less
/// significant one first, and goes on with the payload.
pub proof fn law_message_layout(s: Seq<u8>)
    requires
        s.len() >= 4,
    ensures
        message_id(s) == s[0] + 256 * s[1],
        payload_len(s) == s[2] + 256 * s[3],
        is_complete(s) <==> s.len() >= 4 + s[2] + 256 * s[3],
        is_complete(s) ==> payload(s).len() == s[2] + 256 * s[3],
        is_complete(s) ==> forall|i: int|
            0 <= i < s[2] + 256 * s[3] ==> #[trigger] payload(s)[i] == s[4 + i],
{
}

/// Numbers are told apart by their bytes, of which there are two or four.
pub proof fn law_bytes_identify_number(a: u32, b: u32, c: u16, d: u16)
    ensures
        u32_bytes(a as int).len() == 4,
        u32_bytes(a as int) == u32_bytes(b as int) <==> a == b,
        u16_bytes(c as int).len() == 2,
        u16_bytes(c as int) == u16_bytes(d as int) <==> c == d,
{
    let none = Seq::<u8>::empty();
    law_u32_reads_back(a, none, none);
    law_u32_reads_back(b, none, none);
    law_u16_reads_back(c, none, none);
    law_u16_reads_back(d, none, none);
}

} // verus!
