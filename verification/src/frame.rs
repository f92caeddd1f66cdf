//! Framing of messages on the wire: an 8-byte big-endian header followed by
//! the payload.
//!
//! Header layout: `frame_len: u32` (version + type + flags + payload),
//! `version: u8`, `msg_type: u8`, `flags: u16`.

use vstd::prelude::*;

verus! {

/// Protocol version written into every frame header.
pub const PROTOCOL_VERSION: u8 = 1;

/// Kind of message carried by a frame.
pub type MessageType = u8;

pub const MESSAGE_TYPE_UNSPECIFIED: MessageType = 0;
pub const MESSAGE_TYPE_ENVELOPE: MessageType = 1;
pub const MESSAGE_TYPE_ENVELOPE_RESPONSE: MessageType = 2;
pub const MESSAGE_TYPE_DISCONNECT: MessageType = 3;

/// Number of bytes in a frame header.
pub const HEADER_LEN: usize = 8;

/// Big-endian bytes of a 16-bit number.
pub open spec fn be_u16_bytes(n: u16) -> Seq<u8> {
    seq![(n / 256) as u8, (n % 256) as u8]
}

/// Big-endian bytes of a 32-bit number.
pub open spec fn be_u32_bytes(n: u32) -> Seq<u8> {
    seq![
        (n / 0x100_0000) as u8,
        ((n / 0x1_0000) % 256) as u8,
        ((n / 0x100) % 256) as u8,
        (n % 256) as u8,
    ]
}

/// The 16-bit number stored big-endian at `pos` in `b`.
pub open spec fn be_u16_at(b: Seq<u8>, pos: int) -> u16 {
    (b[pos] * 256 + b[pos + 1]) as u16
}

/// The 32-bit number stored big-endian at `pos` in `b`.
pub open spec fn be_u32_at(b: Seq<u8>, pos: int) -> u32 {
    (b[pos] * 0x100_0000 + b[pos + 1] * 0x1_0000 + b[pos + 2] * 0x100 + b[pos + 3]) as u32
}

/// Reading back a big-endian 32-bit number gives the number written.
pub proof fn lemma_be_u32_roundtrip(n: u32, prefix: Seq<u8>, suffix: Seq<u8>)
    ensures
        be_u32_at(prefix + be_u32_bytes(n) + suffix, prefix.len() as int) == n,
{
    let b = prefix + be_u32_bytes(n) + suffix;
    let p: int = prefix.len() as int;
    assert(b[p] == (n / 0x100_0000) as u8);
    assert(b[p + 1] == ((n / 0x1_0000) % 256) as u8);
    assert(b[p + 2] == ((n / 0x100) % 256) as u8);
    assert(b[p + 3] == (n % 256) as u8);
    assert((n / 0x100_0000) < 256);
    assert(n == (n / 0x100_0000) * 0x100_0000 + ((n / 0x1_0000) % 256) * 0x1_0000
        + ((n / 0x100) % 256) * 0x100 + n % 256);
}

/// Reading back a big-endian 16-bit number gives the number written.
pub proof fn lemma_be_u16_roundtrip(n: u16, prefix: Seq<u8>, suffix: Seq<u8>)
    ensures
        be_u16_at(prefix + be_u16_bytes(n) + suffix, prefix.len() as int) == n,
{
    let b = prefix + be_u16_bytes(n) + suffix;
    let p: int = prefix.len() as int;
    assert(b[p] == (n / 256) as u8);
    assert(b[p + 1] == (n % 256) as u8);
}

/// `bytes::Buf::get_u32` on the bytes of `buf` from `pos` on: the big-endian
/// 32-bit number in the four bytes at `pos`.
#[verifier::external_body]
pub(crate) fn buf_get_u32(buf: &[u8], pos: usize) -> (n: u32)
    requires
        pos + 4 <= buf@.len(),
    ensures
        n == be_u32_at(buf@, pos as int),
{
    let mut rest: &[u8] = &buf[pos..];
    bytes::Buf::get_u32(&mut rest)
}

/// `bytes::Buf::get_u16` on the bytes of `buf` from `pos` on: the big-endian
/// 16-bit number in the two bytes at `pos`.
#[verifier::external_body]
fn buf_get_u16(buf: &[u8], pos: usize) -> (n: u16)
    requires
        pos + 2 <= buf@.len(),
    ensures
        n == be_u16_at(buf@, pos as int),
{
    let mut rest: &[u8] = &buf[pos..];
    bytes::Buf::get_u16(&mut rest)
}

/// `bytes::Buf::get_u8` on the bytes of `buf` from `pos` on: the byte at `pos`.
#[verifier::external_body]
pub(crate) fn buf_get_u8(buf: &[u8], pos: usize) -> (n: u8)
    requires
        pos + 1 <= buf@.len(),
    ensures
        n == buf@[pos as int],
{
    let mut rest: &[u8] = &buf[pos..];
    bytes::Buf::get_u8(&mut rest)
}

/// `bytes::BufMut::put_u32` on a `Vec<u8>`: appends the big-endian bytes of `n`.
#[verifier::external_body]
pub(crate) fn buf_put_u32(buf: &mut Vec<u8>, n: u32)
    requires
        old(buf)@.len() + 4 <= isize::MAX,
    ensures
        final(buf)@ == old(buf)@ + be_u32_bytes(n),
{
    bytes::BufMut::put_u32(buf, n)
}

/// `bytes::BufMut::put_u16` on a `Vec<u8>`: appends the big-endian bytes of `n`.
#[verifier::external_body]
fn buf_put_u16(buf: &mut Vec<u8>, n: u16)
    requires
        old(buf)@.len() + 2 <= isize::MAX,
    ensures
        final(buf)@ == old(buf)@ + be_u16_bytes(n),
{
    bytes::BufMut::put_u16(buf, n)
}

/// `bytes::BufMut::put_u8` on a `Vec<u8>`: appends `n`.
#[verifier::external_body]
pub(crate) fn buf_put_u8(buf: &mut Vec<u8>, n: u8)
    requires
        old(buf)@.len() + 1 <= isize::MAX,
    ensures
        final(buf)@ == old(buf)@.push(n),
{
    bytes::BufMut::put_u8(buf, n)
}

/// The length field of a frame carrying `payload_len` bytes of payload:
/// version, type and flags plus the payload, truncated to 32 bits.
pub open spec fn frame_len_of(payload_len: nat) -> u32 {
    ((4 + payload_len) % 0x1_0000_0000) as u32
}

/// The bytes of a frame header.
pub open spec fn header_bytes(frame_len: u32, version: u8, msg_type: u8, flags: u16) -> Seq<u8> {
    be_u32_bytes(frame_len) + seq![version, msg_type] + be_u16_bytes(flags)
}

/// The bytes of a whole frame: header with the current version and no flags,
/// then the payload.
pub open spec fn frame_bytes(msg_type: u8, payload: Seq<u8>) -> Seq<u8> {
    header_bytes(frame_len_of(payload.len()), PROTOCOL_VERSION, msg_type, 0) + payload
}

/// Parses the 8-byte frame header at the start of `header`, giving
/// `(frame_len, version, msg_type, flags)`.
pub fn parse_frame_header(header: &[u8]) -> (r: (u32, u8, u8, u16))
    requires
        header@.len() >= HEADER_LEN,
    ensures
        r.0 == be_u32_at(header@, 0),
        r.1 == header@[4],
        r.2 == header@[5],
        r.3 == be_u16_at(header@, 6),
{
    let frame_len: u32 = buf_get_u32(header, 0);
    let version: u8 = buf_get_u8(header, 4);
    let msg_type: u8 = buf_get_u8(header, 5);
    let flags: u16 = buf_get_u16(header, 6);
    (frame_len, version, msg_type, flags)
}

/// Builds a framed message: the header (current version, `msg_type`, no
/// flags) followed by `payload`.
pub fn encode_frame(msg_type: u8, payload: &[u8]) -> (out: Vec<u8>)
    requires
        payload@.len() + HEADER_LEN <= isize::MAX,
    ensures
        out@ == frame_bytes(msg_type, payload@),
{
    let len: usize = payload.len();
    let wide: u64 = len as u64 + 4;
    #[verifier::truncate]
    let frame_len: u32 = wide as u32;
    assert(frame_len == wide % 0x1_0000_0000) by (bit_vector)
        requires
            frame_len == wide as u32;
    let mut out: Vec<u8> = Vec::with_capacity(HEADER_LEN);
    buf_put_u32(&mut out, frame_len);
    buf_put_u8(&mut out, PROTOCOL_VERSION);
    buf_put_u8(&mut out, msg_type);
    buf_put_u16(&mut out, 0);
    out.extend_from_slice(payload);
    assert(out@ =~= frame_bytes(msg_type, payload@));
    out
}

/// A frame parses back into the header it was built with, and its payload
/// follows the header.
pub proof fn lemma_frame_roundtrip(msg_type: u8, payload: Seq<u8>)
    ensures
        ({
            let b = frame_bytes(msg_type, payload);
            &&& b.len() == HEADER_LEN + payload.len()
            &&& be_u32_at(b, 0) == frame_len_of(payload.len())
            &&& b[4] == PROTOCOL_VERSION
            &&& b[5] == msg_type
            &&& be_u16_at(b, 6) == 0
            &&& b.subrange(HEADER_LEN as int, b.len() as int) == payload
        }),
{
    let b = frame_bytes(msg_type, payload);
    let f: u32 = frame_len_of(payload.len());
    let empty = Seq::<u8>::empty();
    let rest = seq![PROTOCOL_VERSION, msg_type] + be_u16_bytes(0) + payload;
    assert(b =~= empty + be_u32_bytes(f) + rest);
    lemma_be_u32_roundtrip(f, empty, rest);
    let pre = be_u32_bytes(f) + seq![PROTOCOL_VERSION, msg_type];
    assert(b =~= pre + be_u16_bytes(0) + payload);
    lemma_be_u16_roundtrip(0, pre, payload);
    assert(b.subrange(HEADER_LEN as int, b.len() as int) =~= payload);
}

} // verus!
