//! Big-endian integer framing shared by every message of the protocol.
use vstd::prelude::*;

verus! {

/// The protocol version that both sides send and expect.
pub const VERSION: u32 = 0;

/// The four bytes of `v` in network (big-endian) order.
pub open spec fn be_bytes(v: u32) -> Seq<u8> {
    seq![
        ((v >> 24u32) & 0xffu32) as u8,
        ((v >> 16u32) & 0xffu32) as u8,
        ((v >> 8u32) & 0xffu32) as u8,
        (v & 0xffu32) as u8,
    ]
}

/// The integer whose big-endian bytes are `b[0..4]`.
pub open spec fn be_value(b: Seq<u8>) -> u32
    recommends
        b.len() >= 4,
{
    ((b[0] as u32) << 24u32) | ((b[1] as u32) << 16u32) | ((b[2] as u32) << 8u32) | (b[3] as u32)
}

/// Reading back the big-endian bytes of a value gives the value.
pub proof fn lemma_be_roundtrip(v: u32)
    ensures
        be_value(be_bytes(v)) == v,
        be_bytes(v).len() == 4,
{
    let b0 = ((v >> 24u32) & 0xffu32) as u8;
    let b1 = ((v >> 16u32) & 0xffu32) as u8;
    let b2 = ((v >> 8u32) & 0xffu32) as u8;
    let b3 = (v & 0xffu32) as u8;
    assert((((b0 as u32) << 24u32) | ((b1 as u32) << 16u32) | ((b2 as u32) << 8u32) | (b3 as u32))
        == v) by (bit_vector)
        requires
            b0 == ((v >> 24u32) & 0xffu32) as u8,
            b1 == ((v >> 16u32) & 0xffu32) as u8,
            b2 == ((v >> 8u32) & 0xffu32) as u8,
            b3 == (v & 0xffu32) as u8,
    ;
}

/// Appends the big-endian bytes of `v` to `out`.
pub fn push_be_u32(out: &mut Vec<u8>, v: u32)
    ensures
        final(out)@ == old(out)@ + be_bytes(v),
{
    out.push(((v >> 24u32) & 0xffu32) as u8);
    out.push(((v >> 16u32) & 0xffu32) as u8);
    out.push(((v >> 8u32) & 0xffu32) as u8);
    out.push((v & 0xffu32) as u8);
    assert(out@ =~= old(out)@ + be_bytes(v));
}

/// The big-endian bytes of `v`.
pub fn u32_to_be_bytes(v: u32) -> (res: Vec<u8>)
    ensures
        res@ == be_bytes(v),
{
    let mut out: Vec<u8> = Vec::new();
    push_be_u32(&mut out, v);
    assert(out@ =~= be_bytes(v));
    out
}

/// The value of the four big-endian bytes at `b[at..at + 4]`.
pub fn u32_from_be_bytes(b: &[u8], at: usize) -> (res: u32)
    requires
        at + 4 <= b@.len(),
    ensures
        res == be_value(b@.subrange(at as int, at + 4)),
{
    let b0 = b[at];
    let b1 = b[at + 1];
    let b2 = b[at + 2];
    let b3 = b[at + 3];
    ((b0 as u32) << 24u32) | ((b1 as u32) << 16u32) | ((b2 as u32) << 8u32) | (b3 as u32)
}

} // verus!
