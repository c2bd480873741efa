//! Big-endian integers and raw byte runs: the only places where running
//! out of input is detected.
use vstd::prelude::*;
use vstd::slice::slice_subrange;
use crate::error::{FrameDecodeErr, SpecResult, agrees};

verus! {

pub open spec fn be16(v: u16) -> Seq<u8> {
    seq![(v >> 8u16) as u8, (v & 0xffu16) as u8]
}

pub open spec fn be32(v: u32) -> Seq<u8> {
    seq![
        (v >> 24u32) as u8,
        ((v >> 16u32) & 0xffu32) as u8,
        ((v >> 8u32) & 0xffu32) as u8,
        (v & 0xffu32) as u8,
    ]
}

pub open spec fn be64(v: u64) -> Seq<u8> {
    be32((v >> 32u64) as u32) + be32((v & 0xffff_ffffu64) as u32)
}

pub open spec fn from_be16(b0: u8, b1: u8) -> u16 {
    ((b0 as u16) << 8u16) | (b1 as u16)
}

pub open spec fn from_be32(b0: u8, b1: u8, b2: u8, b3: u8) -> u32 {
    ((b0 as u32) << 24u32) | ((b1 as u32) << 16u32) | ((b2 as u32) << 8u32) | (b3 as u32)
}

pub open spec fn from_be64(b: Seq<u8>) -> u64 {
    ((from_be32(b[0], b[1], b[2], b[3]) as u64) << 32u64) | (from_be32(
        b[4],
        b[5],
        b[6],
        b[7],
    ) as u64)
}

pub open spec fn parse_u8(b: Seq<u8>) -> SpecResult<u8> {
    if b.len() < 1 {
        Err(FrameDecodeErr::Incomplete)
    } else {
        Ok((1, b[0]))
    }
}

pub open spec fn parse_u16(b: Seq<u8>) -> SpecResult<u16> {
    if b.len() < 2 {
        Err(FrameDecodeErr::Incomplete)
    } else {
        Ok((2, from_be16(b[0], b[1])))
    }
}

pub open spec fn parse_u32(b: Seq<u8>) -> SpecResult<u32> {
    if b.len() < 4 {
        Err(FrameDecodeErr::Incomplete)
    } else {
        Ok((4, from_be32(b[0], b[1], b[2], b[3])))
    }
}

pub open spec fn parse_u64(b: Seq<u8>) -> SpecResult<u64> {
    if b.len() < 8 {
        Err(FrameDecodeErr::Incomplete)
    } else {
        Ok((8, from_be64(b)))
    }
}

/// The first `n` bytes, or `Incomplete` when fewer are there.
pub open spec fn parse_take(b: Seq<u8>, n: nat) -> SpecResult<Seq<u8>> {
    if b.len() < n {
        Err(FrameDecodeErr::Incomplete)
    } else {
        Ok((n, b.take(n as int)))
    }
}

pub proof fn lemma_be16_round_trip(v: u16)
    ensures
        from_be16(be16(v)[0], be16(v)[1]) == v,
{
    let b0 = (v >> 8u16) as u8;
    let b1 = (v & 0xffu16) as u8;
    assert(((b0 as u16) << 8u16) | (b1 as u16) == v) by (bit_vector)
        requires
            b0 == (v >> 8u16) as u8,
            b1 == (v & 0xffu16) as u8,
    ;
}

pub proof fn lemma_be32_round_trip(v: u32)
    ensures
        from_be32(be32(v)[0], be32(v)[1], be32(v)[2], be32(v)[3]) == v,
{
    let b0 = (v >> 24u32) as u8;
    let b1 = ((v >> 16u32) & 0xffu32) as u8;
    let b2 = ((v >> 8u32) & 0xffu32) as u8;
    let b3 = (v & 0xffu32) as u8;
    assert(((b0 as u32) << 24u32) | ((b1 as u32) << 16u32) | ((b2 as u32) << 8u32) | (b3 as u32)
        == v) by (bit_vector)
        requires
            b0 == (v >> 24u32) as u8,
            b1 == ((v >> 16u32) & 0xffu32) as u8,
            b2 == ((v >> 8u32) & 0xffu32) as u8,
            b3 == (v & 0xffu32) as u8,
    ;
}

pub proof fn lemma_be64_round_trip(v: u64)
    ensures
        be64(v).len() == 8,
        from_be64(be64(v)) == v,
{
    let hi = (v >> 32u64) as u32;
    let lo = (v & 0xffff_ffffu64) as u32;
    lemma_be32_round_trip(hi);
    lemma_be32_round_trip(lo);
    let b = be64(v);
    assert(from_be32(b[0], b[1], b[2], b[3]) == hi);
    assert(from_be32(b[4], b[5], b[6], b[7]) == lo);
    assert((((v >> 32u64) as u32 as u64) << 32u64) | ((v & 0xffff_ffffu64) as u32 as u64) == v)
        by (bit_vector);
}

/// Decoding the encoding of a value, followed by anything, gives the value back.
pub proof fn lemma_parse_u16_prefix(v: u16, rest: Seq<u8>)
    ensures
        parse_u16(be16(v) + rest) == Ok::<(nat, u16), FrameDecodeErr>((2, v)),
{
    lemma_be16_round_trip(v);
    let b = be16(v) + rest;
    assert(b[0] == be16(v)[0] && b[1] == be16(v)[1]);
}

pub proof fn lemma_parse_u32_prefix(v: u32, rest: Seq<u8>)
    ensures
        parse_u32(be32(v) + rest) == Ok::<(nat, u32), FrameDecodeErr>((4, v)),
{
    lemma_be32_round_trip(v);
    let b = be32(v) + rest;
    assert(b[0] == be32(v)[0] && b[1] == be32(v)[1] && b[2] == be32(v)[2] && b[3] == be32(v)[3]);
}

pub proof fn lemma_parse_u64_prefix(v: u64, rest: Seq<u8>)
    ensures
        parse_u64(be64(v) + rest) == Ok::<(nat, u64), FrameDecodeErr>((8, v)),
{
    lemma_be64_round_trip(v);
    let b = be64(v) + rest;
    assert(b.take(8) =~= be64(v));
    assert(from_be64(b) == from_be64(be64(v)));
}

pub fn put_u8(out: &mut Vec<u8>, v: u8)
    ensures
        final(out)@ == old(out)@.push(v),
{
    out.push(v);
}

pub fn put_u16(out: &mut Vec<u8>, v: u16)
    ensures
        final(out)@ == old(out)@ + be16(v),
{
    out.push((v >> 8u16) as u8);
    out.push((v & 0xffu16) as u8);
    assert(out@ =~= old(out)@ + be16(v));
}

pub fn put_u32(out: &mut Vec<u8>, v: u32)
    ensures
        final(out)@ == old(out)@ + be32(v),
{
    out.push((v >> 24u32) as u8);
    out.push(((v >> 16u32) & 0xffu32) as u8);
    out.push(((v >> 8u32) & 0xffu32) as u8);
    out.push((v & 0xffu32) as u8);
    assert(out@ =~= old(out)@ + be32(v));
}

pub fn put_u64(out: &mut Vec<u8>, v: u64)
    ensures
        final(out)@ == old(out)@ + be64(v),
{
    put_u32(out, (v >> 32u64) as u32);
    put_u32(out, (v & 0xffff_ffffu64) as u32);
    assert(out@ =~= old(out)@ + be64(v));
}

/// Appends a byte run unchanged.
pub fn put_slice(out: &mut Vec<u8>, bytes: &[u8])
    ensures
        final(out)@ == old(out)@ + bytes@,
{
    let mut i: usize = 0;
    while i < bytes.len()
        invariant
            i <= bytes@.len(),
            out@ == old(out)@ + bytes@.take(i as int),
        decreases bytes@.len() - i,
    {
        out.push(bytes[i]);
        i = i + 1;
        assert(out@ =~= old(out)@ + bytes@.take(i as int));
    }
    assert(bytes@.take(i as int) =~= bytes@);
}

pub fn decode_u8(buf: &[u8]) -> (r: Result<(&[u8], u8), FrameDecodeErr>)
    ensures
        agrees(buf@, r, parse_u8(buf@)),
{
    if buf.len() < 1 {
        return Err(FrameDecodeErr::Incomplete);
    }
    Ok((slice_subrange(buf, 1, buf.len()), buf[0]))
}

pub fn decode_u16(buf: &[u8]) -> (r: Result<(&[u8], u16), FrameDecodeErr>)
    ensures
        agrees(buf@, r, parse_u16(buf@)),
{
    if buf.len() < 2 {
        return Err(FrameDecodeErr::Incomplete);
    }
    let v = ((buf[0] as u16) << 8u16) | (buf[1] as u16);
    Ok((slice_subrange(buf, 2, buf.len()), v))
}

pub fn decode_u32(buf: &[u8]) -> (r: Result<(&[u8], u32), FrameDecodeErr>)
    ensures
        agrees(buf@, r, parse_u32(buf@)),
{
    if buf.len() < 4 {
        return Err(FrameDecodeErr::Incomplete);
    }
    let v = ((buf[0] as u32) << 24u32) | ((buf[1] as u32) << 16u32) | ((buf[2] as u32) << 8u32)
        | (buf[3] as u32);
    Ok((slice_subrange(buf, 4, buf.len()), v))
}

pub fn decode_u64(buf: &[u8]) -> (r: Result<(&[u8], u64), FrameDecodeErr>)
    ensures
        agrees(buf@, r, parse_u64(buf@)),
{
    if buf.len() < 8 {
        return Err(FrameDecodeErr::Incomplete);
    }
    let hi = ((buf[0] as u32) << 24u32) | ((buf[1] as u32) << 16u32) | ((buf[2] as u32) << 8u32)
        | (buf[3] as u32);
    let lo = ((buf[4] as u32) << 24u32) | ((buf[5] as u32) << 16u32) | ((buf[6] as u32) << 8u32)
        | (buf[7] as u32);
    let v = ((hi as u64) << 32u64) | (lo as u64);
    Ok((slice_subrange(buf, 8, buf.len()), v))
}

/// Splits off the first `count` bytes.
pub fn take_bytes(buf: &[u8], count: usize) -> (r: Result<(&[u8], &[u8]), FrameDecodeErr>)
    ensures
        agrees(buf@, r, parse_take(buf@, count as nat)),
{
    if buf.len() < count {
        return Err(FrameDecodeErr::Incomplete);
    }
    Ok((slice_subrange(buf, count, buf.len()), slice_subrange(buf, 0, count)))
}

} // verus!
