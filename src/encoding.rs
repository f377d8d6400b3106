//! Deterministic little-endian, length-prefixed binary encoding used for
//! every commitment.

use vstd::prelude::*;

verus! {

/// Little-endian bytes of a 16-bit integer.
pub open spec fn le16(x: u16) -> Seq<u8> {
    seq![x as u8, (x >> 8u16) as u8]
}

/// Little-endian bytes of a 32-bit integer.
pub open spec fn le32(x: u32) -> Seq<u8> {
    seq![x as u8, (x >> 8u32) as u8, (x >> 16u32) as u8, (x >> 24u32) as u8]
}

/// Little-endian bytes of a 64-bit integer.
pub open spec fn le64(x: u64) -> Seq<u8> {
    seq![
        x as u8,
        (x >> 8u64) as u8,
        (x >> 16u64) as u8,
        (x >> 24u64) as u8,
        (x >> 32u64) as u8,
        (x >> 40u64) as u8,
        (x >> 48u64) as u8,
        (x >> 56u64) as u8,
    ]
}

/// A byte blob preceded by its length as a 16-bit integer.
pub open spec fn blob16(b: Seq<u8>) -> Seq<u8> {
    le16(b.len() as u16) + b
}

/// An optional blob: a zero byte when absent, a one byte and the blob when present.
pub open spec fn opt_blob16(b: Option<Seq<u8>>) -> Seq<u8> {
    match b {
        None => seq![0u8],
        Some(v) => seq![1u8] + blob16(v),
    }
}

pub fn push_u16(out: &mut Vec<u8>, x: u16)
    ensures
        final(out)@ == old(out)@ + le16(x),
{
    out.push(x as u8);
    out.push((x >> 8u16) as u8);
    assert(final(out)@ =~= old(out)@ + le16(x));
}

pub fn push_u32(out: &mut Vec<u8>, x: u32)
    ensures
        final(out)@ == old(out)@ + le32(x),
{
    out.push(x as u8);
    out.push((x >> 8u32) as u8);
    out.push((x >> 16u32) as u8);
    out.push((x >> 24u32) as u8);
    assert(final(out)@ =~= old(out)@ + le32(x));
}

pub fn push_u64(out: &mut Vec<u8>, x: u64)
    ensures
        final(out)@ == old(out)@ + le64(x),
{
    out.push(x as u8);
    out.push((x >> 8u64) as u8);
    out.push((x >> 16u64) as u8);
    out.push((x >> 24u64) as u8);
    out.push((x >> 32u64) as u8);
    out.push((x >> 40u64) as u8);
    out.push((x >> 48u64) as u8);
    out.push((x >> 56u64) as u8);
    assert(final(out)@ =~= old(out)@ + le64(x));
}

/// Appends raw bytes with no prefix.
pub fn push_raw(out: &mut Vec<u8>, b: &[u8])
    ensures
        final(out)@ == old(out)@ + b@,
{
    let mut i: usize = 0;
    while i < b.len()
        invariant
            i <= b@.len(),
            out@ == old(out)@ + b@.subrange(0, i as int),
        decreases b@.len() - i,
    {
        out.push(b[i]);
        i = i + 1;
        assert(out@ =~= old(out)@ + b@.subrange(0, i as int));
    }
    assert(b@.subrange(0, b@.len() as int) =~= b@);
}

/// Appends a blob preceded by its 16-bit length.
pub fn push_blob16(out: &mut Vec<u8>, b: &Vec<u8>)
    requires
        b@.len() <= u16::MAX,
    ensures
        final(out)@ == old(out)@ + blob16(b@),
{
    push_u16(out, b.len() as u16);
    push_raw(out, b.as_slice());
    assert(final(out)@ =~= old(out)@ + blob16(b@));
}

/// Appends an optional blob.
pub fn push_opt_blob16(out: &mut Vec<u8>, b: &Option<Vec<u8>>)
    requires
        b matches Some(v) ==> v@.len() <= u16::MAX,
    ensures
        final(out)@ == old(out)@ + opt_blob16(match b {
            None => None,
            Some(v) => Some(v@),
        }),
{
    match b {
        None => {
            out.push(0u8);
            assert(final(out)@ =~= old(out)@ + seq![0u8]);
        },
        Some(v) => {
            out.push(1u8);
            push_blob16(out, v);
            assert(final(out)@ =~= old(out)@ + (seq![1u8] + blob16(v@)));
        },
    }
}

} // verus!
