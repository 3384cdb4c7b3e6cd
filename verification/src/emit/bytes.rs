//! Little-endian byte encodings and byte-buffer helpers shared by the
//! object writers.
use vstd::prelude::*;

verus! {

/// The two bytes of `v`, least significant first.
pub open spec fn u16_le(v: u16) -> Seq<u8> {
    seq![(v % 256) as u8, (v / 256) as u8]
}

/// The four bytes of `v`, least significant first.
pub open spec fn u32_le(v: u32) -> Seq<u8> {
    seq![(v % 256) as u8, ((v / 0x100) % 256) as u8, ((v / 0x1_0000) % 256) as u8, (v / 0x100_0000) as u8]
}

/// The eight bytes of `v`, least significant first.
pub open spec fn u64_le(v: u64) -> Seq<u8> {
    seq![
        (v % 256) as u8,
        ((v / 0x100) % 256) as u8,
        ((v / 0x1_0000) % 256) as u8,
        ((v / 0x100_0000) % 256) as u8,
        ((v / 0x1_0000_0000) % 256) as u8,
        ((v / 0x100_0000_0000) % 256) as u8,
        ((v / 0x1_0000_0000_0000) % 256) as u8,
        (v / 0x100_0000_0000_0000) as u8,
    ]
}

/// `n` zero bytes.
pub open spec fn zeros(n: nat) -> Seq<u8> {
    Seq::new(n, |i: int| 0u8)
}

/// Appends `v` in little-endian order.
pub fn push_u16(out: &mut Vec<u8>, v: u16)
    ensures
        final(out)@ == old(out)@ + u16_le(v),
{
    out.push((v % 256) as u8);
    out.push((v / 256) as u8);
    assert(final(out)@ =~= old(out)@ + u16_le(v));
}

/// Appends `v` in little-endian order.
pub fn push_u32(out: &mut Vec<u8>, v: u32)
    ensures
        final(out)@ == old(out)@ + u32_le(v),
{
    out.push((v % 256) as u8);
    out.push(((v / 0x100) % 256) as u8);
    out.push(((v / 0x1_0000) % 256) as u8);
    out.push((v / 0x100_0000) as u8);
    assert(final(out)@ =~= old(out)@ + u32_le(v));
}

/// Appends `v` in little-endian order.
pub fn push_u64(out: &mut Vec<u8>, v: u64)
    ensures
        final(out)@ == old(out)@ + u64_le(v),
{
    out.push((v % 256) as u8);
    out.push(((v / 0x100) % 256) as u8);
    out.push(((v / 0x1_0000) % 256) as u8);
    out.push(((v / 0x100_0000) % 256) as u8);
    out.push(((v / 0x1_0000_0000) % 256) as u8);
    out.push(((v / 0x100_0000_0000) % 256) as u8);
    out.push(((v / 0x1_0000_0000_0000) % 256) as u8);
    out.push((v / 0x100_0000_0000_0000) as u8);
    assert(final(out)@ =~= old(out)@ + u64_le(v));
}

/// Appends every byte of `data`.
pub fn push_slice(out: &mut Vec<u8>, data: &[u8])
    ensures
        final(out)@ == old(out)@ + data@,
{
    let ghost start = out@;
    let mut i: usize = 0;
    while i < data.len()
        invariant
            i <= data@.len(),
            out@ == start + data@.subrange(0, i as int),
        decreases data@.len() - i,
    {
        out.push(data[i]);
        i = i + 1;
        assert(out@ =~= start + data@.subrange(0, i as int));
    }
    assert(data@.subrange(0, data@.len() as int) =~= data@);
}

/// Appends zero bytes until `out` is `len` bytes long.
pub fn pad_to(out: &mut Vec<u8>, len: usize)
    ensures
        final(out)@ == old(out)@ + zeros(if len > old(out)@.len() { (len - old(out)@.len()) as nat } else { 0 }),
{
    let ghost start = out@;
    while out.len() < len
        invariant
            out@.len() >= start.len(),
            out@ == start + zeros((out@.len() - start.len()) as nat),
            out@.len() <= if len > start.len() { len as int } else { start.len() as int },
        decreases len - out@.len(),
    {
        out.push(0u8);
        assert(out@ =~= start + zeros((out@.len() - start.len()) as nat));
    }
}

/// `v` rounded up to a multiple of `a`, for the power-of-two alignments the
/// writers use; values of `a` up to one leave `v` unchanged.
pub open spec fn align_up(v: u64, a: u64) -> u64 {
    if a <= 1 { v } else { ((v + (a - 1)) as u64) & !((a - 1) as u64) }
}

/// Rounds `v` up to a multiple of `a`.
pub fn align_to(v: u64, a: u64) -> (r: u64)
    requires
        v + a <= u64::MAX,
    ensures
        r == align_up(v, a),
{
    if a <= 1 { v } else { (v + (a - 1)) & !(a - 1) }
}

} // verus!
