//! An empty `.BTF.ext` section: a header with no function or line records.
use vstd::prelude::*;
use crate::emit::bytes::{push_u16, push_u32, u16_le, u32_le};

verus! {

/// The `.BTF.ext` header, laid out as the kernel reads it.
#[derive(Clone, Copy)]
pub struct BtfExtHeader {
    pub magic: u16,
    pub version: u8,
    pub flags: u8,
    pub hdr_len: u32,
    pub func_info_off: u32,
    pub func_info_len: u32,
    pub line_info_off: u32,
    pub line_info_len: u32,
}

/// The little-endian encoding of a `.BTF.ext` header.
pub open spec fn btf_ext_header_bytes(h: BtfExtHeader) -> Seq<u8> {
    u16_le(h.magic) + seq![h.version, h.flags] + u32_le(h.hdr_len) + u32_le(h.func_info_off)
        + u32_le(h.func_info_len) + u32_le(h.line_info_off) + u32_le(h.line_info_len)
}

/// The section: magic `0xeb9f`, version 1, a 24-byte header and no records.
pub open spec fn empty_btf_ext() -> Seq<u8> {
    btf_ext_header_bytes(BtfExtHeader {
        magic: 0xeb9f,
        version: 1,
        flags: 0,
        hdr_len: 24,
        func_info_off: 0,
        func_info_len: 0,
        line_info_off: 0,
        line_info_len: 0,
    })
}

/// Builds the `.BTF.ext` section.
pub fn build_btf_ext() -> (r: Vec<u8>)
    ensures
        r@ == empty_btf_ext(),
        r@.len() == 24,
{
    let h = BtfExtHeader {
        magic: 0xeb9f,
        version: 1,
        flags: 0,
        hdr_len: 24,
        func_info_off: 0,
        func_info_len: 0,
        line_info_off: 0,
        line_info_len: 0,
    };
    let mut out: Vec<u8> = Vec::new();
    push_u16(&mut out, h.magic);
    out.push(h.version);
    out.push(h.flags);
    push_u32(&mut out, h.hdr_len);
    push_u32(&mut out, h.func_info_off);
    push_u32(&mut out, h.func_info_len);
    push_u32(&mut out, h.line_info_off);
    push_u32(&mut out, h.line_info_len);
    assert(out@ =~= empty_btf_ext());
    out
}

} // verus!
