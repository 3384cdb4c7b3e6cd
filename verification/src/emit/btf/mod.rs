//! A minimal BTF blob: header, type section and string section.
pub mod ext;

use vstd::prelude::*;
use vstd::string::StringSliceAdditionalSpecFns;
use crate::emit::bytes::{push_slice, push_u16, push_u32, u16_le, u32_le};

verus! {

/// The BTF magic number.
pub const BTF_MAGIC: u16 = 0xeb9f;

/// Bytes in a BTF header.
pub const BTF_HEADER_LEN: u32 = 24;

/// The BTF header, laid out as the kernel reads it.
#[derive(Clone, Copy)]
pub struct BtfHeader {
    pub magic: u16,
    pub version: u8,
    pub flags: u8,
    pub hdr_len: u32,
    pub type_off: u32,
    pub type_len: u32,
    pub str_off: u32,
    pub str_len: u32,
}

/// The little-endian encoding of a BTF header.
pub open spec fn btf_header_bytes(h: BtfHeader) -> Seq<u8> {
    u16_le(h.magic) + seq![h.version, h.flags] + u32_le(h.hdr_len) + u32_le(h.type_off) + u32_le(h.type_len)
        + u32_le(h.str_off) + u32_le(h.str_len)
}

/// Appends the encoding of a BTF header.
pub fn push_btf_header(out: &mut Vec<u8>, h: &BtfHeader)
    ensures
        final(out)@ == old(out)@ + btf_header_bytes(*h),
{
    push_u16(out, h.magic);
    out.push(h.version);
    out.push(h.flags);
    push_u32(out, h.hdr_len);
    push_u32(out, h.type_off);
    push_u32(out, h.type_len);
    push_u32(out, h.str_off);
    push_u32(out, h.str_len);
    assert(final(out)@ =~= old(out)@ + btf_header_bytes(*h));
}

/// Collects BTF type records and strings.
pub struct BtfBuilder {
    types: Vec<u8>,
    strings: Vec<u8>,
}

impl View for BtfBuilder {
    /// The type section and the string section so far.
    type V = (Seq<u8>, Seq<u8>);

    closed spec fn view(&self) -> (Seq<u8>, Seq<u8>) {
        (self.types@, self.strings@)
    }
}

/// The blob made of a header, the type section and the string section; the
/// strings follow the types directly.
pub open spec fn btf_blob(types: Seq<u8>, strings: Seq<u8>) -> Seq<u8> {
    btf_header_bytes(BtfHeader {
        magic: BTF_MAGIC,
        version: 1,
        flags: 0,
        hdr_len: BTF_HEADER_LEN,
        type_off: 0,
        type_len: types.len() as u32,
        str_off: types.len() as u32,
        str_len: strings.len() as u32,
    }) + types + strings
}

impl BtfBuilder {
    /// No types, and a string section holding only the empty string.
    pub fn new() -> (r: BtfBuilder)
        ensures
            r@ == (Seq::<u8>::empty(), seq![0u8]),
    {
        let mut strings: Vec<u8> = Vec::new();
        strings.push(0);
        BtfBuilder { types: Vec::new(), strings }
    }

    /// Appends `s` and a terminating zero to the string section and returns
    /// the offset at which it starts.
    pub fn add_string(&mut self, s: &str) -> (r: u32)
        ensures
            r == old(self)@.1.len() as u32,
            final(self)@.0 == old(self)@.0,
            final(self)@.1 == old(self)@.1 + s.spec_bytes() + seq![0u8],
    {
        let off = self.strings.len() as u32;
        push_slice(&mut self.strings, s.as_bytes());
        self.strings.push(0);
        assert(self.strings@ =~= old(self)@.1 + s.spec_bytes() + seq![0u8]);
        off
    }

    /// The finished blob.
    pub fn emit(self) -> (r: Vec<u8>)
        ensures
            r@ == btf_blob(self@.0, self@.1),
    {
        let header = BtfHeader {
            magic: BTF_MAGIC,
            version: 1,
            flags: 0,
            hdr_len: BTF_HEADER_LEN,
            type_off: 0,
            type_len: self.types.len() as u32,
            str_off: self.types.len() as u32,
            str_len: self.strings.len() as u32,
        };
        let mut out: Vec<u8> = Vec::new();
        push_btf_header(&mut out, &header);
        push_slice(&mut out, self.types.as_slice());
        push_slice(&mut out, self.strings.as_slice());
        assert(out@ =~= btf_blob(self@.0, self@.1));
        out
    }
}

} // verus!
