//! The layout of a relocatable ELF64 object for eBPF: header, section data
//! placed in order after the header, then the section header table.
use vstd::prelude::*;
use crate::emit::bytes::{pad_to, push_slice, push_u16, push_u32, push_u64, u16_le, u32_le, u64_le, zeros};

verus! {

pub const ET_REL: u16 = 1;
pub const EM_BPF: u16 = 247;
pub const EV_CURRENT: u32 = 1;

pub const SHT_NULL: u32 = 0;
pub const SHT_PROGBITS: u32 = 1;
pub const SHT_SYMTAB: u32 = 2;
pub const SHT_STRTAB: u32 = 3;
pub const SHT_REL: u32 = 9;

pub const SHF_WRITE: u64 = 1;
pub const SHF_ALLOC: u64 = 2;
pub const SHF_EXECINSTR: u64 = 4;

pub const STB_LOCAL: u8 = 0;
pub const STB_GLOBAL: u8 = 1;
pub const STT_NOTYPE: u8 = 0;
pub const STT_OBJECT: u8 = 1;
pub const STT_FUNC: u8 = 2;

pub const R_BPF_64_64: u32 = 1;

/// A section as it is written: its header fields and its contents.
pub struct ElfSection {
    pub name_off: u32,
    pub sh_type: u32,
    pub flags: u64,
    pub align: u64,
    pub entsize: u64,
    pub link: u32,
    pub info: u32,
    pub data: Vec<u8>,
}

/// The alignments the writers use.
pub open spec fn valid_align(a: u64) -> bool {
    a == 0 || a == 1 || a == 2 || a == 4 || a == 8 || a == 16
}

/// The alignment used for placement: at least one.
pub open spec fn eff_align(a: u64) -> nat {
    if a <= 1 { 1 } else { a as nat }
}

/// `v` rounded up to a multiple of `a`.
#[verifier::opaque]
pub open spec fn round_up(v: nat, a: nat) -> nat {
    if a <= 1 { v } else { (((v + a - 1) / (a as int)) * a) as nat }
}

/// Where the data of sections `1..k` ends; section 0 is the null section
/// and has no data in the file.
pub open spec fn sec_end(s: Seq<ElfSection>, k: int) -> nat
    decreases k,
{
    if k <= 1 {
        64
    } else {
        round_up(sec_end(s, k - 1), eff_align(s[k - 1].align)) + s[k - 1].data@.len()
    }
}

/// The file offset of section `i`'s data (zero for the null section).
pub open spec fn sec_off(s: Seq<ElfSection>, i: int) -> nat {
    if i <= 0 { 0 } else { round_up(sec_end(s, i), eff_align(s[i].align)) }
}

/// The file contents after the header up to the end of section `k - 1`.
pub open spec fn sec_body(s: Seq<ElfSection>, k: int) -> Seq<u8>
    decreases k,
{
    if k <= 1 {
        Seq::empty()
    } else {
        sec_body(s, k - 1) + zeros((sec_off(s, k - 1) - sec_end(s, k - 1)) as nat) + s[k - 1].data@
    }
}

/// The encoding of a section header.
pub open spec fn shdr_bytes(sec: ElfSection, off: nat) -> Seq<u8> {
    u32_le(sec.name_off) + u32_le(sec.sh_type) + u64_le(sec.flags) + u64_le(0) + u64_le(off as u64)
        + u64_le(sec.data@.len() as u64) + u32_le(sec.link) + u32_le(sec.info) + u64_le(sec.align)
        + u64_le(sec.entsize)
}

/// The headers of sections `0..k`.
pub open spec fn shdrs(s: Seq<ElfSection>, k: int) -> Seq<u8>
    decreases k,
{
    if k <= 0 {
        Seq::empty()
    } else {
        shdrs(s, k - 1) + shdr_bytes(s[k - 1], sec_off(s, k - 1))
    }
}

/// The ELF header of a little-endian 64-bit relocatable eBPF object.
#[verifier::opaque]
pub open spec fn ehdr_bytes(shoff: u64, shnum: u16, shstrndx: u16) -> Seq<u8> {
    seq![0x7fu8, 0x45u8, 0x4cu8, 0x46u8, 2u8, 1u8, 1u8, 0u8, 0u8, 0u8, 0u8, 0u8, 0u8, 0u8, 0u8, 0u8]
        + u16_le(ET_REL) + u16_le(EM_BPF) + u32_le(EV_CURRENT) + u64_le(0) + u64_le(0) + u64_le(shoff)
        + u32_le(0) + u16_le(64) + u16_le(0) + u16_le(0) + u16_le(64) + u16_le(shnum) + u16_le(shstrndx)
}

/// Where the section header table starts.
pub open spec fn elf_shoff(s: Seq<ElfSection>) -> nat {
    round_up(sec_end(s, s.len() as int), 8)
}

/// The size of the object file.
pub open spec fn elf_len(s: Seq<ElfSection>) -> nat {
    elf_shoff(s) + 64 * s.len()
}

/// The whole object file.
#[verifier::opaque]
pub open spec fn elf_image(s: Seq<ElfSection>, shstrndx: u16) -> Seq<u8> {
    ehdr_bytes(elf_shoff(s) as u64, s.len() as u16, shstrndx) + sec_body(s, s.len() as int)
        + zeros((elf_shoff(s) - sec_end(s, s.len() as int)) as nat) + shdrs(s, s.len() as int)
}

proof fn lemma_round_up(v: nat, a: nat)
    ensures
        v <= round_up(v, a),
        a >= 1 ==> round_up(v, a) < v + a,
        a <= 1 ==> round_up(v, a) == v,
{
    reveal(round_up);
    if a > 1 {
        let q = (v + a - 1) / (a as int);
        assert(q * a <= v + a - 1 && v + a - 1 < q * a + a) by (nonlinear_arith)
            requires
                a > 1,
                q == (v + a - 1) / (a as int),
        ;
    }
}

proof fn lemma_sec_end_mono(s: Seq<ElfSection>, j: int, k: int)
    requires
        j <= k,
    ensures
        sec_end(s, j) <= sec_end(s, k),
    decreases k - j,
{
    if j < k && k > 1 {
        lemma_sec_end_mono(s, j, k - 1);
        lemma_round_up(sec_end(s, k - 1), eff_align(s[k - 1].align));
    }
}

proof fn lemma_body_len(s: Seq<ElfSection>, k: int)
    requires
        k >= 1,
    ensures
        sec_body(s, k).len() + 64 == sec_end(s, k),
    decreases k,
{
    if k > 1 {
        lemma_body_len(s, k - 1);
        lemma_round_up(sec_end(s, k - 1), eff_align(s[k - 1].align));
    }
}

proof fn lemma_shdrs_len(s: Seq<ElfSection>, k: int)
    requires
        k >= 0,
    ensures
        shdrs(s, k).len() == 64 * k,
    decreases k,
{
    if k > 0 {
        lemma_shdrs_len(s, k - 1);
    }
}

fn round_up_exec(v: u64, a: u64) -> (r: u64)
    requires
        valid_align(a),
        v + 16 <= usize::MAX,
    ensures
        r == round_up(v as nat, eff_align(a)),
{
    proof { reveal(round_up); }
    if a <= 1 {
        v
    } else {
        proof { lemma_round_up(v as nat, a as nat); }
        ((v + (a - 1)) / a) * a
    }
}

fn push_ehdr(out: &mut Vec<u8>, shoff: u64, shnum: u16, shstrndx: u16)
    ensures
        final(out)@ == old(out)@ + ehdr_bytes(shoff, shnum, shstrndx),
{
    let ghost start = out@;
    out.push(0x7f);
    out.push(0x45);
    out.push(0x4c);
    out.push(0x46);
    out.push(2);
    out.push(1);
    out.push(1);
    let mut k: usize = 0;
    while k < 9
        invariant
            k <= 9,
            out@ == start + seq![0x7fu8, 0x45u8, 0x4cu8, 0x46u8, 2u8, 1u8, 1u8] + zeros(k as nat),
        decreases 9 - k,
    {
        out.push(0);
        k = k + 1;
        assert(out@ =~= start + seq![0x7fu8, 0x45u8, 0x4cu8, 0x46u8, 2u8, 1u8, 1u8] + zeros(k as nat));
    }
    assert(seq![0x7fu8, 0x45u8, 0x4cu8, 0x46u8, 2u8, 1u8, 1u8] + zeros(9) =~= seq![0x7fu8, 0x45u8, 0x4cu8,
        0x46u8, 2u8, 1u8, 1u8, 0u8, 0u8, 0u8, 0u8, 0u8, 0u8, 0u8, 0u8, 0u8]);
    push_u16(out, ET_REL);
    push_u16(out, EM_BPF);
    push_u32(out, EV_CURRENT);
    push_u64(out, 0);
    push_u64(out, 0);
    push_u64(out, shoff);
    push_u32(out, 0);
    push_u16(out, 64);
    push_u16(out, 0);
    push_u16(out, 0);
    push_u16(out, 64);
    push_u16(out, shnum);
    push_u16(out, shstrndx);
    proof { reveal(ehdr_bytes); }
    assert(final(out)@ =~= old(out)@ + ehdr_bytes(shoff, shnum, shstrndx));
}

fn push_shdr(out: &mut Vec<u8>, sec: &ElfSection, off: u64)
    ensures
        final(out)@ == old(out)@ + shdr_bytes(*sec, off as nat),
{
    push_u32(out, sec.name_off);
    push_u32(out, sec.sh_type);
    push_u64(out, sec.flags);
    push_u64(out, 0);
    push_u64(out, off);
    push_u64(out, sec.data.len() as u64);
    push_u32(out, sec.link);
    push_u32(out, sec.info);
    push_u64(out, sec.align);
    push_u64(out, sec.entsize);
    assert(final(out)@ =~= old(out)@ + shdr_bytes(*sec, off as nat));
}

/// Writes the object: the ELF header, each section's data after the header
/// at its alignment (the null section has none), the section header table
/// at the next multiple of 8. `None` when the file would not fit in memory.
pub fn encode_elf(sections: &Vec<ElfSection>, shstrndx: u16) -> (r: Option<Vec<u8>>)
    requires
        sections@.len() >= 1,
        forall|i: int| 0 <= i < sections@.len() ==> valid_align(#[trigger] sections@[i].align),
    ensures
        r is Some <==> elf_len(sections@) + 32 <= usize::MAX,
        r matches Some(b) ==> b@ == elf_image(sections@, shstrndx),
{
    let ghost s = sections@;
    let n = sections.len();
    // Place the sections.
    let mut offs: Vec<u64> = Vec::new();
    offs.push(0);
    let mut cur: u64 = 64;
    let mut i: usize = 1;
    while i < n
        invariant
            s == sections@,
            n == s.len(),
            1 <= i <= n,
            forall|j: int| 0 <= j < n ==> valid_align(#[trigger] s[j].align),
            cur == sec_end(s, i as int),
            cur + 32 <= usize::MAX,
            offs@.len() == i,
            forall|j: int| 0 <= j < i ==> #[trigger] offs@[j] + 32 <= usize::MAX,
            forall|j: int| 0 <= j < i ==> #[trigger] offs@[j] == sec_off(s, j),
        decreases n - i,
    {
        let a = sections[i].align;
        let off = round_up_exec(cur, a);
        proof { lemma_round_up(cur as nat, eff_align(a)); }
        let len = sections[i].data.len() as u64;
        if off > usize::MAX as u64 - 32 || len > usize::MAX as u64 - 32 - off {
            proof {
                lemma_sec_end_mono(s, i + 1, n as int);
                lemma_round_up(sec_end(s, n as int), 8);
            }
            return None;
        }
        offs.push(off);
        cur = off + len;
        i = i + 1;
    }
    proof { lemma_round_up(cur as nat, 8); }
    let shoff = round_up_exec(cur, 8);
    let table = (n as u64).checked_mul(64);
    let total = match table {
        Some(t) => if shoff <= usize::MAX as u64 - 32 && t <= usize::MAX as u64 - 32 - shoff { shoff + t } else { return None },
        None => return None,
    };
    assert(total == elf_len(s));
    // Write the file.
    let mut out: Vec<u8> = Vec::new();
    let shnum: u16 = #[verifier::truncate] (n as u16);
    push_ehdr(&mut out, shoff, shnum, shstrndx);
    let ghost head = ehdr_bytes(shoff, shnum, shstrndx);
    proof { reveal(ehdr_bytes); }
    let mut k: usize = 1;
    while k < n
        invariant
            s == sections@,
            n == s.len(),
            1 <= k <= n,
            offs@.len() == n,
            forall|j: int| 0 <= j < n ==> #[trigger] offs@[j] == sec_off(s, j),
            forall|j: int| 0 <= j < n ==> #[trigger] offs@[j] + 32 <= usize::MAX,
            head.len() == 64,
            out@ == head + sec_body(s, k as int),
        decreases n - k,
    {
        proof {
            lemma_body_len(s, k as int);
            lemma_round_up(sec_end(s, k as int), eff_align(s[k as int].align));
        }
        let ghost before = out@;
        pad_to(&mut out, offs[k] as usize);
        assert(out@ == before + zeros((sec_off(s, k as int) - sec_end(s, k as int)) as nat));
        push_slice(&mut out, sections[k].data.as_slice());
        assert(out@ == head + sec_body(s, k as int) + zeros((sec_off(s, k as int) - sec_end(s, k as int)) as nat) + s[k as int].data@);
        k = k + 1;
        assert(out@ =~= head + sec_body(s, k as int));
    }
    proof { lemma_body_len(s, n as int); }
    pad_to(&mut out, shoff as usize);
    let ghost mid = out@;
    proof { reveal(elf_image); }
    assert(mid =~= head + sec_body(s, n as int) + zeros((elf_shoff(s) - sec_end(s, n as int)) as nat));
    let mut h: usize = 0;
    while h < n
        invariant
            s == sections@,
            n == s.len(),
            h <= n,
            offs@.len() == n,
            forall|j: int| 0 <= j < n ==> #[trigger] offs@[j] == sec_off(s, j),
            out@ == mid + shdrs(s, h as int),
        decreases n - h,
    {
        push_shdr(&mut out, &sections[h], offs[h]);
        h = h + 1;
        assert(out@ =~= mid + shdrs(s, h as int));
    }
    proof { reveal(elf_image); }
    Some(out)
}

proof fn lemma_body_holds(s: Seq<ElfSection>, i: int, k: int)
    requires
        1 <= i < k,
    ensures
        sec_body(s, k).len() >= sec_off(s, i) - 64 + s[i].data@.len(),
        sec_body(s, k).subrange(sec_off(s, i) - 64, sec_off(s, i) - 64 + s[i].data@.len()) == s[i].data@,
    decreases k,
{
    lemma_body_len(s, i);
    lemma_round_up(sec_end(s, i), eff_align(s[i].align));
    if k == i + 1 {
        let b = sec_body(s, k);
        let pre = sec_body(s, i) + zeros((sec_off(s, i) - sec_end(s, i)) as nat);
        assert(b == pre + s[i].data@);
        assert(pre.len() == sec_off(s, i) - 64);
        assert(b.subrange(pre.len() as int, pre.len() + s[i].data@.len() as int) =~= s[i].data@);
    } else {
        lemma_body_holds(s, i, k - 1);
        let prev = sec_body(s, k - 1);
        let b = sec_body(s, k);
        assert(b.subrange(0, prev.len() as int) =~= prev);
        assert(b.subrange(sec_off(s, i) - 64, sec_off(s, i) - 64 + s[i].data@.len())
            =~= prev.subrange(sec_off(s, i) - 64, sec_off(s, i) - 64 + s[i].data@.len()));
    }
}

proof fn lemma_shdrs_hold(s: Seq<ElfSection>, i: int, k: int)
    requires
        0 <= i < k,
    ensures
        shdrs(s, k).len() == 64 * k,
        shdrs(s, k).subrange(64 * i, 64 * i + 64) == shdr_bytes(s[i], sec_off(s, i)),
    decreases k,
{
    lemma_shdrs_len(s, k);
    lemma_shdrs_len(s, k - 1);
    if k == i + 1 {
        assert(shdrs(s, k).subrange(64 * i, 64 * i + 64) =~= shdr_bytes(s[i], sec_off(s, i)));
    } else {
        lemma_shdrs_hold(s, i, k - 1);
        assert(shdrs(s, k).subrange(64 * i, 64 * i + 64) =~= shdrs(s, k - 1).subrange(64 * i, 64 * i + 64));
    }
}

proof fn lemma_image_parts(s: Seq<ElfSection>, shstrndx: u16)
    requires
        s.len() >= 1,
    ensures
        elf_image(s, shstrndx) == ehdr_bytes(elf_shoff(s) as u64, s.len() as u16, shstrndx) + sec_body(s, s.len() as int)
            + zeros((elf_shoff(s) - sec_end(s, s.len() as int)) as nat) + shdrs(s, s.len() as int),
        ehdr_bytes(elf_shoff(s) as u64, s.len() as u16, shstrndx).len() == 64,
        sec_body(s, s.len() as int).len() + 64 == sec_end(s, s.len() as int),
        sec_end(s, s.len() as int) <= elf_shoff(s),
        shdrs(s, s.len() as int).len() == 64 * s.len(),
{
    reveal(elf_image);
    reveal(ehdr_bytes);
    lemma_body_len(s, s.len() as int);
    lemma_shdrs_len(s, s.len() as int);
    lemma_round_up(sec_end(s, s.len() as int), 8);
}

proof fn lemma_window(img: Seq<u8>, head: Seq<u8>, body: Seq<u8>, x: Seq<u8>, y: Seq<u8>, d: Seq<u8>, a: int)
    requires
        img == head + body + x + y,
        head.len() <= a,
        a - head.len() + d.len() <= body.len(),
        body.subrange(a - head.len(), a - head.len() + d.len()) == d,
    ensures
        img.subrange(a, a + d.len()) == d,
{
    assert(img.subrange(a, a + d.len()) =~= body.subrange(a - head.len(), a - head.len() + d.len()));
}

/// What the writer puts in the file can be read back where the headers say:
/// each section's data lies at its file offset.
pub proof fn lemma_image_data_readback(s: Seq<ElfSection>, shstrndx: u16, i: int)
    requires
        1 <= i < s.len(),
    ensures
        elf_image(s, shstrndx).subrange(sec_off(s, i) as int, sec_off(s, i) + s[i].data@.len() as int) == s[i].data@,
{
    let n = s.len() as int;
    let head = ehdr_bytes(elf_shoff(s) as u64, s.len() as u16, shstrndx);
    let body = sec_body(s, n);
    let x = zeros((elf_shoff(s) - sec_end(s, n)) as nat);
    let y = shdrs(s, n);
    let d = s[i].data@;
    let a = sec_off(s, i) as int;
    assert(elf_image(s, shstrndx) == head + body + x + y && head.len() == 64) by {
        lemma_image_parts(s, shstrndx);
    }
    assert(64 <= a && a - 64 + d.len() <= body.len() && body.subrange(a - 64, a - 64 + d.len()) == d) by {
        lemma_body_holds(s, i, n);
        lemma_round_up(sec_end(s, i), eff_align(s[i].align));
        lemma_sec_end_mono(s, 1, i);
    }
    lemma_window(elf_image(s, shstrndx), head, body, x, y, d, a);
}

/// Bytes that begin with the identification of a little-endian 64-bit ELF
/// file for the eBPF machine.
pub open spec fn is_bpf_elf(b: Seq<u8>) -> bool {
    &&& b.len() >= 64
    &&& b[0] == 0x7fu8 && b[1] == 0x45u8 && b[2] == 0x4cu8 && b[3] == 0x46u8
    &&& b[4] == 2u8 && b[5] == 1u8
    &&& b[18] == 247u8 && b[19] == 0u8
}

/// Every image the writer produces is an eBPF ELF file.
pub proof fn lemma_image_is_bpf_elf(s: Seq<ElfSection>, shstrndx: u16)
    requires
        s.len() >= 1,
    ensures
        is_bpf_elf(elf_image(s, shstrndx)),
{
    lemma_image_header_readback(s, shstrndx, 0);
    let img = elf_image(s, shstrndx);
    let h = ehdr_bytes(elf_shoff(s) as u64, s.len() as u16, shstrndx);
    reveal(ehdr_bytes);
    assert(img.subrange(0, 64)[0] == img[0]);
    assert(img[0] == h[0] && img[1] == h[1] && img[2] == h[2] && img[3] == h[3]);
    assert(img[4] == h[4] && img[5] == h[5] && img[18] == h[18] && img[19] == h[19]);
}

/// Each section's header lies at its place in the section header table.
pub proof fn lemma_image_header_readback(s: Seq<ElfSection>, shstrndx: u16, i: int)
    requires
        0 <= i < s.len(),
    ensures
        elf_image(s, shstrndx).len() == elf_len(s),
        elf_image(s, shstrndx).subrange(elf_shoff(s) + 64 * i, elf_shoff(s) + 64 * i + 64) == shdr_bytes(s[i], sec_off(s, i)),
        elf_image(s, shstrndx).subrange(0, 64) == ehdr_bytes(elf_shoff(s) as u64, s.len() as u16, shstrndx),
{
    let n = s.len() as int;
    lemma_image_parts(s, shstrndx);
    lemma_shdrs_hold(s, i, n);
    let img = elf_image(s, shstrndx);
    let tab = shdrs(s, n);
    assert(img.subrange(elf_shoff(s) + 64 * i, elf_shoff(s) + 64 * i + 64) =~= tab.subrange(64 * i, 64 * i + 64));
    assert(img.subrange(0, 64) =~= ehdr_bytes(elf_shoff(s) as u64, s.len() as u16, shstrndx));
}

/// `a` and `b` are written alike: section by section, the same header
/// fields and the same data.
pub open spec fn elf_sections_alike(a: Seq<ElfSection>, b: Seq<ElfSection>) -> bool {
    &&& a.len() == b.len()
    &&& forall|i: int| 0 <= i < a.len() ==> {
        &&& (#[trigger] a[i]).name_off == b[i].name_off
        &&& a[i].sh_type == b[i].sh_type
        &&& a[i].flags == b[i].flags
        &&& a[i].align == b[i].align
        &&& a[i].entsize == b[i].entsize
        &&& a[i].link == b[i].link
        &&& a[i].info == b[i].info
        &&& a[i].data@ == b[i].data@
    }
}

proof fn lemma_sec_end_alike(a: Seq<ElfSection>, b: Seq<ElfSection>, k: int)
    requires
        elf_sections_alike(a, b),
        k <= a.len(),
    ensures
        sec_end(a, k) == sec_end(b, k),
        sec_body(a, k) == sec_body(b, k),
    decreases k,
{
    if k > 1 {
        lemma_sec_end_alike(a, b, k - 1);
        assert(a[k - 1].align == b[k - 1].align && a[k - 1].data@ == b[k - 1].data@);
    }
}

proof fn lemma_shdrs_alike(a: Seq<ElfSection>, b: Seq<ElfSection>, k: int)
    requires
        elf_sections_alike(a, b),
        k <= a.len(),
    ensures
        shdrs(a, k) == shdrs(b, k),
    decreases k,
{
    if k > 0 {
        lemma_shdrs_alike(a, b, k - 1);
        lemma_sec_end_alike(a, b, k - 1);
        assert(a[k - 1].align == b[k - 1].align && a[k - 1].data@ == b[k - 1].data@);
        assert(sec_off(a, k - 1) == sec_off(b, k - 1));
        assert(shdr_bytes(a[k - 1], sec_off(a, k - 1)) == shdr_bytes(b[k - 1], sec_off(b, k - 1)));
    }
}

/// Sections written alike give the same file, of the same size.
pub proof fn lemma_elf_image_alike(a: Seq<ElfSection>, b: Seq<ElfSection>, shstrndx: u16)
    requires
        elf_sections_alike(a, b),
    ensures
        elf_len(a) == elf_len(b),
        elf_image(a, shstrndx) == elf_image(b, shstrndx),
{
    reveal(elf_image);
    lemma_sec_end_alike(a, b, a.len() as int);
    lemma_shdrs_alike(a, b, a.len() as int);
}

} // verus!
