use solnix::ast::map::{MapDecl, MapType, Type};
use solnix::emit::btf::ext::build_btf_ext;
use solnix::emit::btf::BtfBuilder;
use solnix::emit::ebpf::insn as native;
use solnix::emit::ebpf_obj::insn::{
    call, exit, fits_i32, ja, jmp_imm, ld_imm64, ldx_mem, mov64_imm, mov64_reg, serialize_insns, st_mem,
    stx_mem, BpfInsn, Size, BPF_JEQ, R0, R1, R10, R2,
};
use solnix::emit::ebpf_obj::maps::build_maps;
use solnix::emit::elf::{encode_elf, ElfSection};
use solnix::ir::instruction::BinaryOp;
use solnix::parser::token::SourceLoc;

fn map(name: &str, map_type: MapType, key: Option<Type>, value: Option<Type>, max: Option<u32>) -> MapDecl {
    MapDecl {
        name: name.to_string(),
        map_type,
        key_type: key,
        value_type: value,
        max_entries: max,
        loc: SourceLoc::new(1, 1, 0),
    }
}

#[test]
fn instruction_bytes_follow_the_kernel_layout() {
    assert_eq!(mov64_imm(R1, -1).to_bytes(), [0xb7, 0x01, 0, 0, 0xff, 0xff, 0xff, 0xff]);
    assert_eq!(mov64_reg(R2, R10).to_bytes(), [0xbf, 0xa2, 0, 0, 0, 0, 0, 0]);
    assert_eq!(exit().to_bytes(), [0x95, 0, 0, 0, 0, 0, 0, 0]);
    assert_eq!(call(14).to_bytes(), [0x85, 0, 0, 0, 14, 0, 0, 0]);
    assert_eq!(ja(-2).to_bytes(), [0x05, 0, 0xfe, 0xff, 0, 0, 0, 0]);
    assert_eq!(jmp_imm(BPF_JEQ, R0, 0, 3).to_bytes(), [0x15, 0, 3, 0, 0, 0, 0, 0]);
    assert_eq!(ldx_mem(Size::Dw, R0, R10, -8).to_bytes(), [0x79, 0xa0, 0xf8, 0xff, 0, 0, 0, 0]);
    assert_eq!(stx_mem(Size::W, R10, -4, R1).to_bytes(), [0x63, 0x1a, 0xfc, 0xff, 0, 0, 0, 0]);
    assert_eq!(st_mem(Size::B, R10, -1, 7).to_bytes(), [0x72, 0x0a, 0xff, 0xff, 7, 0, 0, 0]);
    assert_eq!(BpfInsn::new(0x07, 3, 0, 0, 256).to_bytes(), [0x07, 0x03, 0, 0, 0, 1, 0, 0]);
}

#[test]
fn wide_load_splits_the_immediate() {
    let pair = ld_imm64(R1, 0x1_0000_0002);
    assert_eq!(pair[0].to_bytes(), [0x18, 0x01, 0, 0, 2, 0, 0, 0]);
    assert_eq!(pair[1].to_bytes(), [0, 0, 0, 0, 1, 0, 0, 0]);
    let neg = ld_imm64(R2, -1);
    assert_eq!(neg[0].to_bytes(), [0x18, 0x02, 0, 0, 0xff, 0xff, 0xff, 0xff]);
    assert_eq!(neg[1].to_bytes(), [0, 0, 0, 0, 0xff, 0xff, 0xff, 0xff]);
}

#[test]
fn serialized_program_is_the_concatenation() {
    let insns = [mov64_imm(R0, 0), exit()];
    let bytes = serialize_insns(&insns);
    assert_eq!(bytes.len(), 16);
    assert_eq!(&bytes[0..8], &mov64_imm(R0, 0).to_bytes());
    assert_eq!(&bytes[8..16], &exit().to_bytes());
    assert!(serialize_insns(&[]).is_empty());
}

#[test]
fn immediate_range_check() {
    assert!(fits_i32(i32::MAX as i64));
    assert!(fits_i32(i32::MIN as i64));
    assert!(!fits_i32(i32::MAX as i64 + 1));
    assert!(!fits_i32(i32::MIN as i64 - 1));
}

#[test]
fn native_opcodes() {
    assert_eq!(native::alu64_imm(BinaryOp::Add), 0x07);
    assert_eq!(native::alu64_imm(BinaryOp::Mod), 0x97);
    assert_eq!(native::alu64_reg(BinaryOp::Sub), 0x1f);
    assert_eq!(native::alu64_reg(BinaryOp::Shr), 0x7f);
    assert_eq!(native::ldx_mem(4).unwrap(), 0x61);
    assert_eq!(native::ldx_mem(8).unwrap(), 0x79);
    assert_eq!(native::stx_mem(2).unwrap(), 0x6b);
    assert_eq!(native::ldx_mem(3).unwrap_err(), "unsupported load size: 3");
    assert_eq!(native::stx_mem(16).unwrap_err(), "unsupported store size: 16");
    let i = native::Insn::new(0xb7, 1, 0, 0, 42);
    assert_eq!(i.to_le_bytes(), [0xb7, 0x01, 0, 0, 42, 0, 0, 0]);
}

#[test]
fn map_definitions_are_encoded_in_order() {
    let maps = vec![
        map("counts", MapType::Hash, Some(Type::U32), Some(Type::U64), Some(1024)),
        map("events", MapType::Ringbuf, None, None, Some(1 << 24)),
    ];
    let sec = build_maps(&maps).unwrap();
    assert_eq!(sec.bytes.len(), 40);
    assert_eq!(
        &sec.bytes[0..20],
        &[1, 0, 0, 0, 4, 0, 0, 0, 8, 0, 0, 0, 0, 4, 0, 0, 0, 0, 0, 0]
    );
    assert_eq!(
        &sec.bytes[20..40],
        &[27, 0, 0, 0, 0, 0, 0, 0, 0, 0, 0, 0, 0, 0, 0, 1, 0, 0, 0, 0]
    );
    assert_eq!(sec.records.len(), 2);
    assert_eq!((sec.records[1].name.as_str(), sec.records[1].offset, sec.records[1].size), ("events", 20, 20));
    assert_eq!(sec.index_of("events"), Some(1));
    assert_eq!(sec.index_of("nope"), None);
}

#[test]
fn map_encoding_errors() {
    let clash = vec![
        map("a-b", MapType::Ringbuf, None, None, Some(4096)),
        map("a_b", MapType::Ringbuf, None, None, Some(4096)),
    ];
    assert_eq!(build_maps(&clash).unwrap_err(), "duplicate map name 'a_b'");
    let no_key = vec![map("m", MapType::Hash, None, Some(Type::U32), Some(1))];
    assert_eq!(build_maps(&no_key).unwrap_err(), "map 'm' missing key type");
    let no_value = vec![map("m", MapType::Array, Some(Type::U32), None, Some(1))];
    assert_eq!(build_maps(&no_value).unwrap_err(), "map 'm' missing value type");
    let sec = build_maps(&vec![map("", MapType::Ringbuf, None, None, None)]).unwrap();
    assert_eq!(sec.records[0].name, "_map");
    assert_eq!(&sec.bytes[12..16], &[0, 0, 0, 0]);
}

#[test]
fn btf_blob_has_header_then_strings() {
    let mut b = BtfBuilder::new();
    assert_eq!(b.add_string("ab"), 1);
    assert_eq!(b.add_string("c"), 4);
    let blob = b.emit();
    assert_eq!(blob.len(), 24 + 6);
    assert_eq!(&blob[0..4], &[0x9f, 0xeb, 1, 0]);
    assert_eq!(&blob[4..8], &[24, 0, 0, 0]);
    assert_eq!(&blob[12..16], &[0, 0, 0, 0]);
    assert_eq!(&blob[20..24], &[6, 0, 0, 0]);
    assert_eq!(&blob[24..], b"\0ab\0c\0");
}

#[test]
fn empty_btf_ext_is_a_bare_header() {
    let ext = build_btf_ext();
    assert_eq!(ext.len(), 24);
    assert_eq!(&ext[0..8], &[0x9f, 0xeb, 1, 0, 24, 0, 0, 0]);
    assert!(ext[8..].iter().all(|b| *b == 0));
}

#[test]
fn elf_writer_places_data_and_headers() {
    let null = ElfSection { name_off: 0, sh_type: 0, flags: 0, align: 0, entsize: 0, link: 0, info: 0, data: Vec::new() };
    let text = ElfSection { name_off: 1, sh_type: 1, flags: 6, align: 8, entsize: 0, link: 0, info: 0, data: vec![1, 2, 3] };
    let names = ElfSection { name_off: 7, sh_type: 3, flags: 0, align: 1, entsize: 0, link: 0, info: 0, data: b"\0.text\0.shstrtab\0".to_vec() };
    let img = encode_elf(&vec![null, text, names], 2).unwrap();
    // data: .text at 64 (already aligned to 8), names at 67; table at round_up(84, 8) = 88
    let shoff = u64::from_le_bytes(img[40..48].try_into().unwrap());
    assert_eq!(shoff, 88);
    assert_eq!(img.len(), 88 + 3 * 64);
    assert_eq!(&img[0..4], &[0x7f, b'E', b'L', b'F']);
    assert_eq!(u16::from_le_bytes([img[60], img[61]]), 3);
    assert_eq!(u16::from_le_bytes([img[62], img[63]]), 2);
    assert_eq!(&img[64..67], &[1, 2, 3]);
    assert_eq!(&img[67..84], b"\0.text\0.shstrtab\0");
    // header of section 1: sh_offset at +24, sh_size at +32
    let h1 = 88 + 64;
    assert_eq!(u64::from_le_bytes(img[h1 + 24..h1 + 32].try_into().unwrap()), 64);
    assert_eq!(u64::from_le_bytes(img[h1 + 32..h1 + 40].try_into().unwrap()), 3);
    let h2 = 88 + 128;
    assert_eq!(u64::from_le_bytes(img[h2 + 24..h2 + 32].try_into().unwrap()), 67);
    // the null section's header is all zero
    assert!(img[88..152].iter().all(|b| *b == 0));
}
