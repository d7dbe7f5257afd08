use bpfi::elf::read_image;
use bpfi::loader::{
    plan_load, resolve_relocations, LoadError, PatchValue, PatchWrite, RtReloc, DISPATCH_TABLE_SIZE,
    R_X86_64_64,
};

fn push_u16(v: &mut Vec<u8>, x: u16) {
    v.extend_from_slice(&x.to_le_bytes());
}

fn push_u32(v: &mut Vec<u8>, x: u32) {
    v.extend_from_slice(&x.to_le_bytes());
}

fn push_u64(v: &mut Vec<u8>, x: u64) {
    v.extend_from_slice(&x.to_le_bytes());
}

fn section_header(v: &mut Vec<u8>, name: u32, kind: u32, offset: u64, size: u64, align: u64) {
    linked_section_header(v, name, kind, offset, size, align, 0, 0, 0);
}

fn linked_section_header(
    v: &mut Vec<u8>,
    name: u32,
    kind: u32,
    offset: u64,
    size: u64,
    align: u64,
    link: u32,
    info: u32,
    entsize: u64,
) {
    push_u32(v, name);
    push_u32(v, kind);
    push_u64(v, 0); // flags
    push_u64(v, 0); // addr
    push_u64(v, offset);
    push_u64(v, size);
    push_u32(v, link);
    push_u32(v, info);
    push_u64(v, align);
    push_u64(v, entsize);
}

/// A relocatable x86-64 object with the sections `.shstrtab`, `.rt.enter` (16 bytes, aligned to
/// 16) and `.text.x` (4 bytes, aligned to 4), and no symbols.
fn object_file() -> Vec<u8> {
    let names = b"\0.shstrtab\0.rt.enter\0.text.x\0";
    let mut v = Vec::new();
    v.extend_from_slice(&[0x7F, b'E', b'L', b'F', 2, 1, 1, 0, 0, 0, 0, 0, 0, 0, 0, 0]);
    push_u16(&mut v, 1); // relocatable
    push_u16(&mut v, 62); // x86-64
    push_u32(&mut v, 1);
    push_u64(&mut v, 0); // entry
    push_u64(&mut v, 0); // program headers
    push_u64(&mut v, 120); // section headers
    push_u32(&mut v, 0); // flags
    push_u16(&mut v, 64);
    push_u16(&mut v, 0);
    push_u16(&mut v, 0);
    push_u16(&mut v, 64);
    push_u16(&mut v, 4); // sections
    push_u16(&mut v, 1); // section names in section 1
    v.extend_from_slice(names);
    v.resize(96, 0);
    v.extend_from_slice(&[0x90; 16]);
    v.extend_from_slice(&[0xC3; 4]);
    v.resize(120, 0);
    section_header(&mut v, 0, 0, 0, 0, 0);
    section_header(&mut v, 1, 3, 64, names.len() as u64, 1);
    section_header(&mut v, 11, 1, 96, 16, 16);
    section_header(&mut v, 21, 1, 112, 4, 4);
    v
}

#[test]
fn reads_sections_of_an_object_file() {
    let image = read_image(&object_file()).unwrap();
    assert_eq!(image.sections.len(), 4);
    let enter = image.sections[2].as_ref().unwrap();
    assert_eq!(enter.name.as_deref(), Some(&b".rt.enter"[..]));
    assert_eq!(enter.data_len, Ok(16));
    assert_eq!(enter.align, 16);
    assert!(enter.relocations.is_empty());
    let text = image.sections[3].as_ref().unwrap();
    assert_eq!(text.name.as_deref(), Some(&b".text.x"[..]));
    assert_eq!(text.data_len, Ok(4));
    assert_eq!(text.align, 4);
    let names = image.sections[1].as_ref().unwrap();
    assert_eq!(names.name.as_deref(), Some(&b".shstrtab"[..]));
}

#[test]
fn an_object_file_plans_its_entry_section() {
    let image = read_image(&object_file()).unwrap();
    let plan = plan_load(&image, &[], 0).unwrap();
    assert!(plan.slots.is_empty());
    assert_eq!(plan.support.len(), 1);
    assert_eq!(plan.support[0].section, 2);
    assert_eq!(plan.support[0].offset, DISPATCH_TABLE_SIZE);
    assert_eq!(plan.total_size, DISPATCH_TABLE_SIZE + 16);
}

#[test]
fn bytes_that_are_no_object_file_do_not_parse() {
    assert!(matches!(read_image(&[1, 2, 3, 4]), Err(LoadError::ElfParse(_))));
}

/// A relocatable x86-64 object: `.rt.enter` (16 bytes) with a 64-bit relocation at offset 8
/// to the symbol `helper` (index 1), defined at offset 2 of `.text.x` (4 bytes), addend 5.
fn object_file_with_symbols() -> Vec<u8> {
    let names = b"\0.shstrtab\0.rt.enter\0.text.x\0.symtab\0.strtab\0.rela.rt.enter\0";
    let mut v = Vec::new();
    v.extend_from_slice(&[0x7F, b'E', b'L', b'F', 2, 1, 1, 0, 0, 0, 0, 0, 0, 0, 0, 0]);
    push_u16(&mut v, 1);
    push_u16(&mut v, 62);
    push_u32(&mut v, 1);
    push_u64(&mut v, 0);
    push_u64(&mut v, 0);
    push_u64(&mut v, 232); // section headers
    push_u32(&mut v, 0);
    push_u16(&mut v, 64);
    push_u16(&mut v, 0);
    push_u16(&mut v, 0);
    push_u16(&mut v, 64);
    push_u16(&mut v, 7); // sections
    push_u16(&mut v, 1);
    v.extend_from_slice(names); // 64..124
    v.resize(128, 0);
    v.extend_from_slice(&[0x90; 16]); // .rt.enter: 128..144
    v.extend_from_slice(&[0xC3; 4]); // .text.x: 144..148
    v.resize(152, 0);
    v.extend_from_slice(&[0; 24]); // .symtab: 152..200, the null symbol
    push_u32(&mut v, 1); // "helper"
    v.push(0x12); // global function
    v.push(0);
    push_u16(&mut v, 3); // in .text.x
    push_u64(&mut v, 2);
    push_u64(&mut v, 0);
    v.extend_from_slice(b"\0helper\0"); // .strtab: 200..208
    push_u64(&mut v, 8); // .rela.rt.enter: 208..232
    push_u64(&mut v, (1 << 32) | 1);
    push_u64(&mut v, 5);
    section_header(&mut v, 0, 0, 0, 0, 0);
    section_header(&mut v, 1, 3, 64, names.len() as u64, 1);
    section_header(&mut v, 11, 1, 128, 16, 16);
    section_header(&mut v, 21, 1, 144, 4, 4);
    linked_section_header(&mut v, 29, 2, 152, 48, 8, 5, 1, 24);
    section_header(&mut v, 37, 3, 200, 8, 1);
    linked_section_header(&mut v, 45, 4, 208, 24, 8, 4, 2, 24);
    v
}

#[test]
fn reads_symbols_and_relocations() {
    let image = read_image(&object_file_with_symbols()).unwrap();
    assert_eq!(image.sections.len(), 7);
    let enter = image.sections[2].as_ref().unwrap();
    assert_eq!(enter.relocations.len(), 1);
    let r: &RtReloc = &enter.relocations[0];
    assert_eq!((r.offset, r.symbol, r.r_type, r.addend), (8, Some(1), Some(R_X86_64_64), 5));
    assert_eq!(image.symbols.len(), 2);
    let helper = image.symbols[1].as_ref().unwrap();
    assert_eq!(helper.name.as_deref(), Some(&b"helper"[..]));
    assert_eq!(helper.section, Some(3));
    assert_eq!(helper.address, 2);
}

#[test]
fn an_object_file_loads_and_relocates() {
    let image = read_image(&object_file_with_symbols()).unwrap();
    let base = 0x4000_0000u64;
    let plan = plan_load(&image, &[], base).unwrap();
    let order: Vec<usize> = plan.support.iter().map(|l| l.section).collect();
    assert_eq!(order, vec![2, 3]);
    let writes = resolve_relocations(&image, &plan, base).unwrap();
    let helper = base + DISPATCH_TABLE_SIZE as u64 + 16 + 2;
    assert_eq!(
        writes,
        vec![PatchWrite { vaddr: base + DISPATCH_TABLE_SIZE as u64 + 8, value: PatchValue::U64(helper + 5) }]
    );
}
