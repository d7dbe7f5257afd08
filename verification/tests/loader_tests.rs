use bpfi::loader::{
    entry_address, parse_num, parse_step_name, parse_u8, plan_load, resolve_relocations,
    step_slot_offset, LoadError, PatchValue, PatchWrite, RtImage, RtReloc, RtSection, RtSymbol,
    DISPATCH_TABLE_SIZE, MMAP_SIZE, R_X86_64_32S, R_X86_64_64, R_X86_64_PC32, TOTAL_SLOTS,
};

fn section(name: &str, len: usize, align: u64, relocations: Vec<RtReloc>) -> Option<RtSection> {
    Some(RtSection { name: Some(name.as_bytes().to_vec()), data_len: Ok(len), align, relocations })
}

fn symbol(name: &str, section: Option<usize>, address: u64) -> Option<RtSymbol> {
    Some(RtSymbol { name: Some(name.as_bytes().to_vec()), section, address })
}

fn reloc(offset: u64, symbol: usize, r_type: u32, addend: i64) -> RtReloc {
    RtReloc { offset, symbol: Some(symbol), r_type: Some(r_type), addend }
}

/// Sections: 1 sigill, 2 enter (refers to helper), 3 helper, 4 step handler of
/// (opcode 7, dst 3, src 0) (refers to helper).
fn image() -> RtImage {
    RtImage {
        sections: vec![
            None,
            section(".rt.sigill", 8, 16, vec![]),
            section(".rt.enter", 16, 16, vec![reloc(2, 1, R_X86_64_PC32, -4), reloc(8, 3, R_X86_64_64, 0)]),
            section(".text.helper", 10, 4, vec![]),
            section(".rt.007.03.00", 8, 16, vec![reloc(4, 1, R_X86_64_PC32, -4)]),
        ],
        symbols: vec![
            None,
            symbol("helper", Some(3), 2),
            symbol("bpfi_rt_enter", Some(2), 0),
            symbol(".ibase", None, 0),
        ],
    }
}

#[test]
fn numbers_in_decimal_and_hex() {
    assert_eq!(parse_num(b"007"), Some(7));
    assert_eq!(parse_num(b"0x1f"), Some(31));
    assert_eq!(parse_num(b"0X1F"), Some(31));
    assert_eq!(parse_num(b"+12"), Some(12));
    assert_eq!(parse_num(b""), None);
    assert_eq!(parse_num(b"0x"), None);
    assert_eq!(parse_num(b"+"), None);
    assert_eq!(parse_num(b"-1"), None);
    assert_eq!(parse_num(b"12a"), None);
    assert_eq!(parse_num(b"99999999999999999999999"), None);
    assert_eq!(parse_num(b"18446744073709551615"), Some(usize::MAX));
    assert_eq!(parse_u8(b"255"), Some(255));
    assert_eq!(parse_u8(b"256"), None);
    assert_eq!(parse_u8(b"0xff"), Some(255));
}

#[test]
fn step_section_names() {
    assert_eq!(parse_step_name(b".rt.007.03.00"), Some((7, 3, 0)));
    assert_eq!(parse_step_name(b".rt.0xbf.1.2"), Some((191, 1, 2)));
    assert_eq!(parse_step_name(b".rt.sigill"), None);
    assert_eq!(parse_step_name(b"rt.7.3.0"), None);
    assert_eq!(parse_step_name(b".rt.7.3"), None);
    assert_eq!(parse_step_name(b".rt.7.3.0.1"), None);
    assert_eq!(parse_step_name(b".xt.7.3.0"), None);
    assert_eq!(parse_step_name(b".rt.300.3.0"), None);
    assert_eq!(parse_step_name(b".rt..3.0"), None);
}

#[test]
fn plan_places_slots_and_support_sections() {
    let img = image();
    let base = 0x1000_0000u64;
    let plan = plan_load(&img, &[7], base).unwrap();
    assert_eq!(plan.slots.len(), TOTAL_SLOTS);
    assert_eq!(plan.slots[775].slot, 775);
    assert_eq!(plan.slots[775].section, 4);
    assert_eq!(plan.slots[7].section, 1);
    assert_eq!(plan.slots[8].section, 1);
    assert!(plan.slots.iter().all(|s| s.len <= 64));
    assert_eq!(plan.support.len(), 2);
    assert_eq!((plan.support[0].section, plan.support[0].offset, plan.support[0].len), (2, DISPATCH_TABLE_SIZE, 16));
    assert_eq!((plan.support[1].section, plan.support[1].offset, plan.support[1].len), (3, DISPATCH_TABLE_SIZE + 16, 10));
    assert_eq!(plan.total_size, DISPATCH_TABLE_SIZE + 26);
    assert!(plan.total_size <= MMAP_SIZE);
    assert_eq!(plan.sites.len(), 3);
    assert_eq!(plan.sites[0].patch_vaddr, base + 775 * 64 + 4);
    assert_eq!(plan.sites[1].patch_vaddr, base + DISPATCH_TABLE_SIZE as u64 + 2);
    assert_eq!(plan.sites[2].patch_vaddr, base + DISPATCH_TABLE_SIZE as u64 + 8);
}

#[test]
fn unsupported_opcodes_get_the_sigill_handler() {
    let img = image();
    let plan = plan_load(&img, &[], 0).unwrap();
    assert_eq!(plan.slots[775].section, 1);
    assert_eq!(plan.sites.len(), 2);
    // the helper is still loaded, for the entry section
    assert_eq!(plan.support.len(), 2);
}

#[test]
fn relocations_resolve_to_loaded_addresses() {
    let img = image();
    let base = 0x1000_0000u64;
    let plan = plan_load(&img, &[7], base).unwrap();
    let writes = resolve_relocations(&img, &plan, base).unwrap();
    let helper = base + DISPATCH_TABLE_SIZE as u64 + 16 + 2;
    let p0 = base + 775 * 64 + 4;
    assert_eq!(writes[0], PatchWrite { vaddr: p0, value: PatchValue::I32((helper as i64 - 4 - p0 as i64) as i32) });
    let p1 = base + DISPATCH_TABLE_SIZE as u64 + 2;
    assert_eq!(writes[1], PatchWrite { vaddr: p1, value: PatchValue::I32((helper as i64 - 4 - p1 as i64) as i32) });
    // `.ibase` resolves to the base of the mapping
    assert_eq!(writes[2], PatchWrite { vaddr: base + DISPATCH_TABLE_SIZE as u64 + 8, value: PatchValue::U64(base) });
    assert_eq!(entry_address(&img, &plan, base), Ok(base + DISPATCH_TABLE_SIZE as u64));
}

#[test]
fn absolute_32_bit_relocation_is_truncated() {
    let mut img = image();
    img.sections[2] = section(".rt.enter", 16, 16, vec![reloc(0, 1, R_X86_64_32S, 0x10)]);
    let base = 0x4000_0000u64;
    let plan = plan_load(&img, &[], base).unwrap();
    let writes = resolve_relocations(&img, &plan, base).unwrap();
    let helper = base + DISPATCH_TABLE_SIZE as u64 + 16 + 2;
    assert_eq!(writes[0].value, PatchValue::I32((helper + 0x10) as i32));
}

#[test]
fn missing_enter_section_is_an_error() {
    let mut img = image();
    img.sections[2] = section(".rt.other", 16, 16, vec![]);
    assert_eq!(plan_load(&img, &[7], 0).unwrap_err(), LoadError::NoEnterSection);
}

#[test]
fn oversized_step_handler_is_an_error() {
    let mut img = image();
    img.sections[4] = section(".rt.007.03.00", 65, 16, vec![]);
    assert_eq!(plan_load(&img, &[7], 0).unwrap_err(), LoadError::SectionTooLarge(65));
    // without the opcode enabled the handler is not loaded
    assert!(plan_load(&img, &[], 0).is_ok());
}

#[test]
fn unreadable_section_is_an_error() {
    let mut img = image();
    img.sections[3] = Some(RtSection {
        name: Some(b".text.helper".to_vec()),
        data_len: Err("compressed".to_string()),
        align: 4,
        relocations: vec![],
    });
    assert_eq!(plan_load(&img, &[], 0).unwrap_err(), LoadError::SectionData("compressed".to_string()));
}

#[test]
fn support_heap_overflow_is_an_error() {
    let mut img = image();
    img.sections[3] = section(".text.helper", 4 * 1024 * 1024, 4, vec![]);
    assert_eq!(plan_load(&img, &[], 0).unwrap_err(), LoadError::SupportHeapOverflow);
}

#[test]
fn relocation_errors() {
    let mut img = image();
    img.sections[2] = section(".rt.enter", 16, 16, vec![reloc(0, 1, 99, 0)]);
    let plan = plan_load(&img, &[], 0).unwrap();
    assert_eq!(resolve_relocations(&img, &plan, 0).unwrap_err(), LoadError::UnhandledRelocation(Some(99)));
    let mut img = image();
    img.sections[2] = section(".rt.enter", 16, 16, vec![reloc(0, 9, R_X86_64_64, 0)]);
    let plan = plan_load(&img, &[], 0).unwrap();
    assert_eq!(resolve_relocations(&img, &plan, 0).unwrap_err(), LoadError::SymbolResolution);
    let mut img = image();
    img.symbols.push(symbol("far", Some(1), 0));
    img.sections[2] = section(".rt.enter", 16, 16, vec![reloc(0, 4, R_X86_64_64, 0)]);
    let plan = plan_load(&img, &[], 0).unwrap();
    // section 1 is referenced, so it is loaded and the symbol resolves
    assert!(resolve_relocations(&img, &plan, 0).is_ok());
}

#[test]
fn entry_symbol_errors() {
    let mut img = image();
    img.symbols[2] = symbol("other", Some(2), 0);
    let plan = plan_load(&img, &[], 0).unwrap();
    assert_eq!(entry_address(&img, &plan, 0), Err(LoadError::NoEnterSymbol));
    let mut img = image();
    img.symbols[2] = symbol("bpfi_rt_enter", Some(4), 0);
    let plan = plan_load(&img, &[], 0).unwrap();
    assert_eq!(entry_address(&img, &plan, 0), Err(LoadError::EnterSectionNotLoaded));
}

#[test]
fn step_slot_offsets() {
    // the slot the loader fills for `.rt.007.03.00`
    assert_eq!(step_slot_offset(7, 3, 0), (7 | (3 << 8)) * 64);
    assert_eq!(step_slot_offset(0, 0, 1), 4096 * 64);
    let plan = plan_load(&image(), &[7], 0).unwrap();
    let slot = step_slot_offset(7, 3, 0) / 64;
    assert_eq!(plan.slots[slot].section, 4);
}

#[test]
fn supporting_sections_load_in_queue_order_once_each() {
    // 1 sigill, 2 enter -> (a, b), 3 a -> b, 4 b, 5 c -> a, 6 step handler of slot 7 -> c,
    // 7 unreferenced.
    let img = RtImage {
        sections: vec![
            None,
            section(".rt.sigill", 8, 8, vec![]),
            section(".rt.enter", 8, 8, vec![reloc(0, 1, R_X86_64_64, 0), reloc(0, 2, R_X86_64_64, 0)]),
            section(".text.a", 8, 8, vec![reloc(0, 2, R_X86_64_64, 0)]),
            section(".text.b", 8, 8, vec![]),
            section(".text.c", 8, 8, vec![reloc(0, 1, R_X86_64_64, 0)]),
            section(".rt.7.0.0", 8, 8, vec![reloc(0, 3, R_X86_64_64, 0)]),
            section(".text.unused", 8, 8, vec![]),
        ],
        symbols: vec![
            None,
            symbol("a", Some(3), 0),
            symbol("b", Some(4), 0),
            symbol("c", Some(5), 0),
        ],
    };
    let plan = plan_load(&img, &[7], 0).unwrap();
    let order: Vec<usize> = plan.support.iter().map(|l| l.section).collect();
    // Queue: enter, c (from the slot); then a, b (from enter); a again (from c), b (from a).
    assert_eq!(order, vec![2, 5, 3, 4]);
    let offsets: Vec<usize> = plan.support.iter().map(|l| l.offset).collect();
    assert_eq!(
        offsets,
        vec![DISPATCH_TABLE_SIZE, DISPATCH_TABLE_SIZE + 8, DISPATCH_TABLE_SIZE + 16, DISPATCH_TABLE_SIZE + 24]
    );
}

#[test]
fn missing_supporting_section_is_an_invalid_index() {
    let mut img = image();
    img.symbols[1] = symbol("helper", Some(40), 2);
    assert!(matches!(plan_load(&img, &[7], 0), Err(LoadError::InvalidSectionIndex)));
}
