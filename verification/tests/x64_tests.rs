use bpfi::template::{Placeholder, Template};
use bpfi::x64::ast::{
    byte_trailing_zeros, ImmTemplate, Instruction, Mem, MemSize, Operand, Prefix, Reg as AReg,
    RegType,
};
use bpfi::x64::mem::Mem as GMem;
use bpfi::x64::{
    opguard, opguard_szop, AddressSize, Encoding, EncodingMem, EncodingRm, Flag, OperandInfo, Reg,
};

fn content(t: &Template) -> Vec<u8> {
    t.bytes[..t.len].to_vec()
}

fn q(n: u8) -> Operand {
    Operand::Reg(AReg(RegType::Q, n))
}

fn b(n: u8) -> Operand {
    Operand::Reg(AReg(RegType::B, n))
}

fn plain(op: &'static [u8], opi: OperandInfo, reg: Option<Reg>, rm: EncodingRm) -> Encoding {
    Encoding { pref: &[], op, opi, reg, rm, ext: None, tail: None }
}

#[test]
fn operand_info_sets_rex_w_for_quad_operands() {
    let oi = OperandInfo::new(q(0), &[q(3)]);
    assert_eq!(oi.rex_byte, 0x48);
    assert!(!oi.emit_operand_size_override_prefix);
    let w = OperandInfo::new(Operand::Reg(AReg(RegType::W, 3)), &[]);
    assert_eq!(w.rex_byte, 0);
    assert!(w.emit_operand_size_override_prefix);
}

#[test]
fn operand_info_forces_rex_for_unified_byte_registers() {
    assert_eq!(OperandInfo::new(b(0), &[b(4)]).rex_byte, 0x40);
    assert_eq!(OperandInfo::new(b(0), &[b(8)]).rex_byte, 0);
    assert_eq!(OperandInfo::new(b(7), &[]).rex_byte, 0x40);
    assert_eq!(OperandInfo::unsz(&[b(5)]).rex_byte, 0x40);
    assert_eq!(OperandInfo::unsz(&[q(5)]).rex_byte, 0);
    assert_eq!(OperandInfo::new(Operand::Imm(Template::placeholder(4)), &[]).rex_byte, 0);
    assert_eq!(OperandInfo::new(Operand::Mem(MemSize::Qword, Mem::base(AReg(RegType::Q, 0))), &[]).rex_byte, 0x48);
}

#[test]
fn encode_add_rax_rbx() {
    let e = plain(&[0x01], OperandInfo::new(q(0), &[q(3)]), Some(Reg(3)), EncodingRm::Reg(Reg(0)));
    assert_eq!(content(&e.encode()), vec![0x48, 0x01, 0xD8]);
}

#[test]
fn encode_add_al_r8b_sets_rex_r() {
    let e = plain(&[0x00], OperandInfo::new(b(0), &[b(8)]), Some(Reg(8)), EncodingRm::Reg(Reg(0)));
    assert_eq!(content(&e.encode()), vec![0x44, 0x00, 0xC0]);
}

#[test]
fn encode_add_al_spl_emits_bare_rex() {
    let e = plain(&[0x00], OperandInfo::new(b(0), &[b(4)]), Some(Reg(4)), EncodingRm::Reg(Reg(0)));
    assert_eq!(content(&e.encode()), vec![0x40, 0x00, 0xE0]);
}

#[test]
fn encode_add_r9_imm32_with_extension_and_tail() {
    let imm = ImmTemplate(32i32).template();
    let e = Encoding {
        pref: &[],
        op: &[0x81],
        opi: OperandInfo::new(q(9), &[Operand::Imm(imm)]),
        reg: None,
        rm: EncodingRm::Reg(Reg(9)),
        ext: Some(0),
        tail: Some(imm),
    };
    assert_eq!(content(&e.encode()), vec![0x49, 0x81, 0xC1, 0x20, 0, 0, 0]);
}

#[test]
fn encode_register_folded_into_opcode() {
    // `push r12`: the register goes into the opcode; its extension bit is set both as REX.R
    // (for the register operand) and as REX.B (for the register folded into the opcode).
    let e = Encoding {
        pref: &[],
        op: &[0x50],
        opi: OperandInfo::unsz(&[q(12)]),
        reg: Some(Reg(12)),
        rm: EncodingRm::Absent,
        ext: None,
        tail: None,
    };
    assert_eq!(content(&e.encode()), vec![0x45, 0x54]);
}

#[test]
fn encode_sib_with_base_index_and_disp8() {
    // movbe eax, dword [rsi + rax * 8 + 32]
    let mem = Mem::scale_index_base(8, AReg(RegType::Q, 0), AReg(RegType::Q, 6), ImmTemplate(32i8).template());
    let dst = Operand::Reg(AReg(RegType::D, 0));
    let src = Operand::Mem(MemSize::Dword, mem);
    let e = Encoding {
        pref: &[],
        op: &[0x0F, 0x38, 0xF0],
        opi: OperandInfo::new(dst, &[src]),
        reg: Some(dst.reg()),
        rm: src.rm(),
        ext: None,
        tail: None,
    };
    assert_eq!(content(&e.encode()), vec![0x0F, 0x38, 0xF0, 0x44, 0xC6, 0x20]);
}

#[test]
fn encode_index_only_with_32_bit_addressing() {
    // movbe eax, dword [ecx * 8 + 32i32]
    let mem = Mem::scale_index(8, AReg(RegType::D, 1), ImmTemplate(32i32).template());
    let dst = Operand::Reg(AReg(RegType::D, 0));
    let src = Operand::Mem(MemSize::Dword, mem);
    let e = Encoding {
        pref: &[],
        op: &[0x0F, 0x38, 0xF0],
        opi: OperandInfo::new(dst, &[src]),
        reg: Some(dst.reg()),
        rm: src.rm(),
        ext: None,
        tail: None,
    };
    assert_eq!(content(&e.encode()), vec![0x67, 0x0F, 0x38, 0xF0, 0x04, 0xCD, 0x20, 0, 0, 0]);
}

#[test]
fn encode_rsp_base_needs_sib_and_r13_base_needs_disp() {
    let mem = Mem::base(AReg(RegType::Q, 4));
    let rm = Operand::Mem(MemSize::Qword, mem).rm();
    let e = plain(&[0x8B], OperandInfo::new(q(0), &[]), Some(Reg(0)), rm);
    assert_eq!(content(&e.encode()), vec![0x48, 0x8B, 0x04, 0x24]);
    let mem = Mem::base_displacement(AReg(RegType::Q, 13), ImmTemplate(0i8).template());
    let rm = Operand::Mem(MemSize::Qword, mem).rm();
    let e = plain(&[0x8B], OperandInfo::new(q(0), &[]), Some(Reg(0)), rm);
    assert_eq!(content(&e.encode()), vec![0x49, 0x8B, 0x45, 0x00]);
}

#[test]
fn encode_displacement_only_and_placeholder_positions() {
    let mem = Mem::displacement_only(Template::placeholder(4));
    let rm = Operand::Mem(MemSize::Dword, mem).rm();
    let e = plain(&[0x8B], OperandInfo::new(Operand::Reg(AReg(RegType::D, 0)), &[]), Some(Reg(0)), rm);
    let t = e.encode();
    assert_eq!(content(&t), vec![0x8B, 0x04, 0x25, 0, 0, 0, 0]);
    assert_eq!(t.placeholder_count, 1);
    assert_eq!(t.placeholders[0], Placeholder { location: 3, size: 4 });
}

#[test]
fn encode_absolute_address_keeps_the_register_field() {
    // mov ecx, [0x1000]
    let mem = Mem::displacement_only(Template::bytes([0x00, 0x10, 0x00, 0x00]));
    let rm = Operand::Mem(MemSize::Dword, mem).rm();
    let e = plain(&[0x8B], OperandInfo::new(Operand::Reg(AReg(RegType::D, 1)), &[]), Some(Reg(1)), rm);
    assert_eq!(content(&e.encode()), vec![0x8B, 0x0C, 0x25, 0x00, 0x10, 0x00, 0x00]);
}

#[test]
fn encode_crc32_with_operand_size_and_fixed_prefix() {
    // crc32 eax, bx
    let e = Encoding {
        pref: &[0xF2],
        op: &[0x0F, 0x38, 0xF1],
        opi: OperandInfo::new(Operand::Reg(AReg(RegType::W, 3)), &[]),
        reg: Some(Reg(0)),
        rm: EncodingRm::Reg(Reg(3)),
        ext: None,
        tail: None,
    };
    assert_eq!(content(&e.encode()), vec![0x66, 0xF2, 0x0F, 0x38, 0xF1, 0xC3]);
}

#[test]
fn instruction_prefixes_precede_encoding() {
    let retn = Encoding { pref: &[], op: &[0xC3], opi: OperandInfo::unsz(&[]), reg: None, rm: EncodingRm::Absent, ext: None, tail: None };
    let insn = Instruction { prefixes: &[Prefix::Lock, Prefix::Repnz], encoding: retn };
    assert_eq!(content(&insn.encode_prefixes()), vec![0xF0, 0xF2]);
    assert_eq!(content(&insn.encode()), vec![0xF0, 0xF2, 0xC3]);
    assert_eq!(content(&Prefix::Rep.encode()), vec![0xF3]);
}

#[test]
fn jump_with_placeholder_offset() {
    let jo = Encoding {
        pref: &[],
        op: &[0x70],
        opi: OperandInfo::unsz(&[]),
        reg: None,
        rm: EncodingRm::Absent,
        ext: None,
        tail: Some(Template::placeholder(1)),
    };
    let t = jo.encode();
    assert_eq!(content(&t), vec![0x70, 0x00]);
    assert_eq!(t.placeholders[0], Placeholder { location: 1, size: 1 });
}

#[test]
fn mem_encoding_chooses_address_size_and_scale_bits() {
    let m = Mem::scale_index_base(4, AReg(RegType::D, 2), AReg(RegType::D, 3), Template::empty());
    let e = m.encoding();
    assert!(matches!(e.addressing_size, AddressSize::A32));
    assert_eq!(e.base, Some(Reg(3)));
    assert_eq!(e.index, Some((Reg(2), 2)));
    let m = Mem::base(AReg(RegType::Q, 15));
    assert!(matches!(m.encoding().addressing_size, AddressSize::A64));
    let m = Mem::displacement_only(ImmTemplate(0i32).template());
    assert!(matches!(m.encoding().addressing_size, AddressSize::A64));
}

#[test]
fn trailing_zeros_of_bytes() {
    assert_eq!(byte_trailing_zeros(1), 0);
    assert_eq!(byte_trailing_zeros(8), 3);
    assert_eq!(byte_trailing_zeros(0x80), 7);
    assert_eq!(byte_trailing_zeros(0), 8);
    assert_eq!(byte_trailing_zeros(12), 2);
}

#[test]
fn operand_register_numbers() {
    assert_eq!(q(13).reg(), Reg(13));
    assert!(matches!(b(2).rm(), EncodingRm::Reg(Reg(2))));
}

#[test]
fn immediate_templates_are_little_endian() {
    assert_eq!(content(&ImmTemplate(0x1234u16).template()), vec![0x34, 0x12]);
    assert_eq!(content(&ImmTemplate(-2i16).template()), vec![0xFE, 0xFF]);
    assert_eq!(content(&ImmTemplate(-1i8).template()), vec![0xFF]);
    assert_eq!(content(&ImmTemplate(7u8).template()), vec![7]);
    assert_eq!(content(&ImmTemplate(0x0102_0304u32).template()), vec![4, 3, 2, 1]);
    assert_eq!(content(&ImmTemplate(-8i32).template()), vec![0xF8, 0xFF, 0xFF, 0xFF]);
    assert_eq!(content(&ImmTemplate(0x0102_0304_0506_0708u64).template()), vec![8, 7, 6, 5, 4, 3, 2, 1]);
    assert_eq!(content(&ImmTemplate(-1i64).template()), vec![0xFF; 8]);
    assert!(ImmTemplate(-8i32).template().is_le_int(-8));
}

#[test]
fn opguard_szop_checks_sizes() {
    let imm4 = Operand::Imm(Template::placeholder(4));
    // size operand qword, mask allowing 2|4|8; sized imm of 4 bytes must match -> mismatch
    assert!(!opguard_szop(q(0), 0b1110, &[imm4], &[0b1110]));
    // static imm (single-bit mask) does not need to match the size
    assert!(opguard_szop(q(0), 0b1110, &[imm4], &[0b0100]));
    // size not in mask
    assert!(!opguard_szop(b(0), 0b1110, &[], &[]));
    // unified and high byte registers are not mixed
    let ah = Operand::Reg(AReg(RegType::H, 4));
    assert!(!opguard_szop(b(6), 0b0001, &[ah], &[0b0001 | 0b0010]));
    assert!(opguard_szop(b(1), 0b0001, &[ah], &[0b0011]));
    // unsized memory operand
    let m = Operand::Mem(MemSize::Unsized, Mem::base(AReg(RegType::Q, 0)));
    assert!(!opguard_szop(m, 0xFF, &[], &[]));
}

#[test]
fn opguard_checks_immediates_and_byte_registers() {
    let imm1 = Operand::Imm(Template::placeholder(1));
    assert!(opguard(&[imm1], &[0b0001]));
    assert!(!opguard(&[imm1], &[0b0100]));
    let ah = Operand::Reg(AReg(RegType::H, 4));
    assert!(!opguard(&[ah, b(5)], &[0, 0]));
    assert!(opguard(&[ah, b(3)], &[0, 0]));
    // operands past the masks are not looked at
    assert!(opguard(&[ah, b(5)], &[0]));
}

#[test]
fn flag_condition_codes() {
    assert_eq!(Flag::Overflow.code(), 0);
    assert_eq!(Flag::Equal.code(), 4);
    assert_eq!(Flag::Less.code(), 0xC);
    assert_eq!(Flag::Greater.code(), 0xF);
}

#[test]
fn register_numbers() {
    assert_eq!(Reg::RAX, 0);
    assert_eq!(Reg::R13, 13);
    assert_eq!(Reg::BUDGET, Reg::RDX);
    assert_eq!(Reg::BYTECODE, Reg::RCX);
}

#[test]
fn gpr_mem_constructors() {
    let m = GMem::scale_index_base(2, AReg(RegType::W, 1), AReg(RegType::B, 3), Template::empty());
    assert_eq!(m.index.map(|(r, s)| (r.1, s)), Some((1, 2)));
    let m = GMem::base(AReg(RegType::Q, 5));
    assert_eq!(m.base.map(|r| r.1), Some(5));
    let m = GMem::displacement_only(ImmTemplate(1i8).template());
    assert_eq!(m.disp.len, 1);
    let m = GMem::scale_index(8, AReg(RegType::Q, 3), Template::empty());
    assert!(m.base.is_none());
    let m = GMem::base_displacement(AReg(RegType::D, 2), ImmTemplate(4i32).template());
    assert_eq!(m.disp.len, 4);
}

#[test]
fn le_bytes_read_back_by_is_le_int() {
    for &x8 in &[i8::MIN, -1, 0, 1, 0x55, i8::MAX] {
        assert!(Template::bytes(x8.to_le_bytes()).is_le_int(x8 as i64));
        assert!(ImmTemplate(x8).template().is_le_int(x8 as i64));
    }
    for &x16 in &[i16::MIN, -2, 0, 0x1234, i16::MAX] {
        assert!(Template::bytes(x16.to_le_bytes()).is_le_int(x16 as i64));
        assert!(ImmTemplate(x16).template().is_le_int(x16 as i64));
    }
    for &x32 in &[i32::MIN, -8, 0, 0x1234_5678, i32::MAX] {
        assert!(Template::bytes(x32.to_le_bytes()).is_le_int(x32 as i64));
        assert!(ImmTemplate(x32).template().is_le_int(x32 as i64));
    }
    for &x64 in &[i64::MIN, -1, 0, 0x0102_0304_0506_0708, i64::MAX] {
        assert!(Template::bytes(x64.to_le_bytes()).is_le_int(x64));
        assert!(ImmTemplate(x64).template().is_le_int(x64));
    }
}
