use bpfi::rt::{
    invalid_opcode, sig_illegal_instruction, sig_max_instructions, step, step_add64_imm,
    step_and64_imm, step_exit, step_head, step_jlt64_imm, step_mov64_reg, BpfResult, HeadAction,
    Registers,
};

#[test]
fn add64_imm_adds_sign_extended_immediate_with_wraparound() {
    let mut regs: Registers = [0; 11];
    regs[2] = u64::MAX;
    let insn = [7, 2, 0, 0, 1, 0, 0, 0];
    assert_eq!(step_add64_imm(&insn, 2, &mut regs), 8);
    assert_eq!(regs[2], 0);
    // FF FF FF FF is -1
    regs[3] = 10;
    let insn = [7, 3, 0, 0, 0xFF, 0xFF, 0xFF, 0xFF];
    assert_eq!(step_add64_imm(&insn, 3, &mut regs), 8);
    assert_eq!(regs[3], 9);
    regs[4] = 0;
    let insn = [7, 4, 0, 0, 0, 0, 0, 0x80];
    assert_eq!(step_add64_imm(&insn, 4, &mut regs), 8);
    assert_eq!(regs[4], 0xFFFF_FFFF_8000_0000);
    let insn = [7, 4, 0, 0, 0xFF, 0xFF, 0xFF, 0x7F];
    assert_eq!(step_add64_imm(&insn, 4, &mut regs), 8);
    assert_eq!(regs[4], 0xFFFF_FFFF_FFFF_FFFF);
}

#[test]
fn and64_imm_masks() {
    let mut regs: Registers = [0; 11];
    regs[1] = 0x1234_5678;
    let insn = [87, 1, 0, 0, 0xFF, 3, 0, 0];
    assert_eq!(step_and64_imm(&insn, 1, &mut regs), 8);
    assert_eq!(regs[1], 0x0278);
    // FF FF FF F0 is -16: the high 32 bits are kept
    regs[5] = 0xABCD_0000_1234_5678;
    let insn = [87, 5, 0, 0, 0xF0, 0xFF, 0xFF, 0xFF];
    assert_eq!(step_and64_imm(&insn, 5, &mut regs), 8);
    assert_eq!(regs[5], 0xABCD_0000_1234_5670);
    // a positive immediate clears the high bits
    regs[6] = 0xFFFF_FFFF_FFFF_FFFF;
    let insn = [87, 6, 0, 0, 0xFF, 0xFF, 0xFF, 0x7F];
    assert_eq!(step_and64_imm(&insn, 6, &mut regs), 8);
    assert_eq!(regs[6], 0x7FFF_FFFF);
}

#[test]
fn jlt64_imm_jumps_when_below() {
    let mut regs: Registers = [0; 11];
    regs[2] = 5;
    // if r2 < 0x200000 goto -4
    let insn = [165, 2, 0xFC, 0xFF, 0, 0, 0x20, 0];
    assert_eq!(step_jlt64_imm(&insn, 2, &regs), 8 * -4 + 8);
    regs[2] = 0x20_0000;
    assert_eq!(step_jlt64_imm(&insn, 2, &regs), 8);
    // FF FF FF FF is -1, compared as u64::MAX
    let insn = [165, 2, 3, 0, 0xFF, 0xFF, 0xFF, 0xFF];
    regs[2] = 0x1_0000_0000;
    assert_eq!(step_jlt64_imm(&insn, 2, &regs), 8 * 3 + 8);
    regs[2] = u64::MAX;
    assert_eq!(step_jlt64_imm(&insn, 2, &regs), 8);
}

#[test]
fn mov64_reg_copies() {
    let mut regs: Registers = [0; 11];
    regs[1] = 42;
    assert_eq!(step_mov64_reg(2, 1, &mut regs), 8);
    assert_eq!(regs[2], 42);
    assert_eq!(regs[1], 42);
}

#[test]
fn exit_and_signal_results() {
    assert_eq!(step_exit(17), BpfResult(17));
    assert_eq!(sig_max_instructions(), BpfResult(-9));
    assert_eq!(sig_illegal_instruction(), BpfResult(-14));
    assert_eq!(BpfResult::TIRED, -9);
    assert_eq!(BpfResult::ILLEGAL_INSN, -14);
    assert!(invalid_opcode().is_err());
}

#[test]
fn head_counts_budget_and_dispatches() {
    let insn = [191, 0x21, 0, 0, 0, 0, 0, 0];
    assert_eq!(step_head(&insn, 10), HeadAction::Dispatch { slot: 191 + 256 * 0x21, budget: 8 });
    assert_eq!(step_head(&insn, 1), HeadAction::OutOfBudget(0));
    assert_eq!(step_head(&insn, 2), HeadAction::Dispatch { slot: 191 + 256 * 0x21, budget: 0 });
    assert_eq!(step_head(&insn, i64::MIN), HeadAction::Dispatch { slot: 191 + 256 * 0x21, budget: i64::MAX - 1 });
}

#[test]
fn step_offsets_are_slot_times_stride() {
    assert_eq!(step(0), 0);
    assert_eq!(step(7), 7 * 64);
    assert_eq!(step(0xFFFF), 0xFFFF * 64);
}
