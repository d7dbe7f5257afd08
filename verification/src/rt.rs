//! What the interpreter runtime's step handlers compute: the effect of an eBPF instruction on
//! the registers, the offset of the next instruction, the instruction budget, and the slot of
//! the dispatch table that handles an instruction.
use vstd::prelude::*;

verus! {

/// The eBPF registers r0 to r10.
pub type Registers = [u64; 11];

/// Size of one eBPF instruction in bytes.
pub const INSN_SIZE: usize = 8;

/// Size of one step handler slot of the dispatch table, in bytes.
pub const STEP_STRIDE: usize = 64;

/// The outcome of running a program: the remaining budget, or a negative code.
#[derive(Clone, Copy, PartialEq, Eq, Structural, Debug)]
pub struct BpfResult(pub i64);

impl BpfResult {
    /// Code of a program that ran out of instruction budget.
    pub const TIRED: i64 = -9;
    /// Code of a program that reached an illegal instruction.
    pub const ILLEGAL_INSN: i64 = -14;
}

/// Little-endian 32-bit immediate of an instruction (bytes 4 to 7).
pub open spec fn insn_imm(insn: Seq<u8>) -> u32 {
    (insn[4] as int + 256 * insn[5] as int + 65536 * insn[6] as int + 16777216 * insn[7] as int) as u32
}

/// Little-endian signed 16-bit offset of an instruction (bytes 2 and 3).
pub open spec fn insn_off(insn: Seq<u8>) -> i16 {
    (insn[2] as int + 256 * insn[3] as int) as i16
}

/// The immediate read as a signed 32-bit value.
pub open spec fn insn_imm_signed(insn: Seq<u8>) -> int {
    if insn_imm(insn) >= 0x8000_0000 {
        insn_imm(insn) - 0x1_0000_0000
    } else {
        insn_imm(insn) as int
    }
}

/// The immediate sign-extended to 64 bits, as `movsx` loads it into a register.
pub open spec fn insn_imm_wide(insn: Seq<u8>) -> u64 {
    if insn_imm(insn) >= 0x8000_0000 {
        (insn_imm(insn) as int + 0xFFFF_FFFF_0000_0000) as u64
    } else {
        insn_imm(insn) as u64
    }
}

fn read_imm(insn: &[u8]) -> (imm: u32)
    requires
        insn@.len() >= 8,
    ensures
        imm == insn_imm(insn@),
{
    insn[4] as u32 + 256 * insn[5] as u32 + 65536 * insn[6] as u32 + 16777216 * insn[7] as u32
}

fn read_imm_wide(insn: &[u8]) -> (wide: u64)
    requires
        insn@.len() >= 8,
    ensures
        wide == insn_imm_wide(insn@),
{
    let imm = read_imm(insn);
    if imm >= 0x8000_0000 {
        imm as u64 + 0xFFFF_FFFF_0000_0000
    } else {
        imm as u64
    }
}

fn read_off(insn: &[u8]) -> (off: i16)
    requires
        insn@.len() >= 8,
    ensures
        off == insn_off(insn@),
{
    let v: u16 = insn[2] as u16 + 256 * insn[3] as u16;
    v as i16
}

/// `dst += imm` (64-bit, wrapping, immediate sign-extended from 32 bits, as `movsx` then
/// `add` computes it); continues with the next instruction, whose offset (8) it returns.
pub fn step_add64_imm(insn: &[u8], dst: usize, registers: &mut Registers) -> (next: isize)
    requires
        insn@.len() >= 8,
        dst < 11,
    ensures
        next == 8,
        final(registers)@ == old(registers)@.update(
            dst as int,
            ((old(registers)@[dst as int] + insn_imm_signed(insn@)) % 0x1_0000_0000_0000_0000) as u64,
        ),
{
    let wide = read_imm_wide(insn);
    let old_value = registers[dst];
    let sum = old_value.wrapping_add(wide);
    proof {
        let v = old_value as int + insn_imm_signed(insn@);
        if insn_imm(insn@) >= 0x8000_0000 {
            assert(wide == insn_imm_signed(insn@) + 0x1_0000_0000_0000_0000);
        } else {
            assert(wide == insn_imm_signed(insn@));
        }
        if v < 0 {
            assert(v % 0x1_0000_0000_0000_0000 == v + 0x1_0000_0000_0000_0000);
        } else if v >= 0x1_0000_0000_0000_0000 {
            assert(v % 0x1_0000_0000_0000_0000 == v - 0x1_0000_0000_0000_0000);
        } else {
            assert(v % 0x1_0000_0000_0000_0000 == v);
        }
    }
    registers[dst] = sum;
    8
}

/// `dst &= imm` (64-bit, immediate sign-extended from 32 bits); continues with the next instruction.
pub fn step_and64_imm(insn: &[u8], dst: usize, registers: &mut Registers) -> (next: isize)
    requires
        insn@.len() >= 8,
        dst < 11,
    ensures
        next == 8,
        final(registers)@ == old(registers)@.update(
            dst as int,
            old(registers)@[dst as int] & insn_imm_wide(insn@),
        ),
{
    let wide = read_imm_wide(insn);
    registers[dst] = registers[dst] & wide;
    8
}

/// `exit`: the program ends with the remaining budget.
pub fn step_exit(budget: i64) -> (r: BpfResult)
    ensures
        r == BpfResult(budget),
{
    BpfResult(budget)
}

/// `if dst < imm goto +off` (unsigned, immediate sign-extended from 32 bits): the offset in bytes of the next
/// instruction relative to this one.
pub fn step_jlt64_imm(insn: &[u8], dst: usize, registers: &Registers) -> (next: isize)
    requires
        insn@.len() >= 8,
        dst < 11,
    ensures
        next == if registers@[dst as int] < insn_imm_wide(insn@) {
            8 * insn_off(insn@) + 8
        } else {
            8
        },
{
    let wide = read_imm_wide(insn);
    if registers[dst] < wide {
        let off = read_off(insn);
        8 * (off as isize) + 8
    } else {
        8
    }
}

/// `dst = src` (64-bit); continues with the next instruction.
pub fn step_mov64_reg(dst: usize, src: usize, registers: &mut Registers) -> (next: isize)
    requires
        dst < 11,
        src < 11,
    ensures
        next == 8,
        final(registers)@ == old(registers)@.update(dst as int, old(registers)@[src as int]),
{
    registers[dst] = registers[src];
    8
}

/// An opcode without handler fails.
pub fn invalid_opcode() -> (r: Result<u64, ()>)
    ensures
        r is Err,
{
    Err(())
}

/// The handler of the budget slot: the program ran out of instruction budget.
pub fn sig_max_instructions() -> (r: BpfResult)
    ensures
        r == BpfResult(BpfResult::TIRED),
{
    BpfResult(BpfResult::TIRED)
}

/// The handler of slots without implementation: the instruction is illegal.
pub fn sig_illegal_instruction() -> (r: BpfResult)
    ensures
        r == BpfResult(BpfResult::ILLEGAL_INSN),
{
    BpfResult(BpfResult::ILLEGAL_INSN)
}

/// What the dispatch head does before each instruction.
#[derive(Clone, Copy, PartialEq, Eq, Structural, Debug)]
pub enum HeadAction {
    /// Leave through the budget handler with this budget.
    OutOfBudget(i64),
    /// Run the handler of this dispatch slot with this budget.
    Dispatch { slot: u16, budget: i64 },
}

/// The dispatch slot of an instruction: its first two bytes read little-endian, that is the
/// opcode in the low byte, the destination register in bits 8 to 11 and the source register in
/// bits 12 to 15.
pub open spec fn slot_of(insn: Seq<u8>) -> u16 {
    (insn[0] as int + 256 * insn[1] as int) as u16
}

/// One less, wrapping around from the smallest value to the largest.
pub open spec fn wrapping_dec(b: i64) -> i64 {
    if b == i64::MIN {
        i64::MAX
    } else {
        (b - 1) as i64
    }
}

/// The dispatch head: the budget goes down by one; when one less than that would be negative,
/// the program is out of budget, else the handler of the instruction's slot runs with the
/// budget decreased once more.
pub fn step_head(insn: &[u8], budget: i64) -> (a: HeadAction)
    requires
        insn@.len() >= 2,
    ensures
        ({
            let b1 = wrapping_dec(budget);
            let b2 = wrapping_dec(b1);
            if b2 < 0 {
                a == HeadAction::OutOfBudget(b1)
            } else {
                a == (HeadAction::Dispatch { slot: slot_of(insn@), budget: b2 })
            }
        }),
{
    let budget = budget.wrapping_sub(1);
    if budget.wrapping_sub(1) < 0 {
        return HeadAction::OutOfBudget(budget);
    }
    let slot: u16 = insn[0] as u16 + 256 * insn[1] as u16;
    HeadAction::Dispatch { slot, budget: budget.wrapping_sub(1) }
}

/// Offset of the handler of a dispatch slot from the start of the dispatch table.
pub fn step(opcode_dst_src: u16) -> (offset: usize)
    ensures
        offset == opcode_dst_src * STEP_STRIDE,
{
    opcode_dst_src as usize * STEP_STRIDE
}

} // verus!
