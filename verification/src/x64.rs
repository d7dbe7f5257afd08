//! x86-64 instruction encoding: legacy prefixes, REX, opcode, ModRM/SIB, displacement and
//! trailing immediates.
pub mod ast;
pub mod mem;

use crate::template::{lemma_shifted_compose, shifted, unset_slots, zero_bytes, Placeholder, Template};
use vstd::prelude::*;

verus! {

/// A general purpose register by its number (0 to 15).
#[derive(Clone, Copy, PartialEq, Eq, Structural, Debug)]
pub struct Reg(pub u8);

/// Register numbers of the general purpose registers and of the roles the code gives them.
impl Reg {
    pub const RAX: u8 = 0;
    pub const RCX: u8 = 1;
    pub const RDX: u8 = 2;
    pub const RBX: u8 = 3;
    pub const RSP: u8 = 4;
    pub const RBP: u8 = 5;
    pub const RSI: u8 = 6;
    pub const RDI: u8 = 7;
    pub const R8: u8 = 8;
    pub const R9: u8 = 9;
    pub const R10: u8 = 10;
    pub const R11: u8 = 11;
    pub const R12: u8 = 12;
    pub const R13: u8 = 13;
    pub const R14: u8 = 14;
    pub const R15: u8 = 15;
    // eBPF registers map to r0=RSI, r1 = RDI, r2 = R8... r9=R15, r10 = RBX
    pub const TMP: u8 = 0;
    // Interpreter bytecode location is tracked in RCX.
    pub const BYTECODE: u8 = 1;
    // CU budget is tracked in RDX, both across the interpreter and JIT.
    pub const BUDGET: u8 = 2;
}


/// Condition codes of the conditional jumps and sets.
#[derive(Clone, Copy, PartialEq, Eq, Structural, Debug)]
pub enum Flag {
    Overflow,  // JO
    NoOverflow,  // JNO
    Below,  // JB / JC / JNAE
    AboveEqual,  // JAE / JNC / JNB
    Equal,  // JE / JZ
    NotEqual,  // JNE / JNZ
    BelowEqual,  // JBE / JNA
    Above,  // JA / JNBE
    Sign,  // JS
    NoSign,  // JNS
    ParityEven,  // JP / JPE
    ParityOdd,  // JNP / JPO
    Less,  // JL / JNGE
    GreaterEqual,  // JGE / JNL
    LessEqual,  // JLE / JNG
    Greater,  // JG / NLE
}

impl Flag {
    /// The condition code (the low nibble of `Jcc`/`SETcc` opcodes) of the condition.
    pub open spec fn spec_code(self) -> u8 {
        match self {
            Flag::Overflow => 0x0,
            Flag::NoOverflow => 0x1,
            Flag::Below => 0x2,
            Flag::AboveEqual => 0x3,
            Flag::Equal => 0x4,
            Flag::NotEqual => 0x5,
            Flag::BelowEqual => 0x6,
            Flag::Above => 0x7,
            Flag::Sign => 0x8,
            Flag::NoSign => 0x9,
            Flag::ParityEven => 0xA,
            Flag::ParityOdd => 0xB,
            Flag::Less => 0xC,
            Flag::GreaterEqual => 0xD,
            Flag::LessEqual => 0xE,
            Flag::Greater => 0xF,
        }
    }

    /// The condition code of the condition.
    pub fn code(self) -> (c: u8)
        ensures
            c == self.spec_code(),
    {
        match self {
            Flag::Overflow => 0x0,
            Flag::NoOverflow => 0x1,
            Flag::Below => 0x2,
            Flag::AboveEqual => 0x3,
            Flag::Equal => 0x4,
            Flag::NotEqual => 0x5,
            Flag::BelowEqual => 0x6,
            Flag::Above => 0x7,
            Flag::Sign => 0x8,
            Flag::NoSign => 0x9,
            Flag::ParityEven => 0xA,
            Flag::ParityOdd => 0xB,
            Flag::Less => 0xC,
            Flag::GreaterEqual => 0xD,
            Flag::LessEqual => 0xE,
            Flag::Greater => 0xF,
        }
    }
}

#[derive(Clone, Copy, PartialEq, Eq, Structural, Debug)]
pub enum AddressSize {
    A32,
    A64,
}

/// Prefixes that need to be emitted based on the operand sizes or values.
#[derive(Clone, Copy, PartialEq, Eq, Structural, Debug)]
pub struct OperandInfo {
    /// Any use of unified low byte operands in any of the operand forces the REX prefix.
    /// Using 64-bit operands sets REX.W = 1;
    /// Using registers in 8..16 range sets REX.R/X/B = 1.
    pub rex_byte: u8,
    /// Does the 0x66 operand size prefix need to be emitted?
    ///
    /// Usually means 16-bit register operand size.
    pub emit_operand_size_override_prefix: bool,
}

/// One of the unified low byte registers `spl`, `bpl`, `sil`, `dil` (which need a REX prefix).
pub open spec fn is_unified_byte(op: ast::Operand) -> bool {
    match op {
        ast::Operand::Reg(ast::Reg(ast::RegType::B, n)) => 4 <= n < 8,
        _ => false,
    }
}

/// One of the high byte registers `ah`, `ch`, `dh`, `bh` (which exclude a REX prefix).
pub open spec fn is_high_byte(op: ast::Operand) -> bool {
    match op {
        ast::Operand::Reg(ast::Reg(ast::RegType::H, _)) => true,
        _ => false,
    }
}

pub open spec fn any_unified_byte(ops: Seq<ast::Operand>) -> bool {
    exists|i: int| 0 <= i < ops.len() && is_unified_byte(#[trigger] ops[i])
}

/// The operand size that an operand informs, where it informs one.
pub open spec fn informed_size(op: ast::Operand) -> Option<int> {
    match op {
        ast::Operand::Imm(imm) => Some(imm.len as int),
        ast::Operand::Rel(imm) => Some(imm.len as int),
        ast::Operand::Reg(ast::Reg(ast::RegType::B, _)) => Some(1),
        ast::Operand::Reg(ast::Reg(ast::RegType::H, _)) => Some(1),
        ast::Operand::Reg(ast::Reg(ast::RegType::W, _)) => Some(2),
        ast::Operand::Reg(ast::Reg(ast::RegType::D, _)) => Some(4),
        ast::Operand::Reg(ast::Reg(ast::RegType::Q, _)) => Some(8),
        ast::Operand::Mem(ast::MemSize::Qword, _) => Some(8),
        ast::Operand::Mem(ast::MemSize::Dword, _) => Some(4),
        ast::Operand::Mem(ast::MemSize::Word, _) => Some(2),
        ast::Operand::Mem(ast::MemSize::Byte, _) => Some(1),
        ast::Operand::Mem(ast::MemSize::Unsized, _) => None,
    }
}

/// The REX byte bits that the operand sizes force: W for 64-bit operands, and the bare REX
/// prefix for unified low byte registers.
pub open spec fn sized_rex(size: int, unified: bool) -> u8 {
    if size == 8 {
        0x48
    } else if unified {
        0x40
    } else {
        0
    }
}

impl OperandInfo {
    /// Prefix information of an instruction whose operand size `size_operand` informs.
    pub fn new(size_operand: ast::Operand, etc: &[ast::Operand]) -> (oi: Self)
        requires
            informed_size(size_operand) is Some,
        ensures
            oi.emit_operand_size_override_prefix == (informed_size(size_operand) == Some(2int)),
            oi.rex_byte == sized_rex(
                informed_size(size_operand).unwrap(),
                is_unified_byte(size_operand) || any_unified_byte(etc@),
            ),
    {
        let sz: usize = match size_operand {
            ast::Operand::Imm(imm) | ast::Operand::Rel(imm) => imm.len,
            ast::Operand::Reg(ast::Reg(ast::RegType::B, _)) => 1,
            ast::Operand::Reg(ast::Reg(ast::RegType::H, _)) => 1,
            ast::Operand::Reg(ast::Reg(ast::RegType::W, _)) => 2,
            ast::Operand::Reg(ast::Reg(ast::RegType::D, _)) => 4,
            ast::Operand::Reg(ast::Reg(ast::RegType::Q, _)) => 8,
            ast::Operand::Mem(ast::MemSize::Qword, _) => 8,
            ast::Operand::Mem(ast::MemSize::Dword, _) => 4,
            ast::Operand::Mem(ast::MemSize::Word, _) => 2,
            ast::Operand::Mem(ast::MemSize::Byte, _) => 1,
            ast::Operand::Mem(ast::MemSize::Unsized, _) => 0,
        };
        let emit_operand_size_override_prefix = sz == 2;
        let rex_w = sz == 8;
        let uses_unified_byte_registers = Self::uses_unified_byte_registers(&[size_operand])
            || Self::uses_unified_byte_registers(etc);
        proof {
            if is_unified_byte(size_operand) {
                assert(seq![size_operand][0] == size_operand);
            }
            if any_unified_byte(seq![size_operand]) {
                let i = choose|i: int| 0 <= i < 1 && is_unified_byte(#[trigger] seq![size_operand][i]);
                assert(seq![size_operand][i] == size_operand);
            }
        }
        assert([size_operand]@ =~= seq![size_operand]);
        let rex = if rex_w || uses_unified_byte_registers {
            if rex_w {
                0x48u8
            } else {
                0x40u8
            }
        } else {
            0
        };
        Self { rex_byte: rex, emit_operand_size_override_prefix }
    }

    fn uses_unified_byte_registers(ops: &[ast::Operand]) -> (r: bool)
        ensures
            r == any_unified_byte(ops@),
    {
        let mut i: usize = 0;
        while i < ops.len()
            invariant
                i <= ops@.len(),
                forall|k: int| 0 <= k < i ==> !is_unified_byte(#[trigger] ops@[k]),
            decreases ops@.len() - i,
        {
            if let ast::Operand::Reg(ast::Reg(ast::RegType::B, n)) = ops[i] {
                if 4 <= n && n < 8 {
                    assert(is_unified_byte(ops@[i as int]));
                    return true;
                }
            }
            i += 1;
        }
        false
    }

    /// Prefix information of an instruction without operand size: only the unified low byte
    /// registers force a (bare) REX prefix.
    pub fn unsz(ops: &[ast::Operand]) -> (oi: Self)
        ensures
            oi.emit_operand_size_override_prefix == false,
            oi.rex_byte == (if any_unified_byte(ops@) {
                0x40u8
            } else {
                0u8
            }),
    {
        let uses_unified_byte_registers = Self::uses_unified_byte_registers(ops);
        let rex = if uses_unified_byte_registers {
            0x40
        } else {
            0
        };
        Self { rex_byte: rex, emit_operand_size_override_prefix: false }
    }
}


/// The operand size that an operand stands for when checking operand forms: `None` for a
/// memory operand without size and an immediate of 256 bytes or more.
pub open spec fn guard_size(op: ast::Operand) -> Option<u8> {
    match op {
        ast::Operand::Imm(t) => if t.len < 256 {
            Some(t.len as u8)
        } else {
            None
        },
        ast::Operand::Rel(t) => if t.len < 256 {
            Some(t.len as u8)
        } else {
            None
        },
        ast::Operand::Mem(ast::MemSize::Unsized, _) => None,
        _ => match informed_size(op) {
            Some(n) => Some(n as u8),
            None => None,
        },
    }
}

/// Exactly one bit of the mask is set.
pub open spec fn single_bit(m: u8) -> bool {
    m == 1 || m == 2 || m == 4 || m == 8 || m == 16 || m == 32 || m == 64 || m == 128
}

/// An operand whose mask has more than one bit set (or none) takes the operand size; one with a
/// single bit is static.
pub open spec fn sized_at(etc: Seq<ast::Operand>, masks: Seq<u8>, i: int) -> bool {
    0 <= i < etc.len() && !single_bit(masks[i])
}

/// The operand form check of instructions with an operand size: the size operand has a size
/// within its mask, every sized operand has that same size, and unified low byte registers
/// and high byte registers are not mixed.
pub open spec fn szop_guard_holds(
    size_operand: ast::Operand,
    size_op_mask: u8,
    etc: Seq<ast::Operand>,
    masks: Seq<u8>,
) -> bool {
    match guard_size(size_operand) {
        None => false,
        Some(sz) => {
            &&& sz & size_op_mask != 0
            &&& forall|i: int| #[trigger] sized_at(etc, masks, i) ==> guard_size(etc[i]) == Some(sz)
            &&& !((is_unified_byte(size_operand) || exists|i: int|
                #[trigger] sized_at(etc, masks, i) && is_unified_byte(etc[i])) && (is_high_byte(
                size_operand,
            ) || exists|i: int| #[trigger] sized_at(etc, masks, i) && is_high_byte(etc[i])))
        },
    }
}

/// The operand form check of instructions without operand size: each immediate has a length
/// within its mask, and unified low byte registers and high byte registers are not mixed.
pub open spec fn guard_holds(ops: Seq<ast::Operand>, masks: Seq<u8>) -> bool {
    &&& forall|i: int|
        0 <= i < masks.len() ==> match #[trigger] ops[i] {
            ast::Operand::Imm(t) => t.len < 256 && (t.len as u8) & masks[i] != 0,
            ast::Operand::Rel(t) => t.len < 256 && (t.len as u8) & masks[i] != 0,
            _ => true,
        }
    &&& !((exists|i: int| 0 <= i < masks.len() && is_high_byte(#[trigger] ops[i])) && (exists|
        i: int,
    |
        0 <= i < masks.len() && is_unified_byte(#[trigger] ops[i])))
}

fn has_single_bit(m: u8) -> (r: bool)
    ensures
        r == single_bit(m),
{
    assert(m != 0 ==> ((m & ((m - 1) as u8) == 0) == (m == 1 || m == 2 || m == 4 || m == 8 || m
        == 16 || m == 32 || m == 64 || m == 128))) by (bit_vector);
    m != 0 && m & (m - 1) == 0
}

fn op_guard_size(op: ast::Operand) -> (r: Option<u8>)
    ensures
        r == guard_size(op),
{
    match op {
        ast::Operand::Reg(ast::Reg(ast::RegType::H, _)) => Some(1),
        ast::Operand::Reg(ast::Reg(ast::RegType::B, _)) => Some(1),
        ast::Operand::Reg(ast::Reg(ast::RegType::W, _)) => Some(2),
        ast::Operand::Reg(ast::Reg(ast::RegType::D, _)) => Some(4),
        ast::Operand::Reg(ast::Reg(ast::RegType::Q, _)) => Some(8),
        ast::Operand::Mem(ast::MemSize::Byte, _) => Some(1),
        ast::Operand::Mem(ast::MemSize::Word, _) => Some(2),
        ast::Operand::Mem(ast::MemSize::Dword, _) => Some(4),
        ast::Operand::Mem(ast::MemSize::Qword, _) => Some(8),
        ast::Operand::Mem(ast::MemSize::Unsized, _) => None,
        ast::Operand::Imm(imm) | ast::Operand::Rel(imm) => if imm.len < 256 {
            Some(imm.len as u8)
        } else {
            None
        },
    }
}

fn op_is_unified_byte(op: ast::Operand) -> (r: bool)
    ensures
        r == is_unified_byte(op),
{
    match op {
        ast::Operand::Reg(ast::Reg(ast::RegType::B, n)) => 4 <= n && n < 8,
        _ => false,
    }
}

fn op_is_high_byte(op: ast::Operand) -> (r: bool)
    ensures
        r == is_high_byte(op),
{
    match op {
        ast::Operand::Reg(ast::Reg(ast::RegType::H, _)) => true,
        _ => false,
    }
}

/// Checks an operand form of an instruction with an operand size (see [`szop_guard_holds`]).
pub fn opguard_szop(
    size_operand: ast::Operand,
    size_op_mask: u8,
    etc: &[ast::Operand],
    etc_masks: &[u8],
) -> (r: bool)
    requires
        etc_masks@.len() >= etc@.len(),
    ensures
        r == szop_guard_holds(size_operand, size_op_mask, etc@, etc_masks@),
{
    let opsize = match op_guard_size(size_operand) {
        Some(sz) => sz,
        None => return false,
    };
    if opsize & size_op_mask == 0 {
        return false;
    }
    let mut uses_high_byte_reg = op_is_high_byte(size_operand);
    let mut uses_unified_byte_reg = op_is_unified_byte(size_operand);
    let mut i: usize = 0;
    while i < etc.len()
        invariant
            i <= etc@.len() <= etc_masks@.len(),
            guard_size(size_operand) == Some(opsize),
            forall|k: int|
                0 <= k < i ==> #[trigger] sized_at(etc@, etc_masks@, k) ==> guard_size(etc@[k])
                    == Some(opsize),
            uses_high_byte_reg == (is_high_byte(size_operand) || exists|k: int|
                0 <= k < i && #[trigger] sized_at(etc@, etc_masks@, k) && is_high_byte(etc@[k])),
            uses_unified_byte_reg == (is_unified_byte(size_operand) || exists|k: int|
                0 <= k < i && #[trigger] sized_at(etc@, etc_masks@, k) && is_unified_byte(
                    etc@[k],
                )),
        decreases etc@.len() - i,
    {
        // if mask sets just one bit, its a static operand that does not depend on the operand-size
        if !has_single_bit(etc_masks[i]) {
            assert(sized_at(etc@, etc_masks@, i as int));
            let this_opsize = match op_guard_size(etc[i]) {
                Some(sz) => sz,
                None => return false,
            };
            if this_opsize != opsize {
                return false;
            }
            if op_is_high_byte(etc[i]) {
                uses_high_byte_reg = true;
            }
            if op_is_unified_byte(etc[i]) {
                uses_unified_byte_reg = true;
            }
        }
        i += 1;
    }
    if uses_unified_byte_reg && uses_high_byte_reg {
        return false;
    }
    return true;
}

/// Checks an operand form of an instruction without operand size (see [`guard_holds`]).
pub fn opguard(ops: &[ast::Operand], size_masks: &[u8]) -> (r: bool)
    requires
        ops@.len() >= size_masks@.len(),
    ensures
        r == guard_holds(ops@, size_masks@),
{
    let mut i: usize = 0;
    let mut uses_high_byte_reg = false;
    let mut uses_unified_byte_reg = false;
    while i < size_masks.len()
        invariant
            i <= size_masks@.len() <= ops@.len(),
            forall|k: int|
                0 <= k < i ==> match #[trigger] ops@[k] {
                    ast::Operand::Imm(t) => t.len < 256 && (t.len as u8) & size_masks@[k] != 0,
                    ast::Operand::Rel(t) => t.len < 256 && (t.len as u8) & size_masks@[k] != 0,
                    _ => true,
                },
            uses_high_byte_reg == exists|k: int| 0 <= k < i && is_high_byte(#[trigger] ops@[k]),
            uses_unified_byte_reg == exists|k: int|
                0 <= k < i && is_unified_byte(#[trigger] ops@[k]),
        decreases size_masks@.len() - i,
    {
        match ops[i] {
            ast::Operand::Imm(imm) | ast::Operand::Rel(imm) => {
                if !(imm.len < 256 && (imm.len as u8) & size_masks[i] != 0) {
                    return false;
                }
            },
            ast::Operand::Reg(ast::Reg(ast::RegType::H, _)) => uses_high_byte_reg = true,
            ast::Operand::Reg(ast::Reg(ast::RegType::B, n)) => {
                if 4 <= n && n < 8 {
                    uses_unified_byte_reg = true;
                }
            },
            _ => {},
        }
        i += 1;
    }
    if uses_unified_byte_reg && uses_high_byte_reg {
        return false;
    }
    return true;
}

#[derive(Clone, Copy)]
pub struct EncodingMem {
    pub addressing_size: AddressSize,
    pub base: Option<Reg>,
    pub index: Option<(Reg, u8)>,
    pub disp: Template,
}

#[derive(Clone, Copy)]
pub enum EncodingRm {
    /// No r/m operand.
    Absent,
    Reg(Reg),
    Mem(EncodingMem),
}

#[derive(Clone, Copy)]
pub struct Encoding {
    /// Prefix that always precedes instruction (including its RAX.W modifier, hence it being a
    /// separate field.) Example: crc32.
    pub pref: &'static [u8],
    pub op: &'static [u8],
    pub opi: OperandInfo,
    pub reg: Option<Reg>,
    pub rm: EncodingRm,
    pub ext: Option<u8>,
    pub tail: Option<Template>,
}

/// A register among R8 to R15, which needs a REX extension bit.
pub open spec fn is_extended(r: Option<Reg>) -> bool {
    match r {
        Some(Reg(n)) => 8 <= n < 16,
        None => false,
    }
}

/// The ModRM `mod` field for a displacement of this length.
pub open spec fn mod_bits(disp_len: usize) -> u8 {
    if disp_len == 0 {
        0
    } else if disp_len == 1 {
        1
    } else {
        2
    }
}

impl Encoding {
    pub open spec fn uses_a32(self) -> bool {
        match self.rm {
            EncodingRm::Mem(m) => m.addressing_size == AddressSize::A32,
            _ => false,
        }
    }

    /// Legacy prefixes: address-size override (0x67), operand-size override (0x66), then the
    /// fixed prefix of the instruction.
    pub open spec fn prefix_bytes(self) -> Seq<u8> {
        let p = if self.opi.emit_operand_size_override_prefix {
            seq![0x66u8] + self.pref@
        } else {
            self.pref@
        };
        if self.uses_a32() {
            seq![0x67u8] + p
        } else {
            p
        }
    }

    pub open spec fn rex_r(self) -> bool {
        is_extended(self.reg)
    }

    pub open spec fn rex_x(self) -> bool {
        match self.rm {
            EncodingRm::Mem(m) => match m.index {
                Some((i, _)) => is_extended(Some(i)),
                None => false,
            },
            _ => false,
        }
    }

    pub open spec fn rex_b(self) -> bool {
        match self.rm {
            EncodingRm::Reg(r) => is_extended(Some(r)),
            EncodingRm::Mem(m) => is_extended(m.base),
            EncodingRm::Absent => self.ext is None && is_extended(self.reg),
        }
    }

    /// The REX bits: those the operands force, and R, X, B for extended registers.
    pub open spec fn rex_value(self) -> u8 {
        self.opi.rex_byte | (if self.rex_r() {
            4u8
        } else {
            0u8
        }) | (if self.rex_x() {
            2u8
        } else {
            0u8
        }) | (if self.rex_b() {
            1u8
        } else {
            0u8
        })
    }

    /// The REX prefix, emitted only when some of its bits are needed.
    pub open spec fn rex_bytes(self) -> Seq<u8> {
        if self.rex_value() != 0 {
            seq![0x40u8 | self.rex_value()]
        } else {
            Seq::empty()
        }
    }

    /// Without r/m operand nor opcode extension, the register is added into the last opcode
    /// byte.
    pub open spec fn folds_reg_into_opcode(self) -> bool {
        self.rm is Absent && self.ext is None && self.reg is Some
    }

    pub open spec fn opcode_bytes(self) -> Seq<u8> {
        if self.folds_reg_into_opcode() {
            self.op@.update(
                self.op@.len() - 1,
                (self.op@.last() + (self.reg.unwrap().0 & 7)) as u8,
            )
        } else {
            self.op@
        }
    }

    /// The ModRM `reg` field: the register, else the opcode extension, else zero.
    pub open spec fn reg_bits(self) -> u8 {
        match (self.reg, self.ext) {
            (Some(r), _) => r.0 & 7,
            (None, Some(e)) => e,
            (None, None) => 0,
        }
    }

    /// The ModRM byte and, where the addressing needs it, the SIB byte.
    pub open spec fn modrm_bytes(self) -> Seq<u8> {
        let rb = self.reg_bits();
        match self.rm {
            EncodingRm::Reg(r) => seq![0xC0u8 | (rb << 3u8) | (r.0 & 7)],
            EncodingRm::Mem(m) => {
                let md = mod_bits(m.disp.len);
                match (m.base, m.index) {
                    (None, None) => seq![(rb << 3u8) | 4u8, 0x25u8],
                    (Some(b), None) => if b.0 == 4 || b.0 == 12 {
                        seq![(md << 6u8) | (rb << 3u8) | 4u8, 0x24u8]
                    } else {
                        seq![(md << 6u8) | (rb << 3u8) | (b.0 & 7)]
                    },
                    (None, Some((i, sc))) => seq![
                        (rb << 3u8) | 4u8,
                        (sc << 6u8) | ((i.0 & 7) << 3u8) | 5u8,
                    ],
                    (Some(b), Some((i, sc))) => seq![
                        (md << 6u8) | (rb << 3u8) | 4u8,
                        (sc << 6u8) | ((i.0 & 7) << 3u8) | (b.0 & 7),
                    ],
                }
            },
            EncodingRm::Absent => if self.ext is Some {
                seq![0xC0u8 | (rb << 3u8)]
            } else {
                Seq::empty()
            },
        }
    }

    /// The displacement template of a memory operand.
    pub open spec fn disp(self) -> Option<Template> {
        match self.rm {
            EncodingRm::Mem(m) => Some(m.disp),
            _ => None,
        }
    }

    pub open spec fn disp_len(self) -> int {
        match self.disp() {
            Some(d) => d.len as int,
            None => 0,
        }
    }

    pub open spec fn disp_bytes(self) -> Seq<u8> {
        match self.disp() {
            Some(d) => d.content(),
            None => Seq::empty(),
        }
    }

    pub open spec fn disp_holes(self) -> Seq<Placeholder> {
        match self.disp() {
            Some(d) => d.holes(),
            None => Seq::empty(),
        }
    }

    pub open spec fn disp_count(self) -> int {
        match self.disp() {
            Some(d) => d.placeholder_count as int,
            None => 0,
        }
    }

    pub open spec fn tail_bytes(self) -> Seq<u8> {
        match self.tail {
            Some(t) => t.content(),
            None => Seq::empty(),
        }
    }

    pub open spec fn tail_len(self) -> int {
        match self.tail {
            Some(t) => t.len as int,
            None => 0,
        }
    }

    pub open spec fn tail_holes(self) -> Seq<Placeholder> {
        match self.tail {
            Some(t) => t.holes(),
            None => Seq::empty(),
        }
    }

    pub open spec fn tail_count(self) -> int {
        match self.tail {
            Some(t) => t.placeholder_count as int,
            None => 0,
        }
    }

    /// Bytes before the ModRM byte.
    pub open spec fn head_len(self) -> int {
        (self.prefix_bytes().len() + self.rex_bytes().len() + self.opcode_bytes().len()) as int
    }

    /// The encoded instruction: prefixes, REX, opcode, ModRM/SIB, displacement, tail.
    pub open spec fn encoded_bytes(self) -> Seq<u8> {
        self.prefix_bytes() + self.rex_bytes() + self.opcode_bytes() + self.modrm_bytes()
            + self.disp_bytes() + self.tail_bytes()
    }

    /// The placeholders of the displacement and of the tail, at their place in the encoding.
    pub open spec fn encoded_holes(self) -> Seq<Placeholder> {
        shifted(self.disp_holes(), self.head_len() + self.modrm_bytes().len()) + shifted(
            self.tail_holes(),
            self.head_len() + self.modrm_bytes().len() + self.disp_len(),
        )
    }

    /// The memory operand is encodable: a displacement of 0, 1 or 4 bytes, one with
    /// `[rbp]`/`[r13]`, and one of 4 bytes without base and index. An index without base is
    /// accepted with any of these lengths, though only 4 bytes make a well-formed encoding.
    pub open spec fn mem_ok(self) -> bool {
        match self.rm {
            EncodingRm::Mem(m) => {
                &&& m.disp.len == 0 || m.disp.len == 1 || m.disp.len == 4
                &&& !(m.disp.len == 0 && (m.base == Some(Reg(5)) || m.base == Some(Reg(13))))
                &&& !(m.base is None && m.index is None && m.disp.len != 4)
            },
            _ => true,
        }
    }

    /// The instruction encodes without failing: an encodable memory operand, an opcode that
    /// can take the register where it is folded in, and everything within the 64 bytes and
    /// 4 placeholders of a template.
    pub open spec fn encodable(self) -> bool {
        &&& self.mem_ok()
        &&& self.folds_reg_into_opcode() ==> self.op@.len() >= 1 && self.op@.last() + (
        self.reg.unwrap().0 & 7) <= 255
        &&& self.head_len() + self.modrm_bytes().len() + self.disp_len() + self.tail_len() <= 64
        &&& self.disp_count() + self.tail_count() <= 4
        &&& match self.disp() {
            Some(d) => forall|i: int|
                0 <= i < d.placeholder_count ==> #[trigger] d.placeholders@[i].location
                    + self.head_len() + self.modrm_bytes().len() <= usize::MAX,
            None => true,
        }
        &&& match self.tail {
            Some(t) => forall|i: int|
                0 <= i < t.placeholder_count ==> #[trigger] t.placeholders@[i].location
                    + self.head_len() + self.modrm_bytes().len() + self.disp_len() <= usize::MAX,
            None => true,
        }
    }
}

impl Encoding {
    fn prefix_template(&self) -> (t: Template)
        requires
            self.prefix_bytes().len() <= 64,
        ensures
            t.content() == self.prefix_bytes(),
            t.len == self.prefix_bytes().len(),
            t.placeholder_count == 0,
            t.tidy(),
    {
        let mut prefixes = Template::from_slice(self.pref);
        if self.opi.emit_operand_size_override_prefix {
            prefixes = Template::bytes([0x66]).merge(&prefixes);
            assert([0x66u8]@ =~= seq![0x66u8]);
        }
        let a32 = match self.rm {
            EncodingRm::Mem(m) => match m.addressing_size {
                AddressSize::A32 => true,
                AddressSize::A64 => false,
            },
            _ => false,
        };
        if a32 {
            prefixes = Template::bytes([0x67]).merge(&prefixes);
            assert([0x67u8]@ =~= seq![0x67u8]);
        }
        assert(prefixes.content() =~= self.prefix_bytes());
        prefixes
    }

    fn rex_template(&self) -> (t: Template)
        ensures
            t.content() == self.rex_bytes(),
            t.len == self.rex_bytes().len(),
            t.placeholder_count == 0,
            t.tidy(),
    {
        let rex_r = match self.reg {
            Some(Reg(n)) => 8 <= n && n < 16,
            None => false,
        };
        let mut rex_x = false;
        let mut rex_b = false;
        match self.rm {
            EncodingRm::Reg(r) => rex_b = 8 <= r.0 && r.0 < 16,
            EncodingRm::Mem(m) => {
                rex_b = match m.base {
                    Some(Reg(n)) => 8 <= n && n < 16,
                    None => false,
                };
                rex_x = match m.index {
                    Some((Reg(n), _)) => 8 <= n && n < 16,
                    None => false,
                };
            },
            EncodingRm::Absent => {
                if self.ext.is_none() {
                    rex_b = rex_r;
                }
            },
        }
        // rex (for low byte register access) or rex.w are set in `OperandInfo`.
        let rex = self.opi.rex_byte | (if rex_r {
            4u8
        } else {
            0u8
        }) | (if rex_x {
            2u8
        } else {
            0u8
        }) | (if rex_b {
            1u8
        } else {
            0u8
        });
        assert(rex == self.rex_value());
        let t = if rex != 0 {
            Template::bytes([0x40 | rex])
        } else {
            Template::empty()
        };
        assert(t.content() =~= self.rex_bytes());
        t
    }

    fn opcode_template(&self) -> (t: Template)
        requires
            self.op@.len() <= 64,
            self.folds_reg_into_opcode() ==> self.op@.len() >= 1 && self.op@.last() + (
            self.reg.unwrap().0 & 7) <= 255,
        ensures
            t.content() == self.opcode_bytes(),
            t.len == self.opcode_bytes().len(),
            t.placeholder_count == 0,
            t.tidy(),
    {
        let mut opcode = Template::from_slice(self.op);
        match (self.rm, self.ext, self.reg) {
            (EncodingRm::Absent, None, Some(reg)) => {
                let last = opcode.len - 1;
                opcode.bytes[last] = opcode.bytes[last] + (reg.0 & 7);
            },
            _ => {},
        }
        assert(opcode.content() =~= self.opcode_bytes());
        assert(opcode.bytes@ =~= opcode.content() + zero_bytes((64 - opcode.len) as nat));
        opcode
    }

    fn reg_field(&self) -> (b: u8)
        ensures
            b == self.reg_bits(),
    {
        match (self.reg, self.ext) {
            (Some(reg), _) => reg.0 & 7,
            (None, Some(ext)) => ext,
            (None, None) => 0,
        }
    }

    fn modrm_template(&self) -> (t: Template)
        requires
            self.mem_ok(),
            self.modrm_bytes().len() + self.disp_len() <= 64,
            self.disp_count() <= 4,
            match self.disp() {
                Some(d) => forall|i: int|
                    0 <= i < d.placeholder_count ==> #[trigger] d.placeholders@[i].location
                        + self.modrm_bytes().len() <= usize::MAX,
                None => true,
            },
        ensures
            t.content() == self.modrm_bytes() + self.disp_bytes(),
            t.holes() == shifted(self.disp_holes(), self.modrm_bytes().len() as int),
            t.len == self.modrm_bytes().len() + self.disp_len(),
            t.placeholder_count == self.disp_count(),
            t.tidy(),
    {
        let reg_bits = self.reg_field();
        let t = match self.rm {
            EncodingRm::Reg(r) => {
                let modrm_byte = 0xC0u8 | (reg_bits << 3u8) | (r.0 & 7);
                Template::bytes([modrm_byte])
            },
            EncodingRm::Mem(m) => {
                let modbits: u8 = if m.disp.len == 0 {
                    0
                } else if m.disp.len == 1 {
                    1
                } else {
                    2
                };
                match (m.base, m.index) {
                    (None, None) => {
                        // absolute [disp32]: SIB without index and without base
                        let modrm = (reg_bits << 3u8) | 4u8;
                        Template::bytes([modrm, 0x25u8]).merge(&m.disp)
                    },
                    (Some(base), None) => {
                        if base.0 == 4 || base.0 == 12 {
                            // base = RSP/R12 require SIB byte
                            let sib = 0x24u8;
                            let modrm = (modbits << 6u8) | (reg_bits << 3u8) | 4u8;
                            Template::bytes([modrm, sib]).merge(&m.disp)
                        } else {
                            let modrm = (modbits << 6u8) | (reg_bits << 3u8) | (base.0 & 7);
                            Template::bytes([modrm]).merge(&m.disp)
                        }
                    },
                    (None, Some((index, scale))) => {
                        let sib_byte = (scale << 6u8) | ((index.0 & 7) << 3u8) | 5u8;
                        let modrm = (reg_bits << 3u8) | 4u8;
                        Template::bytes([modrm, sib_byte]).merge(&m.disp)
                    },
                    (Some(base), Some((index, scale))) => {
                        let sib = (scale << 6u8) | ((index.0 & 7) << 3u8) | (base.0 & 7);
                        let modrm = (modbits << 6u8) | (reg_bits << 3u8) | 4u8;
                        Template::bytes([modrm, sib]).merge(&m.disp)
                    },
                }
            },
            EncodingRm::Absent => {
                if self.ext.is_some() {
                    Template::bytes([0xC0u8 | (reg_bits << 3u8)])
                } else {
                    Template::empty()
                }
            },
        };
        assert(t.content() =~= self.modrm_bytes() + self.disp_bytes());
        assert(t.holes() =~= shifted(self.disp_holes(), self.modrm_bytes().len() as int));
        t
    }

    /// Encodes the instruction into a template (see [`Encoding::encoded_bytes`] and
    /// [`Encoding::encoded_holes`]).
    ///
    /// An index without base is always written with SIB base 101 and ModRM mod 00, which the
    /// processor reads as followed by a 4-byte displacement: with a displacement of 0 or 1
    /// bytes the bytes come out as computed here, but do not form a well-formed instruction.
    pub fn encode(self) -> (t: Template)
        requires
            self.encodable(),
        ensures
            t.content() == self.encoded_bytes(),
            t.holes() == self.encoded_holes(),
            t.len == self.encoded_bytes().len(),
            t.placeholder_count == self.disp_count() + self.tail_count(),
            t.tidy(),
    {
        let prefixes = self.prefix_template();
        let rex = self.rex_template();
        let opcode = self.opcode_template();
        let modrm = self.modrm_template();
        let ghost hl = self.head_len();
        let ghost ml = self.modrm_bytes().len() as int;
        let head = prefixes.merge(&rex);
        let head = head.merge(&opcode);
        assert forall|i: int|
            0 <= i < modrm.placeholder_count implies #[trigger] modrm.placeholders@[i].location
            + head.len <= usize::MAX by {
            assert(modrm.placeholders@[i] == modrm.holes()[i]);
            assert(self.disp_holes()[i] == self.disp().unwrap().placeholders@[i]);
        }
        let head = head.merge(&modrm);
        assert(head.content() =~= self.prefix_bytes() + self.rex_bytes() + self.opcode_bytes()
            + self.modrm_bytes() + self.disp_bytes());
        proof {
            lemma_shifted_compose(self.disp_holes(), Seq::empty(), ml, hl);
        }
        assert(head.holes() =~= shifted(self.disp_holes(), hl + ml));
        if let Some(tail) = self.tail {
            let t = head.merge(&tail);
            assert(t.content() =~= self.encoded_bytes());
            assert(t.holes() =~= self.encoded_holes());
            t
        } else {
            assert(head.content() =~= self.encoded_bytes());
            assert(head.holes() =~= self.encoded_holes());
            head
        }
    }
}

/// The REX prefix is emitted exactly when one of its bits is needed: operand-size bits (W, or
/// a bare REX for unified byte registers) or the R, X, B extensions of registers 8 to 15; its
/// R, X, B bits are set exactly for those extended registers, and its W bit exactly when the
/// operand information asks for it.
pub proof fn law_rex_prefix(e: Encoding)
    requires
        e.opi.rex_byte == 0 || e.opi.rex_byte == 0x40 || e.opi.rex_byte == 0x48,
    ensures
        e.rex_bytes().len() == 1 <==> (e.opi.rex_byte != 0 || e.rex_r() || e.rex_x() || e.rex_b()),
        e.rex_bytes().len() == 0 || e.rex_bytes().len() == 1,
        e.rex_bytes().len() == 1 ==> {
            &&& e.rex_bytes()[0] & 0xF0 == 0x40
            &&& (e.rex_bytes()[0] & 8 != 0) == (e.opi.rex_byte == 0x48)
            &&& (e.rex_bytes()[0] & 4 != 0) == e.rex_r()
            &&& (e.rex_bytes()[0] & 2 != 0) == e.rex_x()
            &&& (e.rex_bytes()[0] & 1 != 0) == e.rex_b()
        },
{
    let rb = e.opi.rex_byte;
    let r: u8 = if e.rex_r() {
        4
    } else {
        0
    };
    let x: u8 = if e.rex_x() {
        2
    } else {
        0
    };
    let b: u8 = if e.rex_b() {
        1
    } else {
        0
    };
    let v = e.rex_value();
    assert(v == rb | r | x | b);
    assert({
        &&& (v != 0) == (rb != 0 || r != 0 || x != 0 || b != 0)
        &&& (0x40u8 | v) & 0xF0 == 0x40
        &&& ((0x40u8 | v) & 8 != 0) == (rb == 0x48)
        &&& ((0x40u8 | v) & 4 != 0) == (r != 0)
        &&& ((0x40u8 | v) & 2 != 0) == (x != 0)
        &&& ((0x40u8 | v) & 1 != 0) == (b != 0)
    }) by (bit_vector)
        requires
            rb == 0 || rb == 0x40 || rb == 0x48,
            r == 0 || r == 4,
            x == 0 || x == 2,
            b == 0 || b == 1,
            v == rb | r | x | b,
    ;
}

/// The operand information of an instruction asks for REX.W exactly for 64-bit operands, for
/// the operand-size prefix exactly for 16-bit ones, and for a REX prefix whenever a unified low
/// byte register is used.
pub proof fn law_operand_size_prefixes(size: int, unified: bool)
    ensures
        (sized_rex(size, unified) == 0x48) == (size == 8),
        unified ==> sized_rex(size, unified) != 0,
        sized_rex(size, unified) == 0 || sized_rex(size, unified) == 0x40 || sized_rex(size, unified)
            == 0x48,
{
}

/// The bit fields of a ModRM byte put together from a 2-bit `mod`, a 3-bit `reg` and a 3-bit
/// `r/m` read back as those three.
proof fn lemma_modrm_fields(md: u8, rb: u8, low: u8)
    requires
        md < 4,
        rb < 8,
        low < 8,
    ensures
        ((md << 6u8) | (rb << 3u8) | low) >> 6u8 == md,
        (((md << 6u8) | (rb << 3u8) | low) >> 3u8) & 7u8 == rb,
        ((md << 6u8) | (rb << 3u8) | low) & 7u8 == low,
{
    assert(((md << 6u8) | (rb << 3u8) | low) >> 6u8 == md && (((md << 6u8) | (rb << 3u8) | low)
        >> 3u8) & 7u8 == rb && ((md << 6u8) | (rb << 3u8) | low) & 7u8 == low) by (bit_vector)
        requires
            md < 4,
            rb < 8,
            low < 8,
    ;
}

/// In the encoding of a memory operand with a base register, the `mod` field (the top two
/// bits) of the ModRM byte states the width of the displacement: `00` for none, `01` for one
/// byte, `10` for four bytes; the `reg` field holds the register operand's low three bits.
pub proof fn law_modrm_mod_field_states_displacement(e: Encoding)
    requires
        e.mem_ok(),
        e.rm matches EncodingRm::Mem(m) && m.base is Some,
        e.ext matches Some(x) ==> x < 8,
    ensures
        e.encoded_bytes().len() > e.head_len(),
        e.rm matches EncodingRm::Mem(m) && (m.disp.len == 0 ==> e.encoded_bytes()[e.head_len()]
            >> 6u8 == 0u8) && (m.disp.len == 1 ==> e.encoded_bytes()[e.head_len()] >> 6u8 == 1u8)
            && (m.disp.len == 4 ==> e.encoded_bytes()[e.head_len()] >> 6u8 == 2u8),
        e.reg matches Some(r) ==> (e.encoded_bytes()[e.head_len()] >> 3u8) & 7u8 == r.0 & 7u8,
{
    let m = e.rm->Mem_0;
    let b = m.base.unwrap();
    let rb = e.reg_bits();
    let md = mod_bits(m.disp.len);
    assert(rb < 8) by {
        match e.reg {
            Some(r) => {
                let x = r.0;
                assert(x & 7u8 < 8) by (bit_vector);
            },
            None => {},
        }
    }
    let low: u8 = if m.index is Some || b.0 == 4 || b.0 == 12 {
        4u8
    } else {
        b.0 & 7u8
    };
    let bn = b.0;
    assert(bn & 7u8 < 8) by (bit_vector);
    lemma_modrm_fields(md, rb, low);
    let head = e.prefix_bytes() + e.rex_bytes() + e.opcode_bytes();
    assert(head.len() == e.head_len());
    assert(e.modrm_bytes()[0] == (md << 6u8) | (rb << 3u8) | low);
    assert(e.encoded_bytes() =~= head + (e.modrm_bytes() + e.disp_bytes() + e.tail_bytes()));
    assert(e.encoded_bytes()[e.head_len()] == e.modrm_bytes()[0]);
}

/// With 32-bit addressing the encoding starts with the address-size override prefix `0x67`.
pub proof fn law_a32_emits_address_size_prefix(e: Encoding)
    requires
        e.rm matches EncodingRm::Mem(m) && m.addressing_size == AddressSize::A32,
    ensures
        e.encoded_bytes().len() > 0,
        e.encoded_bytes()[0] == 0x67u8,
{
    let rest = e.encoded_bytes().drop_first();
    assert(e.encoded_bytes() =~= seq![0x67u8] + (e.prefix_bytes().drop_first() + e.rex_bytes()
        + e.opcode_bytes() + e.modrm_bytes() + e.disp_bytes() + e.tail_bytes()));
}

/// `opguard` checks a relative operand as it checks an immediate: one among the checked
/// operands whose length is 256 or more, or has no bit in common with its mask, makes the form
/// fail, and putting an immediate of the same template in its place changes no outcome.
pub proof fn law_opguard_rel_as_imm(ops: Seq<ast::Operand>, masks: Seq<u8>, i: int, t: Template)
    requires
        ops.len() >= masks.len(),
        0 <= i < masks.len(),
        ops[i] == ast::Operand::Rel(t),
    ensures
        guard_holds(ops, masks) == guard_holds(ops.update(i, ast::Operand::Imm(t)), masks),
        !(t.len < 256 && (t.len as u8) & masks[i] != 0) ==> !guard_holds(ops, masks),
{
    let ops2 = ops.update(i, ast::Operand::Imm(t));
    assert forall|k: int| 0 <= k < masks.len() implies is_high_byte(#[trigger] ops2[k])
        == is_high_byte(ops[k]) && is_unified_byte(ops2[k]) == is_unified_byte(ops[k]) && (
    match ops2[k] {
        ast::Operand::Imm(u) => u.len < 256 && (u.len as u8) & masks[k] != 0,
        ast::Operand::Rel(u) => u.len < 256 && (u.len as u8) & masks[k] != 0,
        _ => true,
    }) == (match ops[k] {
        ast::Operand::Imm(u) => u.len < 256 && (u.len as u8) & masks[k] != 0,
        ast::Operand::Rel(u) => u.len < 256 && (u.len as u8) & masks[k] != 0,
        _ => true,
    }) by {
        if k == i {
        }
    }
    if guard_holds(ops, masks) != guard_holds(ops2, masks) {
        if guard_holds(ops, masks) {
            assert(guard_holds(ops2, masks));
        } else {
            let fits = |o: ast::Operand, k: int|
                match o {
                    ast::Operand::Imm(u) => u.len < 256 && (u.len as u8) & masks[k] != 0,
                    ast::Operand::Rel(u) => u.len < 256 && (u.len as u8) & masks[k] != 0,
                    _ => true,
                };
            if exists|k: int| 0 <= k < masks.len() && !fits(ops[k], k) {
                let k = choose|k: int| 0 <= k < masks.len() && !fits(ops[k], k);
                assert(!fits(ops2[k], k));
            } else {
                let k1 = choose|k: int| 0 <= k < masks.len() && is_high_byte(#[trigger] ops[k]);
                let k2 = choose|k: int| 0 <= k < masks.len() && is_unified_byte(#[trigger] ops[k]);
                assert(is_high_byte(ops2[k1]));
                assert(is_unified_byte(ops2[k2]));
            }
        }
    }
}

/// `opguard_szop` refuses every form in which a high byte register (`ah`, `ch`, `dh`, `bh`)
/// and a unified low byte register (`spl`, `bpl`, `sil`, `dil`, which need a REX prefix) both
/// occur among the size operand and the operands that take the operand size, whichever of
/// them is the size operand.
pub proof fn law_opguard_szop_refuses_high_with_unified(
    size_operand: ast::Operand,
    size_op_mask: u8,
    etc: Seq<ast::Operand>,
    masks: Seq<u8>,
    i: int,
    j: int,
    hi: u8,
    lo: u8,
)
    requires
        masks.len() >= etc.len(),
        4 <= lo < 8,
    ensures
        size_operand == ast::Operand::Reg(ast::Reg(ast::RegType::H, hi)) && sized_at(etc, masks, j)
            && etc[j] == ast::Operand::Reg(ast::Reg(ast::RegType::B, lo)) ==> !szop_guard_holds(
            size_operand,
            size_op_mask,
            etc,
            masks,
        ),
        size_operand == ast::Operand::Reg(ast::Reg(ast::RegType::B, lo)) && sized_at(etc, masks, i)
            && etc[i] == ast::Operand::Reg(ast::Reg(ast::RegType::H, hi)) ==> !szop_guard_holds(
            size_operand,
            size_op_mask,
            etc,
            masks,
        ),
        sized_at(etc, masks, i) && etc[i] == ast::Operand::Reg(ast::Reg(ast::RegType::H, hi))
            && sized_at(etc, masks, j) && etc[j] == ast::Operand::Reg(
            ast::Reg(ast::RegType::B, lo),
        ) ==> !szop_guard_holds(size_operand, size_op_mask, etc, masks),
{
    if sized_at(etc, masks, i) && etc[i] == ast::Operand::Reg(ast::Reg(ast::RegType::H, hi)) {
        assert(is_high_byte(etc[i]));
    }
    if sized_at(etc, masks, j) && etc[j] == ast::Operand::Reg(ast::Reg(ast::RegType::B, lo)) {
        assert(is_unified_byte(etc[j]));
    }
}

} // verus!
