//! Operands and instructions as written in assembly (register classes, memory references,
//! immediates), and their translation into the encoder's terms.
use crate::template::{le_int, pow256, shifted, Template};
use crate::x64::{AddressSize, Encoding, EncodingMem, EncodingRm};
use vstd::prelude::*;

verus! {

#[derive(Clone, Copy, PartialEq, Eq, Structural, Debug)]
pub enum RegType {
    /// Low byte of a word register.
    ///
    /// This includes the unified low registers `spl`, `bpl`, `sil` and `dil` which conflict in
    /// encoding space with the high byte registers.
    B,
    /// High byte of a word register.
    H,
    /// Word register.
    W,
    /// Double word (32-bit) register.
    D,
    /// Quad word (64-bit) register.
    Q,
}

/// A register of a class and a number.
#[derive(Clone, Copy, PartialEq, Eq, Structural, Debug)]
pub struct Reg(pub RegType, pub u8);

/// A memory reference: `[index * scale + base + disp]`, each part optional.
#[derive(Clone, Copy)]
pub struct Mem {
    pub base: Option<Reg>,
    pub index: Option<(Reg, u8)>,
    pub disp: Template,
}

/// A register usable in 32-bit or 64-bit addressing.
pub open spec fn is_addr_reg(r: Reg) -> bool {
    (r.0 == RegType::D || r.0 == RegType::Q) && r.1 < 16
}

/// A displacement of 0, 1 or 4 bytes.
pub open spec fn is_disp_len(n: usize) -> bool {
    n == 0 || n == 1 || n == 4
}

/// A scale of 1, 2, 4 or 8, with an index that is not ESP/RSP.
pub open spec fn is_scale_index(scale: u8, index: Reg) -> bool {
    &&& scale == 1 || scale == 2 || scale == 4 || scale == 8
    &&& !((index.0 == RegType::D || index.0 == RegType::Q) && index.1 == 4)
}

/// Number of trailing zero bits of a byte (8 for zero).
pub open spec fn trailing_zeros(x: u8) -> u8
    decreases x,
{
    if x == 0 {
        8
    } else if x % 2 == 1 {
        0
    } else {
        (1 + trailing_zeros(x / 2)) as u8
    }
}

spec fn two_pow(k: nat) -> nat
    decreases k,
{
    if k == 0 {
        1
    } else {
        2 * two_pow((k - 1) as nat)
    }
}

proof fn lemma_trailing_zeros_below(x: u8, k: nat)
    requires
        x != 0,
        x < two_pow(k),
    ensures
        trailing_zeros(x) < k,
    decreases x,
{
    if k == 0 {
        assert(two_pow(0) == 1);
    } else if x % 2 == 0 {
        lemma_trailing_zeros_below(x / 2, (k - 1) as nat);
    }
}

pub open spec fn is_q(r: Reg) -> bool {
    r.0 == RegType::Q
}

impl Mem {
    /// The address size that the registers of the reference select.
    pub open spec fn address_size(self) -> AddressSize {
        match (self.base, self.index) {
            (None, None) => AddressSize::A64,
            (Some(b), Some((i, _))) => if is_q(b) {
                AddressSize::A64
            } else {
                AddressSize::A32
            },
            (Some(r), None) => if is_q(r) {
                AddressSize::A64
            } else {
                AddressSize::A32
            },
            (None, Some((r, _))) => if is_q(r) {
                AddressSize::A64
            } else {
                AddressSize::A32
            },
        }
    }

    /// Base and index, where both are present, are of the same register class.
    pub open spec fn consistent(self) -> bool {
        match (self.base, self.index) {
            (Some(b), Some((i, _))) => b.0 == i.0,
            _ => true,
        }
    }

    /// [displacement]
    pub fn displacement_only(disp: Template) -> (m: Self)
        requires
            is_disp_len(disp.len),
        ensures
            m == (Mem { base: None, index: None, disp }),
    {
        Self { base: None, index: None, disp: disp }
    }

    /// [base + displacement]
    pub fn base_displacement(base: Reg, disp: Template) -> (m: Self)
        requires
            is_disp_len(disp.len),
            is_addr_reg(base),
        ensures
            m == (Mem { base: Some(base), index: None, disp }),
    {
        Self { base: Some(base), index: None, disp: disp }
    }

    /// [base]
    pub fn base(base: Reg) -> (m: Self)
        requires
            is_addr_reg(base),
        ensures
            m.base == Some(base),
            m.index is None,
            m.disp.len == 0,
            m.disp.placeholder_count == 0,
            m.disp.wf(),
    {
        Self::base_displacement(base, Template::empty())
    }

    /// [index * scale + base + disp] also known as SIB addressing.
    pub fn scale_index_base(scale: u8, index: Reg, base: Reg, disp: Template) -> (m: Self)
        requires
            is_disp_len(disp.len),
            is_addr_reg(index),
            is_addr_reg(base),
            is_scale_index(scale, index),
        ensures
            m == (Mem { base: Some(base), index: Some((index, scale)), disp }),
    {
        Self { base: Some(base), index: Some((index, scale)), disp }
    }

    /// SIB but without base register.
    pub fn scale_index(scale: u8, index: Reg, disp: Template) -> (m: Self)
        requires
            is_disp_len(disp.len),
            is_addr_reg(index),
            is_scale_index(scale, index),
        ensures
            m == (Mem { base: None, index: Some((index, scale)), disp }),
    {
        Self { base: None, index: Some((index, scale)), disp }
    }

    /// The reference in the encoder's terms: address size, register numbers, and the scale as
    /// its power of two.
    pub fn encoding(self) -> (e: EncodingMem)
        requires
            self.consistent(),
        ensures
            e.addressing_size == self.address_size(),
            e.base == (match self.base {
                Some(b) => Some(crate::x64::Reg(b.1)),
                None => None,
            }),
            e.index == (match self.index {
                Some((i, s)) => Some((crate::x64::Reg(i.1), trailing_zeros(s))),
                None => None,
            }),
            e.disp == self.disp,
    {
        let addressing_size = match (self.base, self.index) {
            (None, None) => AddressSize::A64,
            (Some(Reg(rt1, _)), Some((Reg(_, _), _))) => {
                if matches!(rt1, RegType::Q) {
                    AddressSize::A64
                } else {
                    AddressSize::A32
                }
            },
            (Some(Reg(reg_type, _)), None) | (None, Some((Reg(reg_type, _), _))) => {
                if matches!(reg_type, RegType::Q) {
                    AddressSize::A64
                } else {
                    AddressSize::A32
                }
            },
        };
        let base = match self.base {
            Some(b) => Some(crate::x64::Reg(b.1)),
            None => None,
        };
        let index = match self.index {
            Some((i, s)) => Some((crate::x64::Reg(i.1), byte_trailing_zeros(s))),
            None => None,
        };
        EncodingMem { addressing_size, base, index, disp: self.disp }
    }
}

/// The registers of a memory reference decide its address size: 64-bit addressing exactly
/// when its base (or, without base, its index) is a quad word register, so a reference through
/// a 32-bit register alone is encoded with 32-bit addressing; a reference without registers
/// uses 64-bit addressing.
pub proof fn law_address_size_follows_registers(m: Mem)
    requires
        m.consistent(),
    ensures
        m.base matches Some(b) ==> (m.address_size() == AddressSize::A64 <==> b.0 == RegType::Q),
        m.index matches Some((i, _)) ==> (m.address_size() == AddressSize::A64 <==> i.0
            == RegType::Q),
        m.base matches Some(b) ==> (m.address_size() == AddressSize::A32 <==> b.0 != RegType::Q),
        m.index matches Some((i, _)) ==> (m.address_size() == AddressSize::A32 <==> i.0
            != RegType::Q),
        m.base is None && m.index is None ==> m.address_size() == AddressSize::A64,
{
}

/// The size of the memory operand (e.g. `dword` in `dword [ ... ]`)
#[derive(Clone, Copy, PartialEq, Eq, Structural, Debug)]
pub enum MemSize {
    /// No size annotation.
    Unsized,
    Byte,
    Word,
    Dword,
    Qword,
}

#[derive(Clone, Copy)]
pub enum Operand {
    Reg(Reg),
    Imm(Template),
    Rel(Template),
    Mem(MemSize, Mem),
}

#[derive(Clone, Copy)]
pub enum Operands {
    Z,
    A(Operand),
    B(Operand, Operand),
    C(Operand, Operand, Operand),
    D(Operand, Operand, Operand, Operand),
}

impl Operand {
    /// The register number of a register operand.
    pub fn reg(&self) -> (r: crate::x64::Reg)
        requires
            *self matches Operand::Reg(Reg(_, n)) && n < 16,
        ensures
            *self matches Operand::Reg(Reg(_, n)) && r == crate::x64::Reg(n),
    {
        match self {
            Operand::Reg(Reg(_, num)) => crate::x64::Reg(*num),
            _ => crate::x64::Reg(0),
        }
    }

    /// The operand as the r/m operand of the encoder.
    pub fn rm(&self) -> (r: EncodingRm)
        requires
            match *self {
                Operand::Reg(Reg(_, n)) => n < 16,
                Operand::Mem(_, m) => m.consistent(),
                _ => false,
            },
        ensures
            match *self {
                Operand::Reg(Reg(_, n)) => r == EncodingRm::Reg(crate::x64::Reg(n)),
                Operand::Mem(_, m) => r matches EncodingRm::Mem(e) && e.addressing_size
                    == m.address_size() && e.disp == m.disp && e.base == (match m.base {
                    Some(b) => Some(crate::x64::Reg(b.1)),
                    None => None,
                }) && e.index == (match m.index {
                    Some((i, s)) => Some((crate::x64::Reg(i.1), trailing_zeros(s))),
                    None => None,
                }),
                _ => false,
            },
    {
        match self {
            Operand::Reg(Reg(_, num)) => EncodingRm::Reg(crate::x64::Reg(*num)),
            Operand::Mem(_, mem) => EncodingRm::Mem(mem.encoding()),
            _ => EncodingRm::Absent,
        }
    }
}

/// Legacy instruction prefixes.
#[derive(Clone, Copy, PartialEq, Eq, Structural, Debug)]
pub enum Prefix {
    Lock,
    Rep,
    Repe,
    Repz,
    Repne,
    Repnz,
}

impl Prefix {
    /// The byte of the prefix.
    pub open spec fn byte(self) -> u8 {
        match self {
            Prefix::Lock => 0xF0,
            Prefix::Rep | Prefix::Repe | Prefix::Repz => 0xF3,
            Prefix::Repne | Prefix::Repnz => 0xF2,
        }
    }

    /// The prefix as a one-byte template.
    pub fn encode(self) -> (t: Template)
        ensures
            t.content() == seq![self.byte()],
            t.len == 1,
            t.placeholder_count == 0,
            t.tidy(),
    {
        let b: u8 = match self {
            Prefix::Lock => 0xF0,
            Prefix::Rep | Prefix::Repe | Prefix::Repz => 0xF3,
            Prefix::Repne | Prefix::Repnz => 0xF2,
        };
        let t = Template::bytes([b]);
        assert([b]@ =~= seq![b]);
        t
    }
}

/// The bytes of a sequence of prefixes.
pub open spec fn prefix_seq_bytes(ps: Seq<Prefix>) -> Seq<u8> {
    ps.map_values(|p: Prefix| p.byte())
}

/// An instruction: its legacy prefixes and the encoding that its mnemonic selects for its
/// operands.
#[derive(Clone, Copy)]
pub struct Instruction {
    pub prefixes: &'static [Prefix],
    pub encoding: Encoding,
}

impl Instruction {
    /// The prefixes, one byte each.
    pub fn encode_prefixes(&self) -> (t: Template)
        requires
            self.prefixes@.len() <= 64,
        ensures
            t.content() == prefix_seq_bytes(self.prefixes@),
            t.len == self.prefixes@.len(),
            t.placeholder_count == 0,
            t.tidy(),
    {
        let mut i: usize = 0;
        let mut out = Template::empty();
        assert(out.content() =~= prefix_seq_bytes(self.prefixes@.take(0)));
        while i < self.prefixes.len()
            invariant
                i <= self.prefixes@.len() <= 64,
                out.len == i,
                out.placeholder_count == 0,
                out.tidy(),
                out.content() == prefix_seq_bytes(self.prefixes@.take(i as int)),
            decreases self.prefixes@.len() - i,
        {
            let p = self.prefixes[i].encode();
            out = out.merge(&p);
            assert(prefix_seq_bytes(self.prefixes@.take(i + 1)) =~= prefix_seq_bytes(
                self.prefixes@.take(i as int),
            ) + seq![self.prefixes@[i as int].byte()]);
            i += 1;
        }
        assert(self.prefixes@.take(i as int) =~= self.prefixes@);
        out
    }

    /// The prefixes followed by the encoded instruction.
    pub fn encode(&self) -> (t: Template)
        requires
            self.encoding.encodable(),
            self.prefixes@.len() + self.encoding.encoded_bytes().len() <= 64,
            forall|i: int|
                0 <= i < self.encoding.encoded_holes().len() ==> #[trigger] self.encoding.encoded_holes()[i].location
                    + self.prefixes@.len() <= usize::MAX,
        ensures
            t.content() == prefix_seq_bytes(self.prefixes@) + self.encoding.encoded_bytes(),
            t.holes() == shifted(self.encoding.encoded_holes(), self.prefixes@.len() as int),
            t.tidy(),
    {
        let p = self.encode_prefixes();
        let e = self.encoding.encode();
        assert forall|i: int| 0 <= i < e.placeholder_count implies #[trigger] e.placeholders@[i].location
            + p.len <= usize::MAX by {
            assert(e.placeholders@[i] == e.holes()[i]);
        }
        let t = p.merge(&e);
        assert(t.holes() =~= shifted(self.encoding.encoded_holes(), self.prefixes@.len() as int));
        t
    }
}

/// Conversion helper to produce templates for immediate literals
pub struct ImmTemplate<T>(pub T);

/// The `n` low bytes of `v`, least significant first.
pub open spec fn le_bytes(v: nat, n: nat) -> Seq<u8>
    decreases n,
{
    if n == 0 {
        Seq::empty()
    } else {
        seq![(v % 256) as u8] + le_bytes(v / 256, (n - 1) as nat)
    }
}

/// The `n` low bytes of `v` as a template.
fn le_template(v: u64, n: usize) -> (t: Template)
    requires
        n <= 8,
    ensures
        t.content() == le_bytes(v as nat, n as nat),
        t.len == n,
        t.placeholder_count == 0,
        t.tidy(),
{
    let mut t = Template::empty();
    let mut w = v;
    let mut i: usize = 0;
    assert(t.content() =~= Seq::<u8>::empty());
    while i < n
        invariant
            i <= n <= 8,
            t.len == i,
            t.placeholder_count == 0,
            t.tidy(),
            t.content() + le_bytes(w as nat, (n - i) as nat) == le_bytes(v as nat, n as nat),
        decreases n - i,
    {
        let b = (w & 0xff) as u8;
        assert(b == (w % 256) as u8) by (bit_vector)
            requires
                b == (w & 0xff) as u8,
        ;
        assert(w >> 8 == w / 256) by (bit_vector);
        let one = Template::bytes([b]);
        assert([b]@ =~= seq![b]);
        t = t.merge(&one);
        assert(le_bytes(w as nat, (n - i) as nat) == seq![b] + le_bytes(
            (w / 256) as nat,
            (n - i - 1) as nat,
        ));
        w = w >> 8;
        i += 1;
        assert(t.content() + le_bytes(w as nat, (n - i) as nat) =~= le_bytes(v as nat, n as nat));
    }
    assert(t.content() =~= le_bytes(v as nat, n as nat));
    t
}

impl ImmTemplate<u8> {
    pub fn template(self) -> (t: Template)
        ensures
            t.content() == le_bytes(self.0 as nat, 1),
            t.len == 1,
            t.placeholder_count == 0,
            t.tidy(),
    {
        le_template(self.0 as u64, 1)
    }
}

impl ImmTemplate<i8> {
    pub fn template(self) -> (t: Template)
        ensures
            t.content() == le_bytes(self.0 as u8 as nat, 1),
            t.len == 1,
            t.placeholder_count == 0,
            t.tidy(),
    {
        le_template(self.0 as u8 as u64, 1)
    }
}

impl ImmTemplate<u16> {
    pub fn template(self) -> (t: Template)
        ensures
            t.content() == le_bytes(self.0 as nat, 2),
            t.len == 2,
            t.placeholder_count == 0,
            t.tidy(),
    {
        le_template(self.0 as u64, 2)
    }
}

impl ImmTemplate<i16> {
    pub fn template(self) -> (t: Template)
        ensures
            t.content() == le_bytes(self.0 as u16 as nat, 2),
            t.len == 2,
            t.placeholder_count == 0,
            t.tidy(),
    {
        le_template(self.0 as u16 as u64, 2)
    }
}

impl ImmTemplate<u32> {
    pub fn template(self) -> (t: Template)
        ensures
            t.content() == le_bytes(self.0 as nat, 4),
            t.len == 4,
            t.placeholder_count == 0,
            t.tidy(),
    {
        le_template(self.0 as u64, 4)
    }
}

impl ImmTemplate<i32> {
    pub fn template(self) -> (t: Template)
        ensures
            t.content() == le_bytes(self.0 as u32 as nat, 4),
            t.len == 4,
            t.placeholder_count == 0,
            t.tidy(),
    {
        le_template(self.0 as u32 as u64, 4)
    }
}

impl ImmTemplate<u64> {
    pub fn template(self) -> (t: Template)
        ensures
            t.content() == le_bytes(self.0 as nat, 8),
            t.len == 8,
            t.placeholder_count == 0,
            t.tidy(),
    {
        le_template(self.0, 8)
    }
}

impl ImmTemplate<i64> {
    pub fn template(self) -> (t: Template)
        ensures
            t.content() == le_bytes(self.0 as u64 as nat, 8),
            t.len == 8,
            t.placeholder_count == 0,
            t.tidy(),
    {
        le_template(self.0 as u64, 8)
    }
}

/// Number of trailing zero bits of a byte.
pub fn byte_trailing_zeros(x: u8) -> (n: u8)
    ensures
        n == trailing_zeros(x),
{
    let mut n: u8 = 0;
    let mut y = x;
    if y == 0 {
        return 8;
    }
    proof {
        reveal_with_fuel(two_pow, 9);
        lemma_trailing_zeros_below(x, 8);
    }
    while y % 2 == 0
        invariant
            y != 0,
            n <= 8,
            trailing_zeros(x) == n + trailing_zeros(y),
            n + trailing_zeros(y) <= 8,
        decreases y,
    {
        proof {
            reveal_with_fuel(two_pow, 9);
            lemma_trailing_zeros_below(y / 2, 8);
        }
        assert(trailing_zeros(y) == 1 + trailing_zeros(y / 2));
        y = y / 2;
        n += 1;
    }
    n
}

/// The bytes of an immediate read back, little-endian, as the value cut to their width: the
/// `n` low bytes of `v` hold `v mod 256^n`.
pub proof fn law_le_bytes_read_back(v: nat, n: nat)
    ensures
        le_bytes(v, n).len() == n,
        le_int(le_bytes(v, n)) == v % pow256(n),
    decreases n,
{
    if n > 0 {
        law_le_bytes_read_back(v / 256, (n - 1) as nat);
        let s = le_bytes(v, n);
        assert(s.drop_first() =~= le_bytes(v / 256, (n - 1) as nat));
        assert(pow256(n) == 256 * pow256((n - 1) as nat));
        assert(pow256((n - 1) as nat) > 0) by {
            lemma_pow256_positive((n - 1) as nat);
        }
        vstd::arithmetic::div_mod::lemma_mod_breakdown(v as int, 256, pow256((n - 1) as nat) as int);
    }
}

/// A template that holds nothing but the little-endian bytes of a signed value of width 1, 2, 4
/// or 8 (what `to_le_bytes` gives, and what `ImmTemplate::template` builds) is that value to
/// `is_le_int`.
pub proof fn law_le_bytes_is_le_int(
    t8: Template,
    x8: i8,
    t16: Template,
    x16: i16,
    t32: Template,
    x32: i32,
    t64: Template,
    x64: i64,
)
    requires
        t8.placeholder_count == 0,
        t8.len == 1,
        t8.content() == le_bytes(x8 as u8 as nat, 1),
        t16.placeholder_count == 0,
        t16.len == 2,
        t16.content() == le_bytes(x16 as u16 as nat, 2),
        t32.placeholder_count == 0,
        t32.len == 4,
        t32.content() == le_bytes(x32 as u32 as nat, 4),
        t64.placeholder_count == 0,
        t64.len == 8,
        t64.content() == le_bytes(x64 as u64 as nat, 8),
    ensures
        t8.le_int_matches(x8 as i64),
        t16.le_int_matches(x16 as i64),
        t32.le_int_matches(x32 as i64),
        t64.le_int_matches(x64),
{
    reveal_with_fuel(pow256, 9);
    assert(pow256(1) == 0x100);
    assert(pow256(2) == 0x1_0000);
    assert(pow256(4) == 0x1_0000_0000);
    assert(pow256(8) == 0x1_0000_0000_0000_0000);
    law_le_bytes_read_back(x8 as u8 as nat, 1);
    law_le_bytes_read_back(x16 as u16 as nat, 2);
    law_le_bytes_read_back(x32 as u32 as nat, 4);
    law_le_bytes_read_back(x64 as u64 as nat, 8);
    assert(le_int(t8.content()) == x8 as u8);
    assert(le_int(t16.content()) == x16 as u16);
    assert(le_int(t32.content()) == x32 as u32);
    assert(le_int(t64.content()) == x64 as u64);
    assert((x8 as u8) as i8 == x8 && (x8 as i64) as i8 == x8 && (x16 as u16) as i16 == x16 && (
    x16 as i64) as i16 == x16 && (x32 as u32) as i32 == x32 && (x32 as i64) as i32 == x32 && (
    x64 as u64) as i64 == x64) by (bit_vector);
}

proof fn lemma_pow256_positive(k: nat)
    ensures
        pow256(k) > 0,
    decreases k,
{
    if k > 0 {
        lemma_pow256_positive((k - 1) as nat);
    }
}

} // verus!
