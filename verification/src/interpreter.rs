//! The machine code of the interpreter's step, assembled from the encoder.
use crate::template::{Placeholder, Template};
use crate::x64::ast::{le_bytes, ImmTemplate, Instruction, Mem, MemSize, Operand, Prefix, Reg, RegType};
use crate::x64::{Encoding, OperandInfo};
use vstd::prelude::*;

verus! {

/// The step's code: eight instructions of fixed bytes, then `add ebp, imm32` whose immediate
/// is a 4-byte placeholder, `js` back 8 bytes, `jo` whose 1-byte offset is a placeholder, two
/// `movbe` loads and a `crc32`.
pub open spec fn step_bytes() -> Seq<u8> {
    seq![
        0x40u8, 0x00, 0xE0,  // add al, spl
        0x44, 0x00, 0xC0,  // add al, r8b
        0xF4,  // hlt
        0xC3,  // retn
        0xF0, 0xF2, 0xC3,  // lock repnz retn
        0xF0, 0xF2, 0xC3,  // lock repne retn
        0x48, 0x81, 0xC0, 0x20, 0x00, 0x00, 0x00,  // add rax, 32
        0x48, 0x81, 0xC0, 0x20, 0x00, 0x00, 0x00,  // add rax, 32
        0x81, 0xC5, 0x00, 0x00, 0x00, 0x00,  // add ebp, imm32
        0x0F, 0x88, 0xF8, 0xFF, 0xFF, 0xFF,  // js rel32 -8
        0x70, 0x00,  // jo rel8
        0x0F, 0x38, 0xF0, 0x44, 0xC5, 0x20,  // movbe eax, [rbp + rax * 8 + 32]
        0x67, 0x0F, 0x38, 0xF0, 0x04, 0xCD, 0x20, 0x00, 0x00, 0x00,  // movbe eax, [ecx * 8 + 32]
        0x66, 0xF2, 0x0F, 0x38, 0xF1, 0xC3,  // crc32 eax, bx
    ]
}

/// The step's placeholders: the immediate of `add ebp` and the offset of `jo`.
pub open spec fn step_holes() -> Seq<Placeholder> {
    seq![Placeholder { location: 30, size: 4 }, Placeholder { location: 41, size: 1 }]
}

/// The bit arithmetic of REX prefixes and ModRM/SIB bytes on small fields.
proof fn lemma_field_bits()
    by (bit_vector)
    ensures
        forall|a: u8| #[trigger] (a | 0u8) == a,
        forall|a: u8| #[trigger] (0u8 | a) == a,
        forall|a: u8| a < 16 ==> #[trigger] (0x40u8 | a) == 0x40u8 + a,
        forall|a: u8| 0x40u8 <= a < 0x50u8 ==> #[trigger] (0x40u8 | a) == a,
        forall|a: u8, b: u8, c: u8|
            a < 4 && b < 8 && c < 8 ==> #[trigger] (((a << 6u8) | (b << 3u8)) | c) == a * 64 + b
                * 8 + c,
        forall|b: u8, c: u8|
            b < 8 && c < 8 ==> #[trigger] ((0xC0u8 | (b << 3u8)) | c) == 0xC0u8 + b * 8 + c,
        forall|b: u8| b < 8 ==> #[trigger] ((b << 3u8) | 4u8) == b * 8 + 4,
        forall|b: u8| b < 8 ==> #[trigger] (0xC0u8 | (b << 3u8)) == 0xC0u8 + b * 8,
        forall|a: u8| #[trigger] (a & 7u8) == a % 8,
{
}

/// The interpreter's step as one template.
pub fn interpreter_step() -> (t: Template)
    ensures
        t.content() == step_bytes(),
        t.holes() == step_holes(),
        t.tidy(),
{
    let placeholder = Template::placeholder(1);
    let register: u8 = 5;
    let number = Template::placeholder(4);
    assert(number.content() =~= seq![0u8, 0, 0, 0]);
    assert(number.holes() =~= seq![Placeholder { location: 0, size: 4 }]);
    assert(placeholder.content() =~= seq![0u8]);
    assert(placeholder.holes() =~= seq![Placeholder { location: 0, size: 1 }]);
    let head = step_head();
    let middle = step_middle(register, number, placeholder);
    let tail = step_tail(register);
    let t = head.merge(&middle).merge(&tail);
    assert(t.content() =~= step_bytes());
    assert(t.holes() =~= step_holes());
    t
}

/// The first six instructions: byte additions, `hlt`, and `retn` bare and with prefixes.
fn step_head() -> (t: Template)
    ensures
        t.content() == step_bytes().subrange(0, 14),
        t.holes() == Seq::<Placeholder>::empty(),
        t.tidy(),
{
    proof {
        lemma_field_bits();
    }

    let al = Operand::Reg(Reg(RegType::B, 0));
    let spl = Operand::Reg(Reg(RegType::B, 4));
    let r8b = Operand::Reg(Reg(RegType::B, 8));

    // add al, spl
    proof {
        assert(crate::x64::is_unified_byte(spl));
        assert(seq![spl][0] == spl);
    }
    assert([spl]@ =~= seq![spl]);
    let i1 = Instruction {
        prefixes: &[],
        encoding: Encoding {
            pref: &[],
            op: &[0x00],
            opi: OperandInfo::new(al, &[spl]),
            reg: Some(spl.reg()),
            rm: al.rm(),
            ext: None,
            tail: None,
        },
    };
    assert(i1.encoding.rex_value() == 0x40);
    assert(i1.encoding.modrm_bytes() =~= seq![0xE0u8]);
    let t1 = i1.encode();
    assert(t1.content() =~= seq![0x40u8, 0x00, 0xE0]);

    // add al, r8b
    proof {
        assert(seq![r8b][0] == r8b);
    }
    assert([r8b]@ =~= seq![r8b]);
    let i2 = Instruction {
        prefixes: &[],
        encoding: Encoding {
            pref: &[],
            op: &[0x00],
            opi: OperandInfo::new(al, &[r8b]),
            reg: Some(r8b.reg()),
            rm: al.rm(),
            ext: None,
            tail: None,
        },
    };
    assert(i2.encoding.rex_value() == 4);
    assert(i2.encoding.modrm_bytes() =~= seq![0xC0u8]);
    let t2 = i2.encode();
    assert(t2.content() =~= seq![0x44u8, 0x00, 0xC0]);

    // hlt
    let i3 = Instruction {
        prefixes: &[],
        encoding: Encoding {
            pref: &[],
            op: &[0xF4],
            opi: OperandInfo::unsz(&[]),
            reg: None,
            rm: crate::x64::EncodingRm::Absent,
            ext: None,
            tail: None,
        },
    };
    let t3 = i3.encode();
    assert(t3.content() =~= seq![0xF4u8]);

    // retn
    let i4 = Instruction {
        prefixes: &[],
        encoding: Encoding {
            pref: &[],
            op: &[0xC3],
            opi: OperandInfo::unsz(&[]),
            reg: None,
            rm: crate::x64::EncodingRm::Absent,
            ext: None,
            tail: None,
        },
    };
    let t4 = i4.encode();
    assert(t4.content() =~= seq![0xC3u8]);

    // lock repnz retn
    let i5 = Instruction { prefixes: &[Prefix::Lock, Prefix::Repnz], encoding: i4.encoding };
    let t5 = i5.encode();
    assert(t5.content() =~= seq![0xF0u8, 0xF2, 0xC3]);

    // lock repne retn
    let i6 = Instruction { prefixes: &[Prefix::Lock, Prefix::Repne], encoding: i4.encoding };
    let t6 = i6.encode();
    assert(t6.content() =~= seq![0xF0u8, 0xF2, 0xC3]);

    let acc = t1.merge(&t2).merge(&t3).merge(&t4).merge(&t5).merge(&t6);
    assert(acc.content() =~= step_bytes().subrange(0, 14));
    assert(acc.holes() =~= Seq::<Placeholder>::empty());
    acc
}

/// `add rax, 32` twice, `add` of the immediate `number` to the register `register`, `js` back
/// 8 bytes and `jo` to the 1-byte offset `placeholder`.
fn step_middle(register: u8, number: Template, placeholder: Template) -> (t: Template)
    requires
        register == 5,
        number.content() == seq![0u8, 0, 0, 0],
        number.holes() == seq![Placeholder { location: 0, size: 4 }],
        number.tidy(),
        placeholder.content() == seq![0u8],
        placeholder.holes() == seq![Placeholder { location: 0, size: 1 }],
        placeholder.tidy(),
    ensures
        t.content() == step_bytes().subrange(14, 42),
        t.holes() == seq![Placeholder { location: 16, size: 4 }, Placeholder { location: 27, size: 1 }],
        t.tidy(),
{
    proof {
        lemma_field_bits();
    }
    let rax = Operand::Reg(Reg(RegType::Q, 0));
    let rd = Operand::Reg(Reg(RegType::D, register));

    // add rax, 32i32 (twice)
    let imm = ImmTemplate(32i32).template();
    assert(imm.content() =~= seq![0x20u8, 0x00, 0x00, 0x00]) by {
        reveal_with_fuel(le_bytes, 5);
    }
    let i7 = Instruction {
        prefixes: &[],
        encoding: Encoding {
            pref: &[],
            op: &[0x81],
            opi: OperandInfo::new(rax, &[Operand::Imm(imm)]),
            reg: None,
            rm: rax.rm(),
            ext: Some(0),
            tail: Some(imm),
        },
    };
    assert(i7.encoding.rex_value() == 0x48);
    assert(i7.encoding.modrm_bytes() =~= seq![0xC0u8]);
    let t7 = i7.encode();
    assert(t7.content() =~= seq![0x48u8, 0x81, 0xC0, 0x20, 0x00, 0x00, 0x00]);
    let acc = t7.merge(&t7);
    assert(acc.content() =~= step_bytes().subrange(14, 28));

    // add Rd(register), imm(number)
    let i9 = Instruction {
        prefixes: &[],
        encoding: Encoding {
            pref: &[],
            op: &[0x81],
            opi: OperandInfo::new(rd, &[Operand::Imm(number)]),
            reg: None,
            rm: rd.rm(),
            ext: Some(0),
            tail: Some(number),
        },
    };
    assert(i9.encoding.rex_value() == 0);
    assert(i9.encoding.modrm_bytes() =~= seq![0xC5u8]);
    let t9 = i9.encode();
    assert(t9.content() =~= seq![0x81u8, 0xC5, 0x00, 0x00, 0x00, 0x00]);
    assert(t9.holes() =~= seq![Placeholder { location: 2, size: 4 }]);
    let acc = acc.merge(&t9);
    assert(acc.content() =~= step_bytes().subrange(14, 34));

    // js rel(-8i32)
    let rel = ImmTemplate(-8i32).template();
    assert(rel.content() =~= seq![0xF8u8, 0xFF, 0xFF, 0xFF]) by {
        assert((-8i32) as u32 == 0xFFFF_FFF8u32) by (bit_vector);
        reveal_with_fuel(le_bytes, 5);
    }
    let i10 = Instruction {
        prefixes: &[],
        encoding: Encoding {
            pref: &[],
            op: &[0x0F, 0x88],
            opi: OperandInfo::new(Operand::Rel(rel), &[]),
            reg: None,
            rm: crate::x64::EncodingRm::Absent,
            ext: None,
            tail: Some(rel),
        },
    };
    let t10 = i10.encode();
    assert(t10.content() =~= seq![0x0Fu8, 0x88, 0xF8, 0xFF, 0xFF, 0xFF]);

    // jo rel(placeholder)
    let i11 = Instruction {
        prefixes: &[],
        encoding: Encoding {
            pref: &[],
            op: &[0x70],
            opi: OperandInfo::new(Operand::Rel(placeholder), &[]),
            reg: None,
            rm: crate::x64::EncodingRm::Absent,
            ext: None,
            tail: Some(placeholder),
        },
    };
    let t11 = i11.encode();
    assert(t11.content() =~= seq![0x70u8, 0x00]);
    assert(t11.holes() =~= seq![Placeholder { location: 1, size: 1 }]);
    let acc = acc.merge(&t10).merge(&t11);
    assert(acc.content() =~= step_bytes().subrange(14, 42));
    assert(acc.holes() =~= seq![Placeholder { location: 16, size: 4 }, Placeholder { location: 27, size: 1 }]);
    acc
}

/// Two `movbe` loads and a `crc32`.
fn step_tail(register: u8) -> (t: Template)
    requires
        register == 5,
    ensures
        t.content() == step_bytes().subrange(42, 64),
        t.holes() == Seq::<Placeholder>::empty(),
        t.tidy(),
{
    proof {
        lemma_field_bits();
    }
    let eax = Operand::Reg(Reg(RegType::D, 0));
    let bx = Operand::Reg(Reg(RegType::W, 3));
    let imm = ImmTemplate(32i32).template();
    assert(imm.content() =~= seq![0x20u8, 0x00, 0x00, 0x00]) by {
        reveal_with_fuel(le_bytes, 5);
    }

    // movbe eax, dword [Rq(register) + rax * 8 + 32i8]
    let disp8 = ImmTemplate(32i8).template();
    assert(disp8.content() =~= seq![0x20u8]) by {
        reveal_with_fuel(le_bytes, 2);
    }
    let sib = Mem::scale_index_base(8, Reg(RegType::Q, 0), Reg(RegType::Q, register), disp8);
    let src = Operand::Mem(MemSize::Dword, sib);
    assert(crate::x64::ast::trailing_zeros(8) == 3) by {
        reveal_with_fuel(crate::x64::ast::trailing_zeros, 4);
    }
    proof {
        assert(seq![src][0] == src);
    }
    assert([src]@ =~= seq![src]);
    let i12 = Instruction {
        prefixes: &[],
        encoding: Encoding {
            pref: &[],
            op: &[0x0F, 0x38, 0xF0],
            opi: OperandInfo::new(eax, &[src]),
            reg: Some(eax.reg()),
            rm: src.rm(),
            ext: None,
            tail: None,
        },
    };
    assert(i12.encoding.rex_value() == 0);
    assert(i12.encoding.modrm_bytes() =~= seq![0x44u8, 0xC5]);
    let t12 = i12.encode();
    assert(t12.content() =~= seq![0x0Fu8, 0x38, 0xF0, 0x44, 0xC5, 0x20]);

    // movbe eax, dword [ecx * 8 + 32i32]
    let si = Mem::scale_index(8, Reg(RegType::D, 1), imm);
    let src = Operand::Mem(MemSize::Dword, si);
    proof {
        assert(seq![src][0] == src);
    }
    assert([src]@ =~= seq![src]);
    let i13 = Instruction {
        prefixes: &[],
        encoding: Encoding {
            pref: &[],
            op: &[0x0F, 0x38, 0xF0],
            opi: OperandInfo::new(eax, &[src]),
            reg: Some(eax.reg()),
            rm: src.rm(),
            ext: None,
            tail: None,
        },
    };
    assert(i13.encoding.rex_value() == 0);
    assert(i13.encoding.modrm_bytes() =~= seq![0x04u8, 0xCD]);
    let t13 = i13.encode();
    assert(t13.content() =~= seq![0x67u8, 0x0F, 0x38, 0xF0, 0x04, 0xCD, 0x20, 0x00, 0x00, 0x00]);

    // crc32 eax, bx
    proof {
        assert(seq![eax][0] == eax);
    }
    assert([eax]@ =~= seq![eax]);
    let i14 = Instruction {
        prefixes: &[],
        encoding: Encoding {
            pref: &[0xF2],
            op: &[0x0F, 0x38, 0xF1],
            opi: OperandInfo::new(bx, &[eax]),
            reg: Some(eax.reg()),
            rm: bx.rm(),
            ext: None,
            tail: None,
        },
    };
    assert(i14.encoding.rex_value() == 0);
    assert(i14.encoding.modrm_bytes() =~= seq![0xC3u8]);
    let t14 = i14.encode();
    assert(t14.content() =~= seq![0x66u8, 0xF2, 0x0F, 0x38, 0xF1, 0xC3]);

    let acc = t12.merge(&t13).merge(&t14);
    assert(acc.content() =~= step_bytes().subrange(42, 64));
    assert(acc.holes() =~= Seq::<Placeholder>::empty());
    acc
}

} // verus!
