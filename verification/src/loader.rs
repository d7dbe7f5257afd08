//! The planning part of loading the interpreter runtime: which section of the runtime image
//! goes into each slot of the dispatch table, where the supporting sections go, which
//! relocations to apply and with what values, and where the entry point lies.
use vstd::prelude::*;

verus! {

// ---------------------------------------------------------------------------------------------
// Section names of step handlers: `.rt.<opcode>.<dst>.<src>`.
// ---------------------------------------------------------------------------------------------
/// The value of one digit in the radix, if it is one.
pub open spec fn digit_value(c: u8, radix: nat) -> Option<nat> {
    if 48 <= c <= 57 && ((c - 48) as nat) < radix {
        Some((c - 48) as nat)
    } else if radix == 16 && 97 <= c <= 102 {
        Some((c - 87) as nat)
    } else if radix == 16 && 65 <= c <= 70 {
        Some((c - 55) as nat)
    } else {
        None
    }
}

/// The value of a string of digits (zero for no digits), if all are digits of the radix.
pub open spec fn digits_value(s: Seq<u8>, radix: nat) -> Option<nat>
    decreases s.len(),
{
    if s.len() == 0 {
        Some(0)
    } else {
        match (digits_value(s.drop_last(), radix), digit_value(s.last(), radix)) {
            (Some(v), Some(d)) => Some(v * radix + d),
            _ => None,
        }
    }
}

/// An unsigned number as Rust's integer parsing reads it: an optional `+`, then at least one
/// digit of the radix.
pub open spec fn unsigned_value(s: Seq<u8>, radix: nat) -> Option<nat> {
    let t = if s.len() > 0 && s[0] == 43 {
        s.drop_first()
    } else {
        s
    };
    if t.len() == 0 {
        None
    } else {
        digits_value(t, radix)
    }
}

/// A number in the form `0x..` / `0X..` (hexadecimal) or decimal.
pub open spec fn number_value(s: Seq<u8>) -> Option<nat> {
    if s.len() >= 2 && s[0] == 48 && (s[1] == 120 || s[1] == 88) {
        unsigned_value(s.skip(2), 16)
    } else {
        unsigned_value(s, 10)
    }
}

/// The parts of `s` between the separator bytes.
pub open spec fn split_on(s: Seq<u8>, sep: u8) -> Seq<Seq<u8>>
    decreases s.len(),
{
    if s.len() == 0 {
        seq![Seq::empty()]
    } else {
        let rest = split_on(s.drop_last(), sep);
        if s.last() == sep {
            rest.push(Seq::empty())
        } else {
            rest.update(rest.len() - 1, rest.last().push(s.last()))
        }
    }
}

pub open spec fn spec_parse_u8(s: Seq<u8>) -> Option<u8> {
    match number_value(s) {
        Some(v) => if v <= 255 {
            Some(v as u8)
        } else {
            None
        },
        None => None,
    }
}

/// The (opcode, dst, src) of a section named `.rt.<opcode>.<dst>.<src>`, each a number that
/// fits in a byte.
pub open spec fn spec_parse_step_name(name: Seq<u8>) -> Option<(u8, u8, u8)> {
    let parts = split_on(name, 46);
    if parts.len() == 5 && parts[0].len() == 0 && parts[1] == seq![114u8, 116u8] {
        match (spec_parse_u8(parts[2]), spec_parse_u8(parts[3]), spec_parse_u8(parts[4])) {
            (Some(op), Some(dst), Some(src)) => Some((op, dst, src)),
            _ => None,
        }
    } else {
        None
    }
}

proof fn lemma_split_nonempty(s: Seq<u8>, sep: u8)
    ensures
        split_on(s, sep).len() >= 1,
    decreases s.len(),
{
    if s.len() > 0 {
        lemma_split_nonempty(s.drop_last(), sep);
    }
}

/// Digits further on never make the value smaller.
proof fn lemma_digits_monotone(s: Seq<u8>, radix: nat, i: int)
    requires
        radix >= 1,
        0 <= i <= s.len(),
        digits_value(s, radix) is Some,
    ensures
        digits_value(s.take(i), radix) is Some,
        digits_value(s.take(i), radix).unwrap() <= digits_value(s, radix).unwrap(),
    decreases s.len() - i,
{
    if i < s.len() {
        assert(s.drop_last().take(i) =~= s.take(i));
        lemma_digits_monotone(s.drop_last(), radix, i);
        let v = digits_value(s.drop_last(), radix).unwrap();
        let d = digit_value(s.last(), radix).unwrap();
        assert(v * radix + d >= v) by (nonlinear_arith)
            requires
                radix >= 1,
                v >= 0,
                d >= 0,
        ;
    } else {
        assert(s.take(i) =~= s);
    }
}

/// Value of a string of digits of the radix, if they are all digits of the radix and the value
/// fits.
fn parse_digits(s: &[u8], start: usize, radix: usize) -> (r: Option<usize>)
    requires
        start <= s@.len(),
        radix == 10 || radix == 16,
    ensures
        r == (match digits_value(s@.skip(start as int), radix as nat) {
            Some(v) => if v <= usize::MAX {
                Some(v as usize)
            } else {
                None
            },
            None => None,
        }),
{
    let ghost t = s@.skip(start as int);
    let mut v: usize = 0;
    let mut i: usize = start;
    assert(t.take(0) =~= Seq::<u8>::empty());
    while i < s.len()
        invariant
            start <= i <= s@.len(),
            t == s@.skip(start as int),
            radix == 10 || radix == 16,
            digits_value(t.take(i - start), radix as nat) == Some(v as nat),
        decreases s@.len() - i,
    {
        let c = s[i];
        let d: usize = if 48 <= c && c <= 57 && ((c - 48) as usize) < radix {
            (c - 48) as usize
        } else if radix == 16 && 97 <= c && c <= 102 {
            (c - 87) as usize
        } else if radix == 16 && 65 <= c && c <= 70 {
            (c - 55) as usize
        } else {
            proof {
                assert(t.take(i - start + 1).drop_last() =~= t.take(i - start));
                assert(digits_value(t.take(i - start + 1), radix as nat) is None);
                lemma_none_extends(t, radix as nat, i - start + 1);
                assert(t.take(t.len() as int) =~= t);
            }
            return None;
        };
        assert(t.take(i - start + 1).drop_last() =~= t.take(i - start));
        assert(t[i - start] == c);
        let next = match v.checked_mul(radix) {
            Some(m) => m.checked_add(d),
            None => None,
        };
        match next {
            Some(n) => {
                v = n;
            },
            None => {
                proof {
                    assert(t.take(t.len() as int) =~= t);
                    if digits_value(t, radix as nat) is Some {
                        lemma_digits_monotone(t, radix as nat, i - start + 1);
                        assert(v * radix + d > usize::MAX) by (nonlinear_arith)
                            requires
                                v * radix > usize::MAX || v * radix + d > usize::MAX,
                        ;
                    }
                }
                return None;
            },
        }
        i += 1;
    }
    assert(t.take(i - start) =~= t);
    Some(v)
}

/// Once a prefix has a non-digit, the whole string has.
proof fn lemma_none_extends(t: Seq<u8>, radix: nat, i: int)
    requires
        0 <= i <= t.len(),
        digits_value(t.take(i), radix) is None,
    ensures
        digits_value(t, radix) is None,
    decreases t.len() - i,
{
    if i < t.len() {
        let j = i + 1;
        assert(t.take(j).drop_last() =~= t.take(i));
        lemma_none_extends(t, radix, j);
    } else {
        assert(t.take(i) =~= t);
    }
}

/// Reads an unsigned number in the radix from `s[start..]`, as Rust's integer parsing does:
/// an optional `+` sign, then at least one digit.
fn parse_unsigned(s: &[u8], start: usize, radix: usize) -> (r: Option<usize>)
    requires
        start <= s@.len(),
        radix == 10 || radix == 16,
    ensures
        r == (match unsigned_value(s@.skip(start as int), radix as nat) {
            Some(v) => if v <= usize::MAX {
                Some(v as usize)
            } else {
                None
            },
            None => None,
        }),
{
    let ghost t = s@.skip(start as int);
    let mut first = start;
    if start < s.len() && s[start] == 43 {
        first = start + 1;
        assert(t.drop_first() =~= s@.skip(first as int));
    }
    if first == s.len() {
        return None;
    }
    parse_digits(s, first, radix)
}

/// A number in the form `0x..` / `0X..` (hexadecimal) or decimal, if it fits in `usize`.
pub fn parse_num(s: &[u8]) -> (r: Option<usize>)
    ensures
        r == (match number_value(s@) {
            Some(v) => if v <= usize::MAX {
                Some(v as usize)
            } else {
                None
            },
            None => None,
        }),
{
    if s.len() >= 2 && s[0] == 48 && (s[1] == 120 || s[1] == 88) {
        parse_unsigned(s, 2, 16)
    } else {
        assert(s@.skip(0) =~= s@);
        parse_unsigned(s, 0, 10)
    }
}

/// A number (see [`parse_num`]) that fits in a byte.
pub fn parse_u8(s: &[u8]) -> (r: Option<u8>)
    ensures
        r == spec_parse_u8(s@),
{
    match parse_num(s) {
        Some(v) => if v <= 255 {
            Some(v as u8)
        } else {
            None
        },
        None => None,
    }
}

/// The (opcode, dst, src) of a step handler section name `.rt.<opcode>.<dst>.<src>`.
pub fn parse_step_name(sec_name: &[u8]) -> (r: Option<(u8, u8, u8)>)
    ensures
        r == spec_parse_step_name(sec_name@),
{
    let mut done: Vec<Vec<u8>> = Vec::new();
    let mut current: Vec<u8> = Vec::new();
    let mut i: usize = 0;
    assert(sec_name@.take(0) =~= Seq::<u8>::empty());
    while i < sec_name.len()
        invariant
            i <= sec_name@.len(),
            split_on(sec_name@.take(i as int), 46) == done@.map_values(|v: Vec<u8>| v@).push(
                current@,
            ),
        decreases sec_name@.len() - i,
    {
        let c = sec_name[i];
        assert(sec_name@.take(i + 1).drop_last() =~= sec_name@.take(i as int));
        let ghost before = done@.map_values(|v: Vec<u8>| v@);
        if c == 46 {
            let part = current;
            done.push(part);
            current = Vec::new();
            assert(done@.map_values(|v: Vec<u8>| v@) =~= before.push(part@));
            assert(split_on(sec_name@.take(i + 1), 46) =~= done@.map_values(|v: Vec<u8>| v@).push(
                current@,
            ));
        } else {
            current.push(c);
            assert(split_on(sec_name@.take(i + 1), 46) =~= done@.map_values(|v: Vec<u8>| v@).push(
                current@,
            ));
        }
        i += 1;
    }
    assert(sec_name@.take(i as int) =~= sec_name@);
    let ghost parts = split_on(sec_name@, 46);
    if done.len() != 4 {
        return None;
    }
    assert(parts[0] == done@[0]@);
    assert(parts[1] == done@[1]@);
    assert(parts[2] == done@[2]@);
    assert(parts[3] == done@[3]@);
    assert(parts[4] == current@);
    if done[0].len() != 0 {
        return None;
    }
    if !(done[1].len() == 2 && done[1][0] == 114 && done[1][1] == 116) {
        proof {
            if parts[1] == seq![114u8, 116u8] {
                assert(done@[1]@[0] == 114u8);
            }
        }
        return None;
    }
    assert(parts[1] =~= seq![114u8, 116u8]);
    let opcode = match parse_u8(done[2].as_slice()) {
        Some(v) => v,
        None => return None,
    };
    let dst_reg = match parse_u8(done[3].as_slice()) {
        Some(v) => v,
        None => return None,
    };
    let src_reg = match parse_u8(current.as_slice()) {
        Some(v) => v,
        None => return None,
    };
    Some((opcode, dst_reg, src_reg))
}

// ---------------------------------------------------------------------------------------------
// The runtime image, as plain values.
// ---------------------------------------------------------------------------------------------
/// Slots of the dispatch table: one per 16-bit (opcode, dst, src) value below `u16::MAX`.
pub const TOTAL_SLOTS: usize = 65535;
/// Bytes of each slot.
pub const STEP_STRIDE: usize = 64;
/// Bytes of the dispatch table.
pub const DISPATCH_TABLE_SIZE: usize = 4194240;
/// Bytes after the dispatch table for the sections that the step handlers use.
pub const SUPPORT_CODE_SPACE: usize = 4194304;
/// Bytes of the whole mapping.
pub const MMAP_SIZE: usize = 8388544;

/// ELF relocation types that the loader applies.
pub const R_X86_64_64: u32 = 1;
pub const R_X86_64_PC32: u32 = 2;
pub const R_X86_64_PLT32: u32 = 4;
pub const R_X86_64_32S: u32 = 11;

/// A relocation of a section.
#[derive(Debug)]
pub struct RtReloc {
    /// Offset of the relocated field in the section.
    pub offset: u64,
    /// The symbol it refers to, when it refers to a symbol.
    pub symbol: Option<usize>,
    /// The ELF relocation type, when the relocation is an ELF one.
    pub r_type: Option<u32>,
    pub addend: i64,
}

/// A section of the runtime image.
#[derive(Debug)]
pub struct RtSection {
    /// The name, when it could be read.
    pub name: Option<Vec<u8>>,
    /// The length of the section's data, or why it could not be read.
    pub data_len: Result<usize, String>,
    pub align: u64,
    pub relocations: Vec<RtReloc>,
}

/// A symbol of the runtime image.
#[derive(Debug)]
pub struct RtSymbol {
    /// The name, when it could be read.
    pub name: Option<Vec<u8>>,
    /// The section it is defined in, if any.
    pub section: Option<usize>,
    pub address: u64,
}

/// The runtime image: sections and symbols by their index (`None` where the index is not a
/// valid section or symbol).
#[derive(Debug)]
pub struct RtImage {
    pub sections: Vec<Option<RtSection>>,
    pub symbols: Vec<Option<RtSymbol>>,
}

/// Why loading the runtime failed.
#[derive(Debug, PartialEq, Eq)]
pub enum LoadError {
    /// The image does not parse as an object file, for this reason.
    ElfParse(String),
    /// There is no `.rt.enter` section.
    NoEnterSection,
    /// A section index refers to no section.
    InvalidSectionIndex,
    /// The data of a section could not be read.
    SectionData(String),
    /// A step handler section is longer than a slot.
    SectionTooLarge(usize),
    /// The supporting sections do not fit after the dispatch table.
    SupportHeapOverflow,
    /// A relocation refers to no symbol.
    SymbolResolution,
    /// A relocation refers to a symbol (by its index) in a section that was not loaded.
    UnmappedSection(usize),
    /// A relocation of a type that the loader does not apply.
    UnhandledRelocation(Option<u32>),
    /// There is no `bpfi_rt_enter` symbol.
    NoEnterSymbol,
    /// The section of `bpfi_rt_enter` was not loaded.
    EnterSectionNotLoaded,
}

pub open spec fn dot_rt_sigill() -> Seq<u8> {
    seq![46u8, 114u8, 116u8, 46u8, 115u8, 105u8, 103u8, 105u8, 108u8, 108u8]
}

pub open spec fn dot_rt_enter() -> Seq<u8> {
    seq![46u8, 114u8, 116u8, 46u8, 101u8, 110u8, 116u8, 101u8, 114u8]
}

pub open spec fn section_name(secs: Seq<Option<RtSection>>, i: int) -> Option<Seq<u8>> {
    match secs[i] {
        Some(sec) => match sec.name {
            Some(n) => Some(n@),
            None => None,
        },
        None => None,
    }
}

/// The last of the first `n` sections with this name.
pub open spec fn last_named(secs: Seq<Option<RtSection>>, n: int, name: Seq<u8>) -> Option<usize>
    decreases n,
{
    if n <= 0 {
        None
    } else if section_name(secs, n - 1) == Some(name) {
        Some((n - 1) as usize)
    } else {
        last_named(secs, n - 1, name)
    }
}

/// The (opcode, dst, src) that the name of a section gives it as a step handler.
#[verifier::opaque]
pub open spec fn step_key_of(secs: Seq<Option<RtSection>>, i: int) -> Option<(u8, u8, u8)> {
    match section_name(secs, i) {
        Some(name) => if name != dot_rt_sigill() && name != dot_rt_enter() {
            spec_parse_step_name(name)
        } else {
            None
        },
        None => None,
    }
}

/// The last of the first `n` sections named as the step handler of (opcode, dst, src).
pub open spec fn last_step(secs: Seq<Option<RtSection>>, n: int, key: (u8, u8, u8)) -> Option<
    usize,
>
    decreases n,
{
    if n <= 0 {
        None
    } else if step_key_of(secs, n - 1) == Some(key) {
        Some((n - 1) as usize)
    } else {
        last_step(secs, n - 1, key)
    }
}

/// The (opcode, dst, src) of a dispatch slot: the opcode in the low byte, dst in bits 8 to 11
/// and src in bits 12 to 15.
pub open spec fn slot_key(slot: int) -> (u8, u8, u8) {
    ((slot % 256) as u8, ((slot / 256) % 16) as u8, (slot / 4096) as u8)
}

pub open spec fn opcode_enabled(supported: Seq<u8>, op: u8) -> bool {
    exists|k: int| 0 <= k < supported.len() && supported[k] == op
}

/// The section loaded into a slot: for a supported opcode its step handler, else (or without
/// one) the illegal-instruction handler.
pub open spec fn slot_target(image: RtImage, supported: Seq<u8>, slot: int) -> Option<usize> {
    let secs = image.sections@;
    let sigill = last_named(secs, secs.len() as int, dot_rt_sigill());
    if opcode_enabled(supported, slot_key(slot).0) {
        match last_step(secs, secs.len() as int, slot_key(slot)) {
            Some(i) => Some(i),
            None => sigill,
        }
    } else {
        sigill
    }
}

fn name_is(name: &Vec<u8>, expected: &[u8]) -> (r: bool)
    ensures
        r == (name@ == expected@),
{
    if name.len() != expected.len() {
        return false;
    }
    let mut i: usize = 0;
    while i < name.len()
        invariant
            i <= name@.len() == expected@.len(),
            forall|k: int| 0 <= k < i ==> name@[k] == expected@[k],
        decreases name@.len() - i,
    {
        if name[i] != expected[i] {
            return false;
        }
        i += 1;
    }
    assert(name@ =~= expected@);
    true
}

/// The sections that the loader looks up by name.
struct SectionTable {
    sigill: Option<usize>,
    enter: Option<usize>,
    /// Step handler section of each slot value `opcode + 256 * dst + 4096 * src`.
    steps: Vec<Option<usize>>,
}

pub open spec fn slot_of_key(key: (u8, u8, u8)) -> int {
    key.0 + 256 * key.1 + 4096 * key.2
}

#[verifier::spinoff_prover]
#[verifier::rlimit(40)]
fn record_step(
    steps: &mut Vec<Option<usize>>,
    secs: &Vec<Option<RtSection>>,
    i: usize,
    key: Option<(u8, u8, u8)>,
)
    requires
        old(steps)@.len() == 65536,
        i < secs@.len(),
        key == step_key_of(secs@, i as int),
        forall|s: int|
            0 <= s < 65536 ==> #[trigger] old(steps)@[s] == last_step(secs@, i as int, slot_key(s)),
    ensures
        final(steps)@.len() == 65536,
        forall|s: int|
            0 <= s < 65536 ==> #[trigger] final(steps)@[s] == last_step(secs@, i + 1, slot_key(s)),
{
    if let Some((op, dst, src)) = key {
        if dst < 16 && src < 16 {
            let slot = op as usize + 256 * dst as usize + 4096 * src as usize;
            let ghost k = (op, dst, src);
            assert(slot_key(slot as int) == k);
            steps.set(slot, Some(i));
            assert forall|s: int| 0 <= s < 65536 implies #[trigger] steps@[s] == last_step(
                secs@,
                i + 1,
                slot_key(s),
            ) by {
                if s != slot {
                    assert(slot_key(s) != k) by {
                        if slot_key(s) == k {
                            assert(s == slot_of_key(slot_key(s)));
                        }
                    }
                }
            }
        } else {
            assert forall|s: int| 0 <= s < 65536 implies #[trigger] steps@[s] == last_step(
                secs@,
                i + 1,
                slot_key(s),
            ) by {
                assert(slot_key(s).1 < 16 && slot_key(s).2 < 16);
            }
        }
    }
}

fn classify_sections(image: &RtImage) -> (t: SectionTable)
    ensures
        t.sigill == last_named(image.sections@, image.sections@.len() as int, dot_rt_sigill()),
        t.enter == last_named(image.sections@, image.sections@.len() as int, dot_rt_enter()),
        t.steps@.len() == 65536,
        forall|s: int|
            0 <= s < 65536 ==> #[trigger] t.steps@[s] == last_step(
                image.sections@,
                image.sections@.len() as int,
                slot_key(s),
            ),
{
    let sigill_name: [u8; 10] = [46, 114, 116, 46, 115, 105, 103, 105, 108, 108];
    let enter_name: [u8; 9] = [46, 114, 116, 46, 101, 110, 116, 101, 114];
    assert(sigill_name@ =~= dot_rt_sigill());
    assert(enter_name@ =~= dot_rt_enter());
    let secs = &image.sections;
    let mut steps: Vec<Option<usize>> = Vec::new();
    while steps.len() < 65536
        invariant
            steps@.len() <= 65536,
            forall|s: int| 0 <= s < steps@.len() ==> #[trigger] steps@[s] == None::<usize>,
        decreases 65536 - steps@.len(),
    {
        steps.push(None);
    }
    let mut sigill: Option<usize> = None;
    let mut enter: Option<usize> = None;
    let mut i: usize = 0;
    while i < secs.len()
        invariant
            i <= secs@.len(),
            secs == &image.sections,
            sigill_name@ == dot_rt_sigill(),
            enter_name@ == dot_rt_enter(),
            sigill == last_named(secs@, i as int, dot_rt_sigill()),
            enter == last_named(secs@, i as int, dot_rt_enter()),
            steps@.len() == 65536,
            forall|s: int|
                0 <= s < 65536 ==> #[trigger] steps@[s] == last_step(secs@, i as int, slot_key(s)),
        decreases secs@.len() - i,
    {
        let mut key: Option<(u8, u8, u8)> = None;
        if let Some(sec) = &secs[i] {
            if let Some(name) = &sec.name {
                if name_is(name, sigill_name.as_slice()) {
                    sigill = Some(i);
                } else if name_is(name, enter_name.as_slice()) {
                    enter = Some(i);
                } else {
                    key = parse_step_name(name.as_slice());
                }
            }
        }
        assert(key == step_key_of(secs@, i as int)) by {
            reveal(step_key_of);
        }
        record_step(&mut steps, secs, i, key);
        i += 1;
    }
    SectionTable { sigill, enter, steps }
}

// ---------------------------------------------------------------------------------------------
// The load plan.
// ---------------------------------------------------------------------------------------------
/// The data of `section` goes into dispatch slot `slot` (at `slot * 64`).
#[derive(Clone, Copy, Debug, PartialEq, Eq)]
pub struct SlotLoad {
    pub slot: usize,
    pub section: usize,
    pub len: usize,
}

/// The data of `section` goes at `offset` after the start of the mapping.
#[derive(Clone, Copy, Debug, PartialEq, Eq)]
pub struct SupportLoad {
    pub section: usize,
    pub offset: usize,
    pub len: usize,
}

/// A relocation to apply at the address `patch_vaddr`.
#[derive(Clone, Copy, Debug, PartialEq, Eq)]
pub struct RelocSite {
    pub patch_vaddr: u64,
    pub symbol: usize,
    pub r_type: Option<u32>,
    pub addend: i64,
}

/// Where everything goes.
#[derive(Debug)]
pub struct LoadPlan {
    pub slots: Vec<SlotLoad>,
    pub support: Vec<SupportLoad>,
    pub sites: Vec<RelocSite>,
    /// Bytes of the mapping in use (up to the end of the last supporting section).
    pub total_size: usize,
}

pub open spec fn wadd(a: u64, b: u64) -> u64 {
    ((a + b) % 0x1_0000_0000_0000_0000) as u64
}

pub open spec fn relocs_of(image: RtImage, sec: int) -> Seq<RtReloc> {
    if 0 <= sec < image.sections@.len() {
        match image.sections@[sec] {
            Some(s) => s.relocations@,
            None => Seq::empty(),
        }
    } else {
        Seq::empty()
    }
}

pub open spec fn data_len_of(image: RtImage, sec: int) -> Option<usize> {
    if 0 <= sec < image.sections@.len() {
        match image.sections@[sec] {
            Some(s) => match s.data_len {
                Ok(n) => Some(n),
                Err(_) => None,
            },
            None => None,
        }
    } else {
        None
    }
}

pub open spec fn align_of(image: RtImage, sec: int) -> u64 {
    match image.sections@[sec] {
        Some(s) => s.align,
        None => 0,
    }
}

/// The relocation sites of relocations that refer to a symbol, for a section placed at
/// `vaddr`.
pub open spec fn section_sites(relocs: Seq<RtReloc>, vaddr: u64) -> Seq<RelocSite>
    decreases relocs.len(),
{
    if relocs.len() == 0 {
        Seq::empty()
    } else {
        let rest = section_sites(relocs.drop_last(), vaddr);
        let r = relocs.last();
        match r.symbol {
            Some(sym) => rest.push(
                RelocSite {
                    patch_vaddr: wadd(vaddr, r.offset),
                    symbol: sym,
                    r_type: r.r_type,
                    addend: r.addend,
                },
            ),
            None => rest,
        }
    }
}

pub open spec fn slot_sites(image: RtImage, base: u64, slots: Seq<SlotLoad>) -> Seq<RelocSite>
    decreases slots.len(),
{
    if slots.len() == 0 {
        Seq::empty()
    } else {
        slot_sites(image, base, slots.drop_last()) + section_sites(
            relocs_of(image, slots.last().section as int),
            wadd(base, (slots.last().slot * 64) as u64),
        )
    }
}

pub open spec fn support_sites(image: RtImage, base: u64, support: Seq<SupportLoad>) -> Seq<
    RelocSite,
>
    decreases support.len(),
{
    if support.len() == 0 {
        Seq::empty()
    } else {
        support_sites(image, base, support.drop_last()) + section_sites(
            relocs_of(image, support.last().section as int),
            wadd(base, support.last().offset as u64),
        )
    }
}

/// A relocation of section `sec` refers to a symbol defined in section `q`.
#[verifier::opaque]
pub open spec fn references(image: RtImage, sec: int, q: usize) -> bool {
    exists|k: int|
        0 <= k < relocs_of(image, sec).len() && #[trigger] reloc_refers(
            image,
            relocs_of(image, sec)[k],
            q,
        )
}

pub open spec fn reloc_refers(image: RtImage, r: RtReloc, q: usize) -> bool {
    match r.symbol {
        Some(sym) => sym < image.symbols@.len() && match image.symbols@[sym as int] {
            Some(s) => s.section == Some(q),
            None => false,
        },
        None => false,
    }
}

/// The slots loaded among the first `n`, in order, with their sections.
pub open spec fn expected_slots(image: RtImage, supported: Seq<u8>, n: int) -> Seq<SlotLoad>
    decreases n,
{
    if n <= 0 {
        Seq::empty()
    } else {
        let rest = expected_slots(image, supported, n - 1);
        match slot_target(image, supported, n - 1) {
            Some(sec) => rest.push(
                SlotLoad {
                    slot: (n - 1) as usize,
                    section: sec,
                    len: data_len_of(image, sec as int).unwrap(),
                },
            ),
            None => rest,
        }
    }
}

/// The offset of a supporting section placed after `end` with alignment `align` (at least 8):
/// `end` rounded up with the mask of the alignment.
pub open spec fn aligned_offset(end: int, align: u64) -> int {
    let a = if align < 8 {
        8u64
    } else {
        align
    };
    (((end + a - 1) as u64) & !((a - 1) as u64)) as int
}

/// Where the supporting section number `k` of the plan ends.
pub open spec fn support_end(support: Seq<SupportLoad>, k: int) -> int {
    if k <= 0 {
        DISPATCH_TABLE_SIZE as int
    } else {
        support[k - 1].offset + support[k - 1].len
    }
}

/// The layout of the supporting sections: each placed after the previous one, aligned, within
/// the mapping, with the length of its data.
#[verifier::opaque]
pub open spec fn support_layout(image: RtImage, support: Seq<SupportLoad>) -> bool {
    forall|k: int|
        0 <= k < support.len() ==> {
            &&& #[trigger] support[k].offset == aligned_offset(
                support_end(support, k),
                align_of(image, support[k].section as int),
            )
            &&& support[k].offset + support[k].len <= MMAP_SIZE
            &&& data_len_of(image, support[k].section as int) == Some(support[k].len)
            &&& support_end(support, k) + effective_align(
                align_of(image, support[k].section as int),
            ) - 1 <= u64::MAX
        }
}

pub open spec fn is_loaded(support: Seq<SupportLoad>, q: usize) -> bool {
    exists|k: int| 0 <= k < support.len() && #[trigger] support[k].section == q
}

/// No section is loaded twice.
#[verifier::opaque]
pub open spec fn distinct_sections(support: Seq<SupportLoad>) -> bool {
    forall|i: int, j: int|
        0 <= i < j < support.len() ==> #[trigger] support[i].section != #[trigger] support[j].section
}

pub open spec fn count_true(s: Seq<bool>) -> nat
    decreases s.len(),
{
    if s.len() == 0 {
        0
    } else {
        count_true(s.drop_last()) + if s.last() {
            1nat
        } else {
            0nat
        }
    }
}

proof fn lemma_count_true_bound(s: Seq<bool>)
    ensures
        count_true(s) <= s.len(),
    decreases s.len(),
{
    if s.len() > 0 {
        lemma_count_true_bound(s.drop_last());
    }
}

proof fn lemma_count_true_set(s: Seq<bool>, i: int)
    requires
        0 <= i < s.len(),
        !s[i],
    ensures
        count_true(s.update(i, true)) == count_true(s) + 1,
    decreases s.len(),
{
    if i < s.len() - 1 {
        assert(s.update(i, true).drop_last() =~= s.drop_last().update(i, true));
        lemma_count_true_set(s.drop_last(), i);
    } else {
        assert(s.update(i, true).drop_last() =~= s.drop_last());
    }
}

fn enabled_opcodes(supported: &[u8]) -> (en: Vec<bool>)
    ensures
        en@.len() == 256,
        forall|op: int| 0 <= op < 256 ==> #[trigger] en@[op] == opcode_enabled(supported@, op as u8),
{
    let mut en: Vec<bool> = Vec::new();
    while en.len() < 256
        invariant
            en@.len() <= 256,
            forall|op: int| 0 <= op < en@.len() ==> #[trigger] en@[op] == false,
        decreases 256 - en@.len(),
    {
        en.push(false);
    }
    let mut i: usize = 0;
    while i < supported.len()
        invariant
            i <= supported@.len(),
            en@.len() == 256,
            forall|op: int|
                0 <= op < 256 ==> #[trigger] en@[op] == exists|k: int|
                    0 <= k < i && supported@[k] == op as u8,
        decreases supported@.len() - i,
    {
        let op = supported[i];
        en.set(op as usize, true);
        i += 1;
    }
    en
}

fn section_data_len(sec: &RtSection) -> (r: Result<usize, LoadError>)
    ensures
        match sec.data_len {
            Ok(n) => r == Ok::<usize, LoadError>(n),
            Err(e) => r == Err::<usize, LoadError>(LoadError::SectionData(e)),
        },
{
    match &sec.data_len {
        Ok(n) => Ok(*n),
        Err(e) => Err(LoadError::SectionData(e.clone())),
    }
}

/// The section of the symbol that a relocation refers to, where the symbol exists and is
/// defined in a section.
pub open spec fn ref_section(image: RtImage, r: RtReloc) -> Option<usize> {
    match r.symbol {
        Some(sym) => if sym < image.symbols@.len() {
            match image.symbols@[sym as int] {
                Some(s) => s.section,
                None => None,
            }
        } else {
            None
        },
        None => None,
    }
}

/// The sections that these relocations queue, in order: the section of each one's symbol,
/// except (when `skip_loaded`) those that `loaded` marks.
pub open spec fn queued_refs(
    image: RtImage,
    relocs: Seq<RtReloc>,
    loaded: Seq<bool>,
    skip_loaded: bool,
) -> Seq<usize>
    decreases relocs.len(),
{
    if relocs.len() == 0 {
        Seq::empty()
    } else {
        let rest = queued_refs(image, relocs.drop_last(), loaded, skip_loaded);
        match ref_section(image, relocs.last()) {
            Some(q) => if skip_loaded && q < loaded.len() && loaded[q as int] {
                rest
            } else {
                rest.push(q)
            },
            None => rest,
        }
    }
}

/// Appends the relocation sites of section `sec` placed at `vaddr`, and queues the sections
/// of the symbols they refer to (skipping loaded ones when `skip_loaded`).
fn push_section_sites(
    image: &RtImage,
    sec: usize,
    vaddr: u64,
    sites: &mut Vec<RelocSite>,
    queue: &mut Vec<usize>,
    loaded: &Vec<bool>,
    skip_loaded: bool,
)
    requires
        sec < image.sections@.len(),
        image.sections@[sec as int] is Some,
    ensures
        final(sites)@ == old(sites)@ + section_sites(relocs_of(*image, sec as int), vaddr),
        final(queue)@ == old(queue)@ + queued_refs(
            *image,
            relocs_of(*image, sec as int),
            loaded@,
            skip_loaded,
        ),
        final(queue)@.len() >= old(queue)@.len(),
        final(queue)@.take(old(queue)@.len() as int) == old(queue)@,
        forall|q: usize|
            #[trigger] references(*image, sec as int, q) ==> (exists|j: int|
                old(queue)@.len() <= j < final(queue)@.len() && final(queue)@[j] == q) || (
            skip_loaded && q < loaded@.len() && loaded@[q as int]),
{
    reveal(references);
    let ghost q0 = queue@;
    let ghost s0 = sites@;
    let relocs = match &image.sections[sec] {
        Some(s) => &s.relocations,
        None => {
            return ;
        },
    };
    assert(relocs@ == relocs_of(*image, sec as int));
    let mut i: usize = 0;
    assert(relocs@.take(0) =~= Seq::<RtReloc>::empty());
    while i < relocs.len()
        invariant
            i <= relocs@.len(),
            relocs@ == relocs_of(*image, sec as int),
            sites@ == s0 + section_sites(relocs@.take(i as int), vaddr),
            queue@ == q0 + queued_refs(*image, relocs@.take(i as int), loaded@, skip_loaded),
            queue@.len() >= q0.len(),
            queue@.take(q0.len() as int) == q0,
            forall|k: int, q: usize|
                0 <= k < i && #[trigger] reloc_refers(*image, relocs@[k], q) ==> (exists|j: int|
                    q0.len() <= j < queue@.len() && queue@[j] == q) || (skip_loaded && q
                    < loaded@.len() && loaded@[q as int]),
        decreases relocs@.len() - i,
    {
        let r = &relocs[i];
        assert(relocs@.take(i + 1).drop_last() =~= relocs@.take(i as int));
        let ghost qb = queue@;
        if let Some(sym) = r.symbol {
            sites.push(
                RelocSite {
                    patch_vaddr: vaddr.wrapping_add(r.offset),
                    symbol: sym,
                    r_type: r.r_type,
                    addend: r.addend,
                },
            );
            if sym < image.symbols.len() {
                if let Some(symbol) = &image.symbols[sym] {
                    if let Some(q) = symbol.section {
                        let skip = skip_loaded && q < loaded.len() && loaded[q];
                        if !skip {
                            queue.push(q);
                            assert(queue@[queue@.len() - 1] == q);
                        }
                    }
                }
            }
        }
        assert(queue@.take(q0.len() as int) =~= q0) by {
            assert(queue@.take(qb.len() as int) =~= qb);
        }
        assert forall|k: int, q: usize|
            0 <= k < i + 1 && #[trigger] reloc_refers(*image, relocs@[k], q) implies (exists|j: int|
                q0.len() <= j < queue@.len() && queue@[j] == q) || (skip_loaded && q
                < loaded@.len() && loaded@[q as int]) by {
            if k < i {
                if !(skip_loaded && q < loaded@.len() && loaded@[q as int]) {
                    let j = choose|j: int| q0.len() <= j < qb.len() && qb[j] == q;
                    assert(queue@[j] == qb[j]);
                }
            }
        }
        i += 1;
    }
    assert(relocs@.take(i as int) =~= relocs@);
    assert forall|q: usize| #[trigger] references(*image, sec as int, q) implies (exists|j: int|
        q0.len() <= j < queue@.len() && queue@[j] == q) || (skip_loaded && q < loaded@.len()
        && loaded@[q as int]) by {
        let k = choose|k: int|
            0 <= k < relocs_of(*image, sec as int).len() && #[trigger] reloc_refers(
                *image,
                relocs_of(*image, sec as int)[k],
                q,
            );
        assert(reloc_refers(*image, relocs@[k], q));
    }
}

/// Every section that a relocation of one of these sections refers to is in the queue from
/// `from` on.
pub open spec fn refs_queued(image: RtImage, secs: Seq<usize>, queue: Seq<usize>, from: int) -> bool {
    forall|k: int, q: usize|
        0 <= k < secs.len() && #[trigger] references(image, secs[k] as int, q) ==> exists|j: int|
            from <= j < queue.len() && queue[j] == q
}

pub open spec fn slot_sections(slots: Seq<SlotLoad>) -> Seq<usize> {
    slots.map_values(|l: SlotLoad| l.section)
}

/// The length of section `sec`'s data, or why it cannot be had: a section that does not exist
/// is an invalid index, one whose data cannot be read gives the reason.
pub open spec fn section_len(image: RtImage, sec: int) -> Result<usize, LoadError> {
    if 0 <= sec < image.sections@.len() {
        match image.sections@[sec] {
            Some(sd) => match sd.data_len {
                Ok(n) => Ok(n),
                Err(e) => Err(LoadError::SectionData(e)),
            },
            None => Err(LoadError::InvalidSectionIndex),
        }
    } else {
        Err(LoadError::InvalidSectionIndex)
    }
}

/// The first error among the first `n` dispatch slots: the section of a slot that cannot be
/// had, or that is longer than a slot.
pub open spec fn slot_error(image: RtImage, supported: Seq<u8>, n: int) -> Option<LoadError>
    decreases n,
{
    if n <= 0 {
        None
    } else {
        match slot_error(image, supported, n - 1) {
            Some(e) => Some(e),
            None => match slot_target(image, supported, n - 1) {
                None => None,
                Some(sec) => match section_len(image, sec as int) {
                    Err(e) => Some(e),
                    Ok(len) => if len > STEP_STRIDE {
                        Some(LoadError::SectionTooLarge(len))
                    } else {
                        None
                    },
                },
            },
        }
    }
}

/// The sections that the relocations of the slots' sections queue, slot by slot.
pub open spec fn slot_queue(image: RtImage, slots: Seq<SlotLoad>) -> Seq<usize>
    decreases slots.len(),
{
    if slots.len() == 0 {
        Seq::empty()
    } else {
        slot_queue(image, slots.drop_last()) + queued_refs(
            image,
            relocs_of(image, slots.last().section as int),
            Seq::empty(),
            false,
        )
    }
}

proof fn lemma_queued_refs_unskipped(image: RtImage, relocs: Seq<RtReloc>, a: Seq<bool>, b: Seq<bool>)
    ensures
        queued_refs(image, relocs, a, false) == queued_refs(image, relocs, b, false),
    decreases relocs.len(),
{
    if relocs.len() > 0 {
        lemma_queued_refs_unskipped(image, relocs.drop_last(), a, b);
    }
}

proof fn lemma_slot_error_stops(image: RtImage, supported: Seq<u8>, m: int, n: int)
    requires
        m <= n,
        slot_error(image, supported, m) is Some,
    ensures
        slot_error(image, supported, n) == slot_error(image, supported, m),
    decreases n - m,
{
    if m < n {
        lemma_slot_error_stops(image, supported, m, n - 1);
    }
}

/// The section of each dispatch slot, with the relocation sites of those sections; queues the
/// sections that they refer to.
#[verifier::spinoff_prover]
#[verifier::rlimit(40)]
fn plan_slots(
    image: &RtImage,
    table: &SectionTable,
    enabled: &Vec<bool>,
    base: u64,
    queue: &mut Vec<usize>,
    Ghost(supported): Ghost<Seq<u8>>,
) -> (r: Result<(Vec<SlotLoad>, Vec<RelocSite>), LoadError>)
    requires
        table.sigill == last_named(image.sections@, image.sections@.len() as int, dot_rt_sigill()),
        table.steps@.len() == 65536,
        forall|s: int|
            0 <= s < 65536 ==> #[trigger] table.steps@[s] == last_step(
                image.sections@,
                image.sections@.len() as int,
                slot_key(s),
            ),
        enabled@.len() == 256,
        forall|op: int| 0 <= op < 256 ==> #[trigger] enabled@[op] == opcode_enabled(supported, op as u8),
    ensures
        final(queue)@.len() >= old(queue)@.len(),
        final(queue)@.take(old(queue)@.len() as int) == old(queue)@,
        r matches Ok((slots, sites)) ==> {
            &&& slots@ == expected_slots(*image, supported, TOTAL_SLOTS as int)
            &&& sites@ == slot_sites(*image, base, slots@)
            &&& forall|k: int| 0 <= k < slots@.len() ==> #[trigger] slots@[k].len <= STEP_STRIDE
            &&& refs_queued(*image, slot_sections(slots@), final(queue)@, old(queue)@.len() as int)
        },
        r is Ok <==> slot_error(*image, supported, TOTAL_SLOTS as int) is None,
        r matches Err(e) ==> slot_error(*image, supported, TOTAL_SLOTS as int) == Some(e),
        r is Ok ==> final(queue)@ == old(queue)@ + slot_queue(
            *image,
            expected_slots(*image, supported, TOTAL_SLOTS as int),
        ),
{
    let ghost q0 = queue@;
    let nsec = image.sections.len();
    let mut slots: Vec<SlotLoad> = Vec::new();
    let mut sites: Vec<RelocSite> = Vec::new();
    let mut slot: usize = 0;
    while slot < TOTAL_SLOTS
        invariant
            slot <= TOTAL_SLOTS,
            nsec == image.sections@.len(),
            table.sigill == last_named(
                image.sections@,
                image.sections@.len() as int,
                dot_rt_sigill(),
            ),
            table.steps@.len() == 65536,
            forall|s: int|
                0 <= s < 65536 ==> #[trigger] table.steps@[s] == last_step(
                    image.sections@,
                    image.sections@.len() as int,
                    slot_key(s),
                ),
            enabled@.len() == 256,
            forall|op: int|
                0 <= op < 256 ==> #[trigger] enabled@[op] == opcode_enabled(supported, op as u8),
            slots@ == expected_slots(*image, supported, slot as int),
            sites@ == slot_sites(*image, base, slots@),
            forall|k: int| 0 <= k < slots@.len() ==> #[trigger] slots@[k].len <= STEP_STRIDE,
            q0 == old(queue)@,
            queue@.len() >= q0.len(),
            queue@.take(q0.len() as int) == q0,
            refs_queued(*image, slot_sections(slots@), queue@, q0.len() as int),
            slot_error(*image, supported, slot as int) is None,
            queue@ == q0 + slot_queue(*image, slots@),
        decreases TOTAL_SLOTS - slot,
    {
        let opcode = slot % 256;
        let target = if enabled[opcode] {
            match table.steps[slot] {
                Some(i) => Some(i),
                None => table.sigill,
            }
        } else {
            table.sigill
        };
        assert(target == slot_target(*image, supported, slot as int));
        let ghost old_slots = slots@;
        let ghost old_queue = queue@;
        if let Some(sec_idx) = target {
            proof {
                lemma_last_named_valid(image.sections@, image.sections@.len() as int, dot_rt_sigill());
                lemma_last_step_valid(image.sections@, image.sections@.len() as int, slot_key(slot as int));
            }
            let sec = match &image.sections[sec_idx] {
                Some(sec) => sec,
                None => {
                    return Err(LoadError::InvalidSectionIndex);
                },
            };
            let len = match section_data_len(sec) {
                Ok(n) => n,
                Err(e) => {
                    proof {
                        lemma_slot_error_stops(*image, supported, slot + 1, TOTAL_SLOTS as int);
                    }
                    return Err(e);
                },
            };
            if len > STEP_STRIDE {
                proof {
                    lemma_slot_error_stops(*image, supported, slot + 1, TOTAL_SLOTS as int);
                }
                return Err(LoadError::SectionTooLarge(len));
            }
            let load = SlotLoad { slot, section: sec_idx, len };
            slots.push(load);
            let ghost sites_before = sites@;
            let slot_vaddr = base.wrapping_add((slot * STEP_STRIDE) as u64);
            push_section_sites(image, sec_idx, slot_vaddr, &mut sites, queue, enabled, false);
            proof {
                lemma_queued_refs_unskipped(
                    *image,
                    relocs_of(*image, sec_idx as int),
                    enabled@,
                    Seq::empty(),
                );
            }
            assert(slots@.drop_last() =~= old_slots);
            assert(queue@ =~= q0 + slot_queue(*image, slots@));
            assert(slots@ == expected_slots(*image, supported, slot + 1));
            assert(sites@ == slot_sites(*image, base, slots@));
            assert(queue@.take(q0.len() as int) =~= q0) by {
                assert(queue@.take(old_queue.len() as int) =~= old_queue);
            }
            assert(slot_sections(slots@) =~= slot_sections(old_slots).push(sec_idx));
            assert forall|k: int, q: usize|
                0 <= k < slot_sections(slots@).len() && #[trigger] references(
                    *image,
                    slot_sections(slots@)[k] as int,
                    q,
                ) implies exists|j: int| q0.len() <= j < queue@.len() && queue@[j] == q by {
                if k < old_slots.len() {
                    assert(slot_sections(slots@)[k] == slot_sections(old_slots)[k]);
                    let j = choose|j: int| q0.len() <= j < old_queue.len() && old_queue[j] == q;
                    assert(queue@[j] == old_queue[j]);
                } else {
                    assert(slot_sections(slots@)[k] == sec_idx);
                    let j = choose|j: int|
                        old_queue.len() <= j < queue@.len() && queue@[j] == q;
                }
            }
        }
        slot += 1;
    }
    Ok((slots, sites))
}

proof fn lemma_last_named_valid(secs: Seq<Option<RtSection>>, n: int, name: Seq<u8>)
    requires
        n <= secs.len() <= usize::MAX,
    ensures
        last_named(secs, n, name) matches Some(i) ==> i < secs.len() && secs[i as int] is Some,
    decreases n,
{
    if n > 0 {
        lemma_last_named_valid(secs, n - 1, name);
        if section_name(secs, n - 1) == Some(name) {
            assert(secs[n - 1] is Some);
        }
    }
}

proof fn lemma_last_step_valid(secs: Seq<Option<RtSection>>, n: int, key: (u8, u8, u8))
    requires
        n <= secs.len() <= usize::MAX,
    ensures
        last_step(secs, n, key) matches Some(i) ==> i < secs.len() && secs[i as int] is Some,
    decreases n,
{
    reveal(step_key_of);
    if n > 0 {
        lemma_last_step_valid(secs, n - 1, key);
        if step_key_of(secs, n - 1) == Some(key) {
            assert(section_name(secs, n - 1) is Some);
            assert(secs[n - 1] is Some);
        }
    }
}

pub open spec fn support_sections(support: Seq<SupportLoad>) -> Seq<usize> {
    support.map_values(|l: SupportLoad| l.section)
}

/// Every queued section is loaded or still waits in the queue from `head` on.
#[verifier::opaque]
pub open spec fn handled(support: Seq<SupportLoad>, queue: Seq<usize>, head: int, q: usize) -> bool {
    is_loaded(support, q) || exists|j: int| head <= j < queue.len() && queue[j] == q
}

/// The `loaded` flags mark exactly the loaded sections.
#[verifier::opaque]
pub open spec fn flags_match(loaded: Seq<bool>, support: Seq<SupportLoad>) -> bool {
    &&& forall|q: int| 0 <= q < loaded.len() ==> #[trigger] loaded[q] == is_loaded(support, q as usize)
    &&& forall|k: int| 0 <= k < support.len() ==> #[trigger] support[k].section < loaded.len()
}

proof fn lemma_support_end_push(support: Seq<SupportLoad>, l: SupportLoad, k: int)
    requires
        0 <= k <= support.len(),
    ensures
        support_end(support.push(l), k) == support_end(support, k),
{
}

/// Where section `q` goes when the supporting sections so far end at `end`: at the end rounded
/// up to the section's alignment (at least 8), if the section can be had and fits in the
/// mapping.
pub open spec fn place_spec(image: RtImage, q: usize, end: int) -> Result<SupportLoad, LoadError> {
    match section_len(image, q as int) {
        Err(e) => Err(e),
        Ok(len) => if end + effective_align(align_of(image, q as int)) - 1 > u64::MAX {
            Err(LoadError::SupportHeapOverflow)
        } else if aligned_offset(end, align_of(image, q as int)) + len > MMAP_SIZE {
            Err(LoadError::SupportHeapOverflow)
        } else {
            Ok(
                SupportLoad {
                    section: q,
                    offset: aligned_offset(end, align_of(image, q as int)) as usize,
                    len,
                },
            )
        },
    }
}

/// The placed sections among the image's `n` sections, as flags.
pub open spec fn loaded_flags(support: Seq<SupportLoad>, n: nat) -> Seq<bool> {
    Seq::new(n, |q: int| is_loaded(support, q as usize))
}

/// How many of the sections `0..n` are placed.
pub open spec fn count_loaded(support: Seq<SupportLoad>, n: int) -> nat
    decreases n,
{
    if n <= 0 {
        0
    } else {
        count_loaded(support, n - 1) + if is_loaded(support, (n - 1) as usize) {
            1nat
        } else {
            0nat
        }
    }
}

pub proof fn lemma_is_loaded_push(support: Seq<SupportLoad>, l: SupportLoad, q: usize)
    ensures
        is_loaded(support.push(l), q) == (is_loaded(support, q) || l.section == q),
{
    let placed = support.push(l);
    if is_loaded(support, q) {
        let k = choose|k: int| 0 <= k < support.len() && #[trigger] support[k].section == q;
        assert(placed[k] == support[k]);
    }
    if l.section == q {
        assert(placed[support.len() as int] == l);
    }
    if is_loaded(placed, q) && l.section != q {
        let k = choose|k: int| 0 <= k < placed.len() && #[trigger] placed[k].section == q;
        assert(k < support.len());
        assert(placed[k] == support[k]);
    }
}

pub proof fn lemma_count_loaded_bound(support: Seq<SupportLoad>, n: int)
    requires
        n >= 0,
    ensures
        count_loaded(support, n) <= n,
    decreases n,
{
    if n > 0 {
        lemma_count_loaded_bound(support, n - 1);
    }
}

pub proof fn lemma_count_loaded_push(support: Seq<SupportLoad>, l: SupportLoad, n: int)
    requires
        0 <= l.section < n <= usize::MAX,
        !is_loaded(support, l.section),
    ensures
        count_loaded(support.push(l), n) == count_loaded(support, n) + 1,
    decreases n,
{
    lemma_is_loaded_push(support, l, (n - 1) as usize);
    assert(count_loaded(support.push(l), n) == count_loaded(support.push(l), n - 1) + if is_loaded(
        support.push(l),
        (n - 1) as usize,
    ) {
        1nat
    } else {
        0nat
    });
    assert(count_loaded(support, n) == count_loaded(support, n - 1) + if is_loaded(
        support,
        (n - 1) as usize,
    ) {
        1nat
    } else {
        0nat
    });
    if l.section < n - 1 {
        lemma_count_loaded_push(support, l, n - 1);
        assert(l.section != (n - 1) as usize);
        assert(is_loaded(support.push(l), (n - 1) as usize) == is_loaded(support, (n - 1) as usize));
        assert(count_loaded(support.push(l), n - 1) == count_loaded(support, n - 1) + 1);
    } else {
        lemma_count_loaded_same(support, l, n - 1);
        assert(l.section == (n - 1) as usize);
        assert(is_loaded(support.push(l), (n - 1) as usize));
        assert(!is_loaded(support, (n - 1) as usize));
        assert(count_loaded(support.push(l), n - 1) == count_loaded(support, n - 1));
    }
}

pub proof fn lemma_count_loaded_same(support: Seq<SupportLoad>, l: SupportLoad, n: int)
    requires
        l.section >= n,
        n <= usize::MAX,
    ensures
        count_loaded(support.push(l), n) == count_loaded(support, n),
    decreases n,
{
    if n > 0 {
        lemma_is_loaded_push(support, l, (n - 1) as usize);
        lemma_count_loaded_same(support, l, n - 1);
    }
}

/// The supporting sections after working through `queue` from `head` on, those of `support`
/// placed already: a section placed before is skipped; any other is placed after the last one
/// (see [`place_spec`]), and the sections that its relocations refer to and that are not
/// placed yet join the queue. The first section that cannot be placed stops the work with its
/// error.
pub open spec fn support_run(
    image: RtImage,
    queue: Seq<usize>,
    head: int,
    support: Seq<SupportLoad>,
) -> Result<Seq<SupportLoad>, LoadError>
    decreases image.sections@.len() - count_loaded(support, image.sections@.len() as int),
        queue.len() - head,
{
    if head < 0 || head >= queue.len() {
        Ok(support)
    } else if is_loaded(support, queue[head]) {
        support_run(image, queue, head + 1, support)
    } else {
        match place_spec(image, queue[head], support_end(support, support.len() as int)) {
            Err(e) => Err(e),
            Ok(l) => {
                let nsec = image.sections@.len();
                let placed = support.push(l);
                proof {
                    assert(image.sections.len() == nsec);
                    lemma_count_loaded_push(support, l, nsec as int);
                    lemma_count_loaded_bound(placed, nsec as int);
                }
                support_run(
                    image,
                    queue + queued_refs(
                        image,
                        relocs_of(image, queue[head] as int),
                        loaded_flags(placed, nsec),
                        true,
                    ),
                    head + 1,
                    placed,
                )
            },
        }
    }
}

/// Places section `q` after `end`, aligned, if it fits in the mapping.
fn place_section(image: &RtImage, q: usize, end: usize) -> (r: Result<SupportLoad, LoadError>)
    requires
        end <= MMAP_SIZE,
    ensures
        r == place_spec(*image, q, end as int),
        r matches Ok(l) ==> {
            &&& l.section == q
            &&& q < image.sections@.len()
            &&& l.offset == aligned_offset(end as int, align_of(*image, q as int))
            &&& l.offset + l.len <= MMAP_SIZE
            &&& data_len_of(*image, q as int) == Some(l.len)
            &&& end + effective_align(align_of(*image, q as int)) - 1 <= u64::MAX
        },
{
    if q >= image.sections.len() {
        return Err(LoadError::InvalidSectionIndex);
    }
    let sec = match &image.sections[q] {
        Some(sec) => sec,
        None => {
            return Err(LoadError::InvalidSectionIndex);
        },
    };
    let len = match section_data_len(sec) {
        Ok(n) => n,
        Err(e) => {
            return Err(e);
        },
    };
    let align: u64 = if sec.align < 8 {
        8
    } else {
        sec.align
    };
    let sum = match (end as u64).checked_add(align - 1) {
        Some(v) => v,
        None => {
            return Err(LoadError::SupportHeapOverflow);
        },
    };
    let aligned = sum & !(align - 1);
    if aligned > MMAP_SIZE as u64 {
        return Err(LoadError::SupportHeapOverflow);
    }
    let offset = aligned as usize;
    if len > MMAP_SIZE - offset {
        return Err(LoadError::SupportHeapOverflow);
    }
    Ok(SupportLoad { section: q, offset, len })
}

/// Places the queued sections, and the sections that they refer to in turn, after the dispatch
/// table, each once, in the order they come out of the queue.
#[verifier::spinoff_prover]
#[verifier::rlimit(60)]
fn plan_support(
    image: &RtImage,
    base: u64,
    pending: Vec<usize>,
    sites: Vec<RelocSite>,
) -> (r: Result<(Vec<SupportLoad>, Vec<RelocSite>, usize), LoadError>)
    ensures
        r matches Ok((support, all_sites, total)) ==> {
            &&& support_layout(*image, support@)
            &&& distinct_sections(support@)
            &&& total == support_end(support@, support@.len() as int)
            &&& total <= MMAP_SIZE
            &&& forall|j: int| 0 <= j < pending@.len() ==> is_loaded(support@, #[trigger] pending@[j])
            &&& forall|k: int, q: usize|
                0 <= k < support@.len() && #[trigger] references(
                    *image,
                    support@[k].section as int,
                    q,
                ) ==> is_loaded(support@, q)
            &&& all_sites@ == sites@ + support_sites(*image, base, support@)
        },
        r matches Ok((support, _, _)) ==> support_run(*image, pending@, 0, Seq::empty()) == Ok::<
            Seq<SupportLoad>,
            LoadError,
        >(support@),
        r matches Err(e) ==> support_run(*image, pending@, 0, Seq::empty()) == Err::<
            Seq<SupportLoad>,
            LoadError,
        >(e),
{
    let nsec = image.sections.len();
    let mut loaded: Vec<bool> = Vec::new();
    while loaded.len() < nsec
        invariant
            loaded@.len() <= nsec,
            forall|q: int| 0 <= q < loaded@.len() ==> #[trigger] loaded@[q] == false,
        decreases nsec - loaded@.len(),
    {
        loaded.push(false);
    }
    assert(count_true(loaded@) == 0) by {
        lemma_count_false(loaded@);
    }
    proof {
        reveal(flags_match);
        reveal(support_layout);
        reveal(distinct_sections);
        reveal(handled);
    }
    let ghost q_in = pending@;
    let ghost s_in = sites@;
    let mut queue = pending;
    let mut sites = sites;
    let mut support: Vec<SupportLoad> = Vec::new();
    let mut heap_offset: usize = DISPATCH_TABLE_SIZE;
    let mut head: usize = 0;
    while head < queue.len()
        invariant
            nsec == image.sections@.len(),
            loaded@.len() == nsec,
            flags_match(loaded@, support@),
            count_true(loaded@) == support@.len(),
            head <= queue@.len(),
            queue@.len() >= q_in.len(),
            queue@.take(q_in.len() as int) == q_in,
            support_layout(*image, support@),
            distinct_sections(support@),
            heap_offset == support_end(support@, support@.len() as int),
            heap_offset <= MMAP_SIZE,
            forall|j: int| 0 <= j < queue@.len() ==> handled(support@, queue@, head as int, #[trigger] queue@[j]),
            forall|k: int, q: usize|
                0 <= k < support@.len() && #[trigger] references(
                    *image,
                    support@[k].section as int,
                    q,
                ) ==> handled(support@, queue@, head as int, q),
            sites@ == s_in + support_sites(*image, base, support@),
            support_run(*image, queue@, head as int, support@) == support_run(
                *image,
                q_in,
                0,
                Seq::empty(),
            ),
            q_in == pending@,
        decreases nsec - count_true(loaded@), queue@.len() - head,
    {
        proof {
            lemma_count_true_bound(loaded@);
        }
        let q = queue[head];
        let ghost old_head = head;
        head += 1;
        if q < loaded.len() && loaded[q] {
            proof {
                reveal(flags_match);
                lemma_skip_step(support@, queue@, old_head as int, q);
            }
            continue;
        }
        proof {
            reveal(flags_match);
            if is_loaded(support@, q) {
                let k = choose|k: int| 0 <= k < support@.len() && #[trigger] support@[k].section == q;
            }
        }
        let load = match place_section(image, q, heap_offset) {
            Ok(l) => l,
            Err(e) => {
                assert(support_run(*image, queue@, old_head as int, support@) == Err::<
                    Seq<SupportLoad>,
                    LoadError,
                >(e));
                assert(support_run(*image, q_in, 0, Seq::empty()) == Err::<Seq<SupportLoad>, LoadError>(
                    e,
                ));
                return Err(e);
            },
        };
        let offset = load.offset;
        let len = load.len;
        let ghost old_support = support@;
        let ghost old_queue = queue@;
        let ghost old_loaded = loaded@;
        support.push(load);
        proof {
            lemma_count_true_set(loaded@, q as int);
        }
        loaded.set(q, true);
        proof {
            lemma_count_true_bound(loaded@);
        }
        heap_offset = offset + len;
        let ghost sites_before = sites@;
        push_section_sites(image, q, base.wrapping_add(offset as u64), &mut sites, &mut queue, &loaded, true);
        proof {
            lemma_load_step(
                *image,
                base,
                old_support,
                support@,
                old_queue,
                queue@,
                old_loaded,
                loaded@,
                q,
                old_head as int,
                load,
                q_in,
                s_in,
                sites_before,
                sites@,
            );
            reveal(flags_match);
            assert(loaded@ =~= loaded_flags(support@, nsec as nat));
            assert(support_run(*image, old_queue, old_head as int, old_support) == support_run(
                *image,
                queue@,
                head as int,
                support@,
            ));
        }
    }
    proof {
        reveal(handled);
        assert forall|j: int| 0 <= j < q_in.len() implies is_loaded(support@, #[trigger] q_in[j]) by {
            assert(queue@[j] == q_in[j]);
            assert(handled(support@, queue@, head as int, queue@[j]));
        }
        assert forall|k: int, qq: usize|
            0 <= k < support@.len() && #[trigger] references(*image, support@[k].section as int, qq)
            implies is_loaded(support@, qq) by {
            assert(handled(support@, queue@, head as int, qq));
        }
    }
    Ok((support, sites, heap_offset))
}

/// The loop invariants of [`plan_support`] survive skipping a section that is loaded already.
proof fn lemma_skip_step(support: Seq<SupportLoad>, queue: Seq<usize>, old_head: int, q: usize)
    requires
        0 <= old_head < queue.len(),
        queue[old_head] == q,
        is_loaded(support, q),
    ensures
        forall|qq: usize|
            handled(support, queue, old_head, qq) ==> handled(support, queue, old_head + 1, qq),
{
    reveal(handled);
    assert forall|qq: usize| handled(support, queue, old_head, qq) implies handled(
        support,
        queue,
        old_head + 1,
        qq,
    ) by {
        if !is_loaded(support, qq) {
            let jj = choose|jj: int| old_head <= jj < queue.len() && queue[jj] == qq;
            assert(jj != old_head);
        }
    }
}

/// The loop invariants of [`plan_support`] survive loading section `q` from the queue.
#[verifier::spinoff_prover]
#[verifier::rlimit(60)]
proof fn lemma_load_step(
    image: RtImage,
    base: u64,
    old_support: Seq<SupportLoad>,
    support: Seq<SupportLoad>,
    old_queue: Seq<usize>,
    queue: Seq<usize>,
    old_loaded: Seq<bool>,
    loaded: Seq<bool>,
    q: usize,
    old_head: int,
    load: SupportLoad,
    q_in: Seq<usize>,
    s_in: Seq<RelocSite>,
    sites_before: Seq<RelocSite>,
    sites: Seq<RelocSite>,
)
    requires
        0 <= old_head < old_queue.len(),
        old_queue[old_head] == q,
        old_loaded.len() <= usize::MAX,
        q < old_loaded.len(),
        !old_loaded[q as int],
        loaded == old_loaded.update(q as int, true),
        support == old_support.push(load),
        load.section == q,
        load.offset == aligned_offset(
            support_end(old_support, old_support.len() as int),
            align_of(image, q as int),
        ),
        load.offset + load.len <= MMAP_SIZE,
        data_len_of(image, q as int) == Some(load.len),
        support_end(old_support, old_support.len() as int) + effective_align(align_of(image, q as int)) - 1 <= u64::MAX,
        flags_match(old_loaded, old_support),
        support_layout(image, old_support),
        distinct_sections(old_support),
        old_queue.len() >= q_in.len(),
        old_queue.take(q_in.len() as int) == q_in,
        forall|j: int|
            0 <= j < old_queue.len() ==> handled(old_support, old_queue, old_head, #[trigger] old_queue[j]),
        forall|k: int, qq: usize|
            0 <= k < old_support.len() && #[trigger] references(image, old_support[k].section as int, qq)
                ==> handled(old_support, old_queue, old_head, qq),
        sites_before == s_in + support_sites(image, base, old_support),
        sites == sites_before + section_sites(relocs_of(image, q as int), wadd(base, load.offset as u64)),
        queue.len() >= old_queue.len(),
        queue.take(old_queue.len() as int) == old_queue,
        forall|qq: usize|
            #[trigger] references(image, q as int, qq) ==> (exists|j: int|
                old_queue.len() <= j < queue.len() && queue[j] == qq) || (qq < loaded.len()
                && loaded[qq as int]),
    ensures
        flags_match(loaded, support),
        support_layout(image, support),
        distinct_sections(support),
        queue.take(q_in.len() as int) == q_in,
        forall|j: int| 0 <= j < queue.len() ==> handled(support, queue, old_head + 1, #[trigger] queue[j]),
        forall|k: int, qq: usize|
            0 <= k < support.len() && #[trigger] references(image, support[k].section as int, qq)
                ==> handled(support, queue, old_head + 1, qq),
        sites == s_in + support_sites(image, base, support),
{
    reveal(handled);
    reveal(flags_match);
    reveal(support_layout);
    reveal(distinct_sections);
    let head = old_head + 1;
    assert(support.drop_last() =~= old_support);
    assert(support[support.len() - 1].section == q);
    assert(is_loaded(support, q));
    assert forall|qq: usize| is_loaded(old_support, qq) implies is_loaded(support, qq) by {
        let k = choose|k: int| 0 <= k < old_support.len() && #[trigger] old_support[k].section == qq;
        assert(support[k] == old_support[k]);
    }
    assert forall|qq: int| 0 <= qq < loaded.len() implies #[trigger] loaded[qq] == is_loaded(support, qq as usize) by {
        if is_loaded(support, qq as usize) && qq != q {
            let k = choose|k: int| 0 <= k < support.len() && #[trigger] support[k].section == qq as usize;
            assert(k < old_support.len());
            assert(old_support[k] == support[k]);
        }
    }
    assert forall|k: int| 0 <= k < support.len() implies #[trigger] support[k].section < loaded.len() by {
        if k < old_support.len() {
            assert(support[k] == old_support[k]);
        }
    }
    assert forall|i: int, j: int| 0 <= i < j < support.len() implies #[trigger] support[i].section != #[trigger] support[j].section by {
        assert(support[i] == old_support[i]);
        if j == support.len() - 1 {
            assert(old_loaded[support[i].section as int]);
        } else {
            assert(support[j] == old_support[j]);
        }
    }
    assert forall|k: int| 0 <= k < support.len() implies {
        &&& #[trigger] support[k].offset == aligned_offset(
            support_end(support, k),
            align_of(image, support[k].section as int),
        )
        &&& support[k].offset + support[k].len <= MMAP_SIZE
        &&& data_len_of(image, support[k].section as int) == Some(support[k].len)
        &&& support_end(support, k) + effective_align(align_of(image, support[k].section as int))
            - 1 <= u64::MAX
    } by {
        lemma_support_end_push(old_support, load, k);
        if k < old_support.len() {
            assert(support[k] == old_support[k]);
        }
    }
    assert(queue.take(q_in.len() as int) =~= q_in) by {
        assert(queue.take(q_in.len() as int) =~= old_queue.take(q_in.len() as int));
    }
    assert forall|j: int| 0 <= j < queue.len() implies handled(support, queue, head, #[trigger] queue[j]) by {
        if j < old_queue.len() {
            assert(queue[j] == old_queue[j]);
            if !is_loaded(old_support, old_queue[j]) && old_queue[j] != q {
                let jj = choose|jj: int| old_head <= jj < old_queue.len() && old_queue[jj] == old_queue[j];
                assert(queue[jj] == old_queue[jj]);
            }
        } else {
            assert(head <= j);
        }
    }
    assert forall|k: int, qq: usize|
        0 <= k < support.len() && #[trigger] references(image, support[k].section as int, qq)
        implies handled(support, queue, head, qq) by {
        if k < old_support.len() {
            assert(support[k] == old_support[k]);
            if !is_loaded(old_support, qq) && qq != q {
                let jj = choose|jj: int| old_head <= jj < old_queue.len() && old_queue[jj] == qq;
                assert(queue[jj] == old_queue[jj]);
            }
        } else {
            if !(qq < loaded.len() && loaded[qq as int]) {
                let jj = choose|jj: int| old_queue.len() <= jj < queue.len() && queue[jj] == qq;
            } else {
                assert(is_loaded(support, qq));
            }
        }
    }
    assert(sites =~= s_in + support_sites(image, base, support));
}

proof fn lemma_count_false(s: Seq<bool>)
    requires
        forall|q: int| 0 <= q < s.len() ==> #[trigger] s[q] == false,
    ensures
        count_true(s) == 0,
    decreases s.len(),
{
    if s.len() > 0 {
        lemma_count_false(s.drop_last());
    }
}

/// The section named `.rt.enter` (the last one, if several).
pub open spec fn enter_section(image: RtImage) -> Option<usize> {
    last_named(image.sections@, image.sections@.len() as int, dot_rt_enter())
}

/// The slots' and supporting sections of the plan for loading `image` with the opcodes
/// `supported`, or the first error: no entry section; a slot's section that cannot be had or
/// is too large (see [`slot_error`]); or a supporting section that cannot be placed. The
/// supporting sections are worked out from the entry section followed by the sections that
/// the relocations of the slots' sections refer to (see [`support_run`]).
pub open spec fn plan_spec(image: RtImage, supported: Seq<u8>) -> Result<
    (Seq<SlotLoad>, Seq<SupportLoad>),
    LoadError,
> {
    match enter_section(image) {
        None => Err(LoadError::NoEnterSection),
        Some(enter) => match slot_error(image, supported, TOTAL_SLOTS as int) {
            Some(e) => Err(e),
            None => {
                let slots = expected_slots(image, supported, TOTAL_SLOTS as int);
                match support_run(image, seq![enter] + slot_queue(image, slots), 0, Seq::empty()) {
                    Err(e) => Err(e),
                    Ok(support) => Ok((slots, support)),
                }
            },
        },
    }
}

/// Plans the loading of the runtime image into a mapping at address `base`: the section of
/// each dispatch slot (the step handler of a supported opcode, else the illegal-instruction
/// handler), the supporting sections after the dispatch table (the entry section and every
/// section that a relocation of a loaded section refers to, each once, in the order of a
/// first-in first-out queue, aligned to its alignment but at least 8), and the relocation sites
/// in the order they are found.
pub fn plan_load(image: &RtImage, supported_opcodes: &[u8], base: u64) -> (r: Result<
    LoadPlan,
    LoadError,
>)
    ensures
        r matches Ok(plan) ==> plan_spec(*image, supported_opcodes@) == Ok::<
            (Seq<SlotLoad>, Seq<SupportLoad>),
            LoadError,
        >((plan.slots@, plan.support@)),
        r matches Err(e) ==> plan_spec(*image, supported_opcodes@) == Err::<
            (Seq<SlotLoad>, Seq<SupportLoad>),
            LoadError,
        >(e),
        r matches Ok(plan) ==> {
            &&& plan.slots@ == expected_slots(*image, supported_opcodes@, TOTAL_SLOTS as int)
            &&& forall|k: int| 0 <= k < plan.slots@.len() ==> #[trigger] plan.slots@[k].len <= STEP_STRIDE
            &&& support_layout(*image, plan.support@)
            &&& distinct_sections(plan.support@)
            &&& plan.total_size == support_end(plan.support@, plan.support@.len() as int)
            &&& plan.total_size <= MMAP_SIZE
            &&& is_loaded(plan.support@, enter_section(*image).unwrap())
            &&& forall|k: int, q: usize|
                0 <= k < plan.slots@.len() && #[trigger] references(
                    *image,
                    plan.slots@[k].section as int,
                    q,
                ) ==> is_loaded(plan.support@, q)
            &&& forall|k: int, q: usize|
                0 <= k < plan.support@.len() && #[trigger] references(
                    *image,
                    plan.support@[k].section as int,
                    q,
                ) ==> is_loaded(plan.support@, q)
            &&& plan.sites@ == slot_sites(*image, base, plan.slots@) + support_sites(
                *image,
                base,
                plan.support@,
            )
        },
{
    let table = classify_sections(image);
    let enabled = enabled_opcodes(supported_opcodes);
    let enter = match table.enter {
        Some(e) => e,
        None => {
            return Err(LoadError::NoEnterSection);
        },
    };
    let mut queue: Vec<usize> = Vec::new();
    queue.push(enter);
    let ghost q_one = queue@;
    assert(q_one[0] == enter);
    let (slots, sites) = match plan_slots(image, &table, &enabled, base, &mut queue, Ghost(supported_opcodes@)) {
        Ok(v) => v,
        Err(e) => {
            return Err(e);
        },
    };
    let ghost q_all = queue@;
    assert(q_all =~= seq![enter] + slot_queue(*image, slots@));
    let (support, sites, total_size) = match plan_support(image, base, queue, sites) {
        Ok(v) => v,
        Err(e) => {
            return Err(e);
        },
    };
    proof {
        assert(q_all.take(1) == q_one);
        assert(q_all[0] == q_all.take(1)[0]);
        assert forall|k: int, q: usize|
            0 <= k < slots@.len() && #[trigger] references(*image, slots@[k].section as int, q)
            implies is_loaded(support@, q) by {
            assert(slot_sections(slots@)[k] == slots@[k].section);
            let j = choose|j: int| 1 <= j < q_all.len() && q_all[j] == q;
            assert(is_loaded(support@, q_all[j]));
        }
    }
    Ok(LoadPlan { slots, support, sites, total_size })
}

// ---------------------------------------------------------------------------------------------
// Relocations and entry point.
// ---------------------------------------------------------------------------------------------
/// A value to write at an address of the mapping.
#[derive(Clone, Copy, Debug, PartialEq, Eq)]
pub enum PatchValue {
    I32(i32),
    U64(u64),
}

#[derive(Clone, Copy, Debug, PartialEq, Eq)]
pub struct PatchWrite {
    pub vaddr: u64,
    pub value: PatchValue,
}

/// The low 32 bits of `x`, read as a signed number.
pub open spec fn low32(x: int) -> i32 {
    let m = x % 0x1_0000_0000;
    if m >= 0x8000_0000 {
        (m - 0x1_0000_0000) as i32
    } else {
        m as i32
    }
}

pub open spec fn dot_ibase() -> Seq<u8> {
    seq![46u8, 105u8, 98u8, 97u8, 115u8, 101u8]
}

/// Offset of the loaded section `sec` (the first with that section; there is only one).
pub open spec fn support_offset(support: Seq<SupportLoad>, sec: usize) -> Option<usize>
    decreases support.len(),
{
    if support.len() == 0 {
        None
    } else {
        match support_offset(support.drop_last(), sec) {
            Some(o) => Some(o),
            None => if support.last().section == sec {
                Some(support.last().offset)
            } else {
                None
            },
        }
    }
}

pub open spec fn opt_name(name: Option<Vec<u8>>) -> Seq<u8> {
    match name {
        Some(n) => n@,
        None => Seq::empty(),
    }
}

pub open spec fn symbol_name(s: RtSymbol) -> Seq<u8> {
    opt_name(s.name)
}

/// The address of a symbol: the base for `.ibase`, its address within its section when that
/// is loaded, its plain address when it has no section.
pub open spec fn symbol_address(support: Seq<SupportLoad>, base: u64, sym_index: usize, s: RtSymbol) -> Result<
    u64,
    LoadError,
> {
    if symbol_name(s) == dot_ibase() {
        Ok(base)
    } else {
        match s.section {
            Some(sec) => match support_offset(support, sec) {
                Some(o) => Ok(wadd(wadd(base, o as u64), s.address)),
                None => Err(LoadError::UnmappedSection(sym_index)),
            },
            None => Ok(s.address),
        }
    }
}

/// The write that a relocation site needs: PC32 and PLT32 the low 32 bits of
/// `S + A - P`, 32S the low 32 bits of `S + A`, 64 the 64 bits of `S + A`.
pub open spec fn site_write(image: RtImage, support: Seq<SupportLoad>, base: u64, site: RelocSite) -> Result<
    PatchWrite,
    LoadError,
> {
    if site.symbol >= image.symbols@.len() {
        Err(LoadError::SymbolResolution)
    } else {
        match image.symbols@[site.symbol as int] {
            None => Err(LoadError::SymbolResolution),
            Some(sym) => match symbol_address(support, base, site.symbol, sym) {
                Err(e) => Err(e),
                Ok(s) => {
                    let p = site.patch_vaddr;
                    let a = site.addend;
                    if site.r_type == Some(R_X86_64_PLT32) || site.r_type == Some(R_X86_64_PC32) {
                        Ok(PatchWrite { vaddr: p, value: PatchValue::I32(low32(s + a - p)) })
                    } else if site.r_type == Some(R_X86_64_32S) {
                        Ok(PatchWrite { vaddr: p, value: PatchValue::I32(low32(s + a)) })
                    } else if site.r_type == Some(R_X86_64_64) {
                        Ok(
                            PatchWrite {
                                vaddr: p,
                                value: PatchValue::U64(((s + a) % 0x1_0000_0000_0000_0000) as u64),
                            },
                        )
                    } else {
                        Err(LoadError::UnhandledRelocation(site.r_type))
                    }
                },
            },
        }
    }
}

fn find_support_offset(support: &Vec<SupportLoad>, sec: usize) -> (r: Option<usize>)
    ensures
        r == support_offset(support@, sec),
{
    let mut k: usize = 0;
    while k < support.len()
        invariant
            k <= support@.len(),
            support_offset(support@.take(k as int), sec) is None,
        decreases support@.len() - k,
    {
        assert(support@.take(k + 1).drop_last() =~= support@.take(k as int));
        if support[k].section == sec {
            proof {
                lemma_support_offset_prefix(support@, k as int + 1, sec);
            }
            return Some(support[k].offset);
        }
        k += 1;
    }
    assert(support@.take(k as int) =~= support@);
    None
}

/// Once a prefix has the section, the whole sequence gives the same offset.
proof fn lemma_support_offset_prefix(support: Seq<SupportLoad>, n: int, sec: usize)
    requires
        0 <= n <= support.len(),
        support_offset(support.take(n), sec) is Some,
    ensures
        support_offset(support, sec) == support_offset(support.take(n), sec),
    decreases support.len() - n,
{
    if n < support.len() {
        assert(support.take(n + 1).drop_last() =~= support.take(n));
        lemma_support_offset_prefix(support, n + 1, sec);
    } else {
        assert(support.take(n) =~= support);
    }
}

/// The low 32 bits of `w`, read as a signed number.
fn low32_of(w: u64) -> (r: i32)
    ensures
        r == low32(w as int),
{
    let m: u64 = w % 0x1_0000_0000;
    if m >= 0x8000_0000 {
        (m as i64 - 0x1_0000_0000) as i32
    } else {
        m as i32
    }
}

/// `s + a` modulo 2^64.
fn add_signed_wrapping(s: u64, a: i64) -> (r: u64)
    ensures
        r as int == (s + a) % 0x1_0000_0000_0000_0000,
{
    s.wrapping_add_signed(a)
}

/// `x - p` modulo 2^64.
fn sub_wrapping(x: u64, p: u64) -> (r: u64)
    ensures
        r as int == (x - p) % 0x1_0000_0000_0000_0000,
{
    x.wrapping_sub(p)
}

/// The low 32 bits of `x mod 2^64` are those of `x`.
proof fn lemma_low32_wrapped(x: int, w: u64)
    requires
        w as int == x % 0x1_0000_0000_0000_0000,
    ensures
        low32(w as int) == low32(x),
{
    vstd::arithmetic::div_mod::lemma_mod_mod(x, 0x1_0000_0000, 0x1_0000_0000);
}

fn symbol_addr_of(image: &RtImage, support: &Vec<SupportLoad>, base: u64, sym_index: usize, sym: &RtSymbol) -> (r: Result<u64, LoadError>)
    ensures
        r == symbol_address(support@, base, sym_index, *sym),
{
    let ibase: [u8; 6] = [46, 105, 98, 97, 115, 101];
    assert(ibase@ =~= dot_ibase());
    let is_ibase = match &sym.name {
        Some(n) => name_is(n, ibase.as_slice()),
        None => false,
    };
    proof {
        if sym.name is None {
            assert(symbol_name(*sym).len() == 0);
        }
    }
    assert(is_ibase == (symbol_name(*sym) == dot_ibase()));
    if is_ibase {
        Ok(base)
    } else if let Some(sec) = sym.section {
        match find_support_offset(support, sec) {
            Some(o) => Ok(base.wrapping_add(o as u64).wrapping_add(sym.address)),
            None => Err(LoadError::UnmappedSection(sym_index)),
        }
    } else {
        Ok(sym.address)
    }
}

/// The write of one relocation site (see [`site_write`]).
pub fn resolve_site(image: &RtImage, support: &Vec<SupportLoad>, base: u64, site: RelocSite) -> (r: Result<
    PatchWrite,
    LoadError,
>)
    ensures
        r == site_write(*image, support@, base, site),
{
    if site.symbol >= image.symbols.len() {
        return Err(LoadError::SymbolResolution);
    }
    let sym = match &image.symbols[site.symbol] {
        Some(s) => s,
        None => {
            return Err(LoadError::SymbolResolution);
        },
    };
    let symbol_addr = match symbol_addr_of(image, support, base, site.symbol, sym) {
        Ok(v) => v,
        Err(e) => {
            return Err(e);
        },
    };
    let p = site.patch_vaddr;
    let a = site.addend;
    let sa = add_signed_wrapping(symbol_addr, a);
    if site.r_type == Some(R_X86_64_PLT32) || site.r_type == Some(R_X86_64_PC32) {
        let w = sub_wrapping(sa, p);
        proof {
            vstd::arithmetic::div_mod::lemma_add_mod_noop(symbol_addr + a, -(p as int), 0x1_0000_0000_0000_0000);
            lemma_low32_wrapped(symbol_addr + a - p, w);
        }
        Ok(PatchWrite { vaddr: p, value: PatchValue::I32(low32_of(w)) })
    } else if site.r_type == Some(R_X86_64_32S) {
        proof {
            lemma_low32_wrapped(symbol_addr + a, sa);
        }
        Ok(PatchWrite { vaddr: p, value: PatchValue::I32(low32_of(sa)) })
    } else if site.r_type == Some(R_X86_64_64) {
        Ok(PatchWrite { vaddr: p, value: PatchValue::U64(sa) })
    } else {
        Err(LoadError::UnhandledRelocation(site.r_type))
    }
}

/// A PLT32 relocation is resolved as a PC32 one: the site receives the low 32 bits of
/// `S + A - P`, the symbol's address plus the addend, taken relative to the patched address
/// (never the absolute `S + A`); changing the type between the two changes nothing.
pub proof fn law_plt32_is_pc_relative(
    image: RtImage,
    support: Seq<SupportLoad>,
    base: u64,
    site: RelocSite,
    sym: RtSymbol,
    s: u64,
)
    requires
        site.r_type == Some(R_X86_64_PLT32),
        site.symbol < image.symbols@.len(),
        image.symbols@[site.symbol as int] == Some(sym),
        symbol_address(support, base, site.symbol, sym) == Ok::<u64, LoadError>(s),
    ensures
        site_write(image, support, base, site) == site_write(
            image,
            support,
            base,
            RelocSite { r_type: Some(R_X86_64_PC32), ..site },
        ),
        site_write(image, support, base, site) == Ok::<PatchWrite, LoadError>(
            PatchWrite {
                vaddr: site.patch_vaddr,
                value: PatchValue::I32(low32(s + site.addend - site.patch_vaddr)),
            },
        ),
{
}

/// The writes of all relocation sites of the plan, in order, or the error of the first site
/// that cannot be resolved.
pub fn resolve_relocations(image: &RtImage, plan: &LoadPlan, base: u64) -> (r: Result<
    Vec<PatchWrite>,
    LoadError,
>)
    ensures
        r is Ok <==> forall|i: int|
            0 <= i < plan.sites@.len() ==> #[trigger] site_write(
                *image,
                plan.support@,
                base,
                plan.sites@[i],
            ) is Ok,
        r matches Ok(ws) ==> ws@.len() == plan.sites@.len() && forall|i: int|
            0 <= i < plan.sites@.len() ==> #[trigger] site_write(
                *image,
                plan.support@,
                base,
                plan.sites@[i],
            ) == Ok::<PatchWrite, LoadError>(ws@[i]),
        r matches Err(e) ==> exists|i: int|
            0 <= i < plan.sites@.len() && #[trigger] site_write(
                *image,
                plan.support@,
                base,
                plan.sites@[i],
            ) == Err::<PatchWrite, LoadError>(e) && forall|j: int|
                0 <= j < i ==> site_write(*image, plan.support@, base, plan.sites@[j]) is Ok,
{
    let mut writes: Vec<PatchWrite> = Vec::new();
    let mut i: usize = 0;
    while i < plan.sites.len()
        invariant
            i <= plan.sites@.len(),
            writes@.len() == i,
            forall|j: int|
                0 <= j < i ==> #[trigger] site_write(*image, plan.support@, base, plan.sites@[j])
                    == Ok::<PatchWrite, LoadError>(writes@[j]),
        decreases plan.sites@.len() - i,
    {
        match resolve_site(image, &plan.support, base, plan.sites[i]) {
            Ok(w) => writes.push(w),
            Err(e) => {
                assert(site_write(*image, plan.support@, base, plan.sites@[i as int]) == Err::<
                    PatchWrite,
                    LoadError,
                >(e));
                return Err(e);
            },
        }
        i += 1;
    }
    Ok(writes)
}

/// The address of the symbol `bpfi_rt_enter`, the entry point of the runtime.
pub open spec fn enter_symbol(image: RtImage) -> Option<usize> {
    first_named_symbol(image.symbols@, 0, bpfi_rt_enter_name())
}

pub open spec fn bpfi_rt_enter_name() -> Seq<u8> {
    seq![98u8, 112u8, 102u8, 105u8, 95u8, 114u8, 116u8, 95u8, 101u8, 110u8, 116u8, 101u8, 114u8]
}

/// The first symbol from `from` on with this name.
pub open spec fn first_named_symbol(syms: Seq<Option<RtSymbol>>, from: int, name: Seq<u8>) -> Option<usize>
    decreases syms.len() - from,
{
    if from < 0 || from >= syms.len() {
        None
    } else if (match syms[from] {
        Some(s) => s.name matches Some(n) && n@ == name,
        None => false,
    }) {
        Some(from as usize)
    } else {
        first_named_symbol(syms, from + 1, name)
    }
}

/// The entry address: `bpfi_rt_enter` within its loaded section (or its plain address when it
/// has no section).
pub open spec fn entry_spec(image: RtImage, support: Seq<SupportLoad>, base: u64) -> Result<u64, LoadError> {
    match enter_symbol(image) {
        None => Err(LoadError::NoEnterSymbol),
        Some(i) => match image.symbols@[i as int] {
            Some(s) => match s.section {
                Some(sec) => match support_offset(support, sec) {
                    Some(o) => Ok(wadd(wadd(base, o as u64), s.address)),
                    None => Err(LoadError::EnterSectionNotLoaded),
                },
                None => Ok(s.address),
            },
            None => Err(LoadError::NoEnterSymbol),
        },
    }
}

/// The address of the entry point of the loaded runtime (see [`entry_spec`]).
pub fn entry_address(image: &RtImage, plan: &LoadPlan, base: u64) -> (r: Result<u64, LoadError>)
    ensures
        r == entry_spec(*image, plan.support@, base),
{
    let name: [u8; 13] = [98, 112, 102, 105, 95, 114, 116, 95, 101, 110, 116, 101, 114];
    assert(name@ =~= bpfi_rt_enter_name());
    let mut i: usize = 0;
    while i < image.symbols.len()
        invariant
            i <= image.symbols@.len(),
            name@ == bpfi_rt_enter_name(),
            first_named_symbol(image.symbols@, 0, bpfi_rt_enter_name()) == first_named_symbol(
                image.symbols@,
                i as int,
                bpfi_rt_enter_name(),
            ),
        decreases image.symbols@.len() - i,
    {
        if let Some(s) = &image.symbols[i] {
            if let Some(n) = &s.name {
                if name_is(n, name.as_slice()) {
                    return match s.section {
                        Some(sec) => match find_support_offset(&plan.support, sec) {
                            Some(o) => Ok(base.wrapping_add(o as u64).wrapping_add(s.address)),
                            None => Err(LoadError::EnterSectionNotLoaded),
                        },
                        None => Ok(s.address),
                    };
                }
            }
        }
        i += 1;
    }
    Err(LoadError::NoEnterSymbol)
}

/// Offset, from the start of the mapping, of the step handler slot that the loader fills for
/// the section `.rt.<opcode>.<dst>.<src>`: slot index `opcode | dst << 8 | src << 12` (the
/// instruction's first two bytes read little-endian), times the slot size.
pub fn step_slot_offset(opcode: u8, dst: u8, src: u8) -> (offset: usize)
    ensures
        offset == ((opcode as u64) | (dst as u64) << 8u64 | (src as u64) << 12u64) * STEP_STRIDE,
        dst < 16 && src < 16 ==> offset == (opcode + 256 * dst + 4096 * src) * STEP_STRIDE,
        dst < 16 && src < 16 ==> slot_key(offset as int / STEP_STRIDE as int) == (opcode, dst, src),
{
    let idx = (opcode as u64) | (dst as u64) << 8u64 | (src as u64) << 12u64;
    assert(idx < 0x10_0000) by (bit_vector)
        requires
            idx == (opcode as u64) | (dst as u64) << 8u64 | (src as u64) << 12u64,
    ;
    assert(dst < 16 && src < 16 ==> idx == opcode + 256 * dst + 4096 * src) by (bit_vector)
        requires
            idx == (opcode as u64) | (dst as u64) << 8u64 | (src as u64) << 12u64,
    ;
    idx as usize * STEP_STRIDE
}

// ---------------------------------------------------------------------------------------------
// Laws.
// ---------------------------------------------------------------------------------------------
/// The alignment a section gets: its own, but at least 8.
pub open spec fn effective_align(a: u64) -> u64 {
    if a < 8 {
        8
    } else {
        a
    }
}

/// Rounding up to a power-of-two alignment gives the first multiple of the alignment (the low
/// bits below the alignment are zero) at or after the end.
pub proof fn law_aligned_offset_pow2(end: u64, align: u64)
    requires
        align >= 8,
        align & ((align - 1) as u64) == 0,
        end + align - 1 <= u64::MAX,
    ensures
        (aligned_offset(end as int, align) as u64) & ((align - 1) as u64) == 0,
        end <= aligned_offset(end as int, align) < end + align,
{
    let a1 = (align - 1) as u64;
    let s = (end + a1) as u64;
    let r = s & !a1;
    assert(aligned_offset(end as int, align) == r as int);
    assert(r & a1 == 0) by (bit_vector)
        requires
            r == s & !a1,
    ;
    assert(r <= s && s - r <= a1) by (bit_vector)
        requires
            r == s & !a1,
    ;
}

/// With power-of-two alignments, the supporting sections of a plan lie after the dispatch
/// table, one after the other, without overlapping, each at a multiple of its alignment (at
/// least 8).
pub proof fn law_support_disjoint(image: RtImage, support: Seq<SupportLoad>)
    requires
        support_layout(image, support),
        forall|k: int|
            0 <= k < support.len() ==> {
                let a = align_of(image, #[trigger] support[k].section as int);
                a < 8 || a & ((a - 1) as u64) == 0
            },
    ensures
        forall|k: int|
            0 <= k < support.len() ==> {
                &&& support_end(support, k) <= #[trigger] support[k].offset
                &&& DISPATCH_TABLE_SIZE <= support[k].offset
                &&& (support[k].offset as u64) & ((effective_align(
            align_of(image, support[k].section as int),
        ) - 1) as u64) == 0
            },
{
    reveal(support_layout);
    assert forall|k: int| 0 <= k < support.len() implies {
        &&& support_end(support, k) <= #[trigger] support[k].offset
        &&& DISPATCH_TABLE_SIZE <= support[k].offset
        &&& (support[k].offset as u64) & ((effective_align(
            align_of(image, support[k].section as int),
        ) - 1) as u64) == 0
    } by {
        lemma_support_ends_ascending(image, support, k);
    }
}

proof fn lemma_support_ends_ascending(image: RtImage, support: Seq<SupportLoad>, k: int)
    requires
        0 <= k < support.len(),
        support_layout(image, support),
        forall|j: int|
            0 <= j < support.len() ==> {
                let a = align_of(image, #[trigger] support[j].section as int);
                a < 8 || a & ((a - 1) as u64) == 0
            },
    ensures
        DISPATCH_TABLE_SIZE <= support_end(support, k) <= support[k].offset,
        (support[k].offset as u64) & ((effective_align(
            align_of(image, support[k].section as int),
        ) - 1) as u64) == 0,
    decreases k,
{
    reveal(support_layout);
    if k > 0 {
        lemma_support_ends_ascending(image, support, k - 1);
    }
    let a0 = align_of(image, support[k].section as int);
    let a: u64 = if a0 < 8 {
        8
    } else {
        a0
    };
    let end = support_end(support, k);
    assert(a & ((a - 1) as u64) == 0) by {
        if a0 < 8 {
            assert(8u64 & 7u64 == 0) by (bit_vector);
        }
    }
    assert(support[k].offset == aligned_offset(end, a0));
    assert(aligned_offset(end, a0) == aligned_offset(end, a));
    assert(end <= MMAP_SIZE);
    law_aligned_offset_pow2(end as u64, a);
}

/// The dispatch slot of an instruction (its first two bytes, little-endian) is the slot that
/// the loader fills for the instruction's opcode (first byte), destination register (low
/// nibble of the second byte) and source register (high nibble).
pub proof fn law_dispatch_slot_matches_layout(b0: u8, b1: u8)
    ensures
        slot_key(crate::rt::slot_of(seq![b0, b1]) as int) == (b0, b1 % 16, b1 / 16),
        crate::rt::slot_of(seq![b0, b1]) as int == b0 + 256 * b1,
{
}

} // verus!
