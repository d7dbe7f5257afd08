//! Code generation support: the operands that code generation takes from the current
//! instruction, and an assembler that assembles into a fixed buffer.
use vstd::prelude::*;
use vstd::string::StringSliceAdditionalSpecFns;
use dynasmrt::components::{LabelRegistry, PatchLoc, StaticLabel};
use dynasmrt::relocations::{Relocation, SimpleRelocation};
use dynasmrt::{AssemblyOffset, DynamicLabel};
use crate::template::pow256;
use crate::x64::ast::le_bytes;

verus! {

/// An immediate operand: in a register (loaded from the instruction stream) or a constant.
#[derive(Clone, Copy, PartialEq, Eq, Structural, Debug)]
pub enum Immediate {
    Register(u8),
    Constant(i32),
}

/// A jump offset: in a register or a constant.
#[derive(Clone, Copy, PartialEq, Eq, Structural, Debug)]
pub enum Offset {
    Register(u8),
    Constant(i16),
}

/// The immediate of a "wide" instruction: in a register or a constant.
#[derive(Clone, Copy, PartialEq, Eq, Structural, Debug)]
pub enum Immediate64 {
    Register(u8),
    Constant(u64),
}

#[verifier::external_type_specification]
#[verifier::external_body]
pub struct ExLabelRegistry(LabelRegistry);

#[verifier::external_type_specification]
#[verifier::external_body]
pub struct ExDynamicLabel(DynamicLabel);

// ---------------------------------------------------------------------------------------------
// What a dynasmrt label registry holds.
// ---------------------------------------------------------------------------------------------

/// Static label offsets by name bytes and version.
pub type LabelOffsets = Map<(Seq<u8>, usize), usize>;

/// Local label generations by name bytes.
pub type Generations = Map<Seq<u8>, usize>;

/// Dynamic label slots.
pub type DynamicSlots = Seq<Option<usize>>;

/// The static labels of a registry: each global label (version 0) and each definition of a
/// local label (versions 1, 2, ... in the order of definition), by the bytes of its name and its
/// version, mapped to the offset where it was defined.
pub uninterp spec fn registry_statics(r: LabelRegistry) -> Map<(Seq<u8>, usize), usize>;

/// The current generation of each local label name of a registry: how many times it was
/// defined.
pub uninterp spec fn registry_generations(r: LabelRegistry) -> Map<Seq<u8>, usize>;

/// The dynamic label slots of a registry (a slot holds the offset once the label is defined).
pub uninterp spec fn registry_dynamics(r: LabelRegistry) -> Seq<Option<usize>>;

/// The key of a label name: its bytes.
pub open spec fn key(name: &str) -> Seq<u8> {
    name.spec_bytes()
}

/// The generation that the next definition of the local label `k` gets.
pub open spec fn next_generation(gens: Map<Seq<u8>, usize>, k: Seq<u8>) -> usize {
    if gens.contains_key(k) {
        (gens[k] + 1) as usize
    } else {
        1
    }
}

/// `LabelRegistry::new`: an empty registry.
#[verifier::external_body]
fn registry_new() -> (r: LabelRegistry)
    ensures
        registry_statics(r) == LabelOffsets::empty(),
        registry_generations(r) == Generations::empty(),
        registry_dynamics(r) == DynamicSlots::empty(),
{
    LabelRegistry::new()
}

/// `LabelRegistry::define_local`: the name's generation goes up by one (starting at 1) and the
/// label of that generation is defined at `offset`. The source increments the generation with
/// `+=`, which overflows (and panics in a debug build) at `usize::MAX`.
#[verifier::external_body]
fn registry_define_local(r: &mut LabelRegistry, name: &'static str, offset: usize)
    requires
        registry_generations(*old(r)).contains_key(key(name)) ==> registry_generations(
            *old(r),
        )[key(name)] < usize::MAX,
    ensures
        registry_generations(*final(r)) == registry_generations(*old(r)).insert(
            key(name),
            next_generation(registry_generations(*old(r)), key(name)),
        ),
        registry_statics(*final(r)) == registry_statics(*old(r)).insert(
            (key(name), next_generation(registry_generations(*old(r)), key(name))),
            offset,
        ),
        registry_dynamics(*final(r)) == registry_dynamics(*old(r)),
{
    r.define_local(name, AssemblyOffset(offset))
}

/// `LabelRegistry::define_global`: succeeds, defining the global label at `offset`, exactly
/// when no global label of that name exists; otherwise the registry is unchanged (dynasmrt
/// reports `DuplicateLabel(Global(name))`).
#[verifier::external_body]
fn registry_define_global(r: &mut LabelRegistry, name: &'static str, offset: usize) -> (ok: bool)
    ensures
        ok == !registry_statics(*old(r)).contains_key((key(name), 0usize)),
        ok ==> registry_statics(*final(r)) == registry_statics(*old(r)).insert(
            (key(name), 0usize),
            offset,
        ),
        !ok ==> registry_statics(*final(r)) == registry_statics(*old(r)),
        registry_generations(*final(r)) == registry_generations(*old(r)),
        registry_dynamics(*final(r)) == registry_dynamics(*old(r)),
{
    r.define_global(name, AssemblyOffset(offset)).is_ok()
}

/// How defining a dynamic label went.
#[derive(Clone, Copy, PartialEq, Eq, Structural, Debug)]
enum DefineOutcome {
    Defined,
    /// The label was defined before.
    Duplicate,
    /// The label does not belong to the registry.
    Unknown,
}

/// `LabelRegistry::define_dynamic`: a registry without dynamic label slots knows no dynamic
/// label, so the definition fails as unknown and changes nothing. Which slot a given label
/// names is not stated: clauses see a `DynamicLabel` only as an opaque value (its number comes
/// from the method `get_id`, which no clause can call), so a registry with slots is only said
/// to keep its static labels and generations. The assembler never makes such slots.
#[verifier::external_body]
fn registry_define_dynamic(r: &mut LabelRegistry, id: DynamicLabel, offset: usize) -> (o:
    DefineOutcome)
    ensures
        registry_dynamics(*old(r)).len() == 0 ==> o == DefineOutcome::Unknown,
        o != DefineOutcome::Defined ==> registry_dynamics(*final(r)) == registry_dynamics(*old(r)),
        registry_dynamics(*final(r)).len() == registry_dynamics(*old(r)).len(),
        registry_statics(*final(r)) == registry_statics(*old(r)),
        registry_generations(*final(r)) == registry_generations(*old(r)),
{
    match r.define_dynamic(id, AssemblyOffset(offset)) {
        Ok(()) => DefineOutcome::Defined,
        Err(dynasmrt::DynasmError::DuplicateLabel(_)) => DefineOutcome::Duplicate,
        Err(_) => DefineOutcome::Unknown,
    }
}

/// `LabelRegistry::resolve_static` on the static label `name`/`version` (version 0 is the
/// global label): the offset where that label was defined, if it was.
#[verifier::external_body]
fn registry_resolve_static(r: &LabelRegistry, name: &'static str, version: usize) -> (t: Option<
    usize,
>)
    ensures
        t == (if registry_statics(*r).contains_key((key(name), version)) {
            Some(registry_statics(*r)[(key(name), version)])
        } else {
            None::<usize>
        }),
{
    r.resolve_static(&StaticLabel::local(name, version)).ok().map(|o| o.0)
}

/// `LabelRegistry::resolve_dynamic`: a registry without dynamic label slots resolves no dynamic
/// label (which slot a label names is not stated, as for `define_dynamic`).
#[verifier::external_body]
fn registry_resolve_dynamic(r: &LabelRegistry, id: DynamicLabel) -> (t: Option<usize>)
    ensures
        registry_dynamics(*r).len() == 0 ==> t is None,
{
    r.resolve_dynamic(id).ok().map(|o| o.0)
}

// ---------------------------------------------------------------------------------------------
// Relocations.
// ---------------------------------------------------------------------------------------------

/// A relocation as dynasm packs it into one byte: the kind in the two high bits (0 relative,
/// 1 absolute-to-relative, 2 relative-to-absolute, 3 absolute) and the size code in the low
/// six bits (0 to 3 for 1, 2, 4 or 8 bytes). Other size codes are refused (with a panic) by
/// dynasmrt's x64 relocation.
pub open spec fn reloc_code_valid(code: u8) -> bool {
    code % 64 < 4
}

/// The number of bytes that a relocation patches.
pub open spec fn reloc_size(code: u8) -> nat {
    if code % 64 == 0 {
        1
    } else if code % 64 == 1 {
        2
    } else if code % 64 == 2 {
        4
    } else {
        8
    }
}

/// The kind of a relocation (see [`reloc_code_valid`]).
pub open spec fn reloc_kind(code: u8) -> nat {
    (code / 64) as nat
}

/// A relocation site recorded while assembling: the offset after the referencing instruction
/// (`location`), the distance back to the patched field and to the address the relocation is
/// relative to, a constant added to the target, and the packed relocation.
#[derive(Clone, Copy, Debug)]
pub struct Patch {
    pub location: usize,
    pub target_offset: isize,
    pub field_offset: u8,
    pub ref_offset: u8,
    pub relocation: u8,
}

/// A static label reference: the global label `name` (version 0), or the given definition
/// (version 1, 2, ...) of the local label `name`.
#[derive(Clone, Copy, Debug)]
pub struct StaticRef {
    pub name: &'static str,
    pub version: usize,
}

/// The first byte that a relocation patches.
pub open spec fn patch_start(p: Patch) -> int {
    p.location - p.field_offset
}

/// A relocation whose field lies inside a buffer of `len` bytes, whose encoding dynasmrt
/// accepts, and whose reference point (for the relative kinds, which subtract `ref_offset`
/// from `location`) does not lie before the buffer.
pub open spec fn patch_in_bounds(p: Patch, len: nat) -> bool {
    &&& reloc_code_valid(p.relocation)
    &&& p.field_offset <= p.location
    &&& (reloc_kind(p.relocation) == 0 || reloc_kind(p.relocation) == 2) ==> p.ref_offset
        <= p.location
    &&& patch_start(p) + reloc_size(p.relocation) <= len
}

/// `x` brought into the range of `usize` by adding or taking away `usize::MAX + 1` once
/// (machine wrapping, for values at most one range away).
pub open spec fn wrap_usize(x: int) -> int {
    if x < 0 {
        x + usize::MAX + 1
    } else if x > usize::MAX {
        x - usize::MAX - 1
    } else {
        x
    }
}

/// A `usize` bit pattern read as an `isize`.
pub open spec fn as_signed(w: int) -> int {
    if w > isize::MAX {
        w - usize::MAX - 1
    } else {
        w
    }
}

/// The value written into a relocation's field for a target offset, the buffer placed at
/// `base`: relative kinds measure from `location - ref_offset`, the address-based kinds add or
/// subtract `base`, all in wrapping machine arithmetic (read as signed); then the relocation's
/// constant is added.
pub open spec fn site_value(p: Patch, target: usize, base: usize) -> int {
    let here: int = p.location - p.ref_offset;
    let raw: int = if reloc_kind(p.relocation) == 0 {
        wrap_usize(target - here)
    } else if reloc_kind(p.relocation) == 1 {
        wrap_usize(target + base)
    } else if reloc_kind(p.relocation) == 2 {
        wrap_usize(wrap_usize(target - here) - base)
    } else {
        target as int
    };
    as_signed(raw) + p.target_offset
}

/// Whether `v` is representable in `n` bytes, signed.
pub open spec fn fits_signed(v: int, n: nat) -> bool {
    -((pow256(n) / 2) as int) <= v < (pow256(n) / 2) as int
}

/// `buf` with the relocation's field replaced by the `n` low bytes of `v`, little-endian.
pub open spec fn patched(buf: Seq<u8>, p: Patch, v: int) -> Seq<u8> {
    let s = patch_start(p);
    let n = reloc_size(p.relocation);
    buf.subrange(0, s) + le_bytes((v % (pow256(n) as int)) as nat, n) + buf.subrange(
        s + n,
        buf.len() as int,
    )
}

/// Whether a relocation lies inside a buffer of `len` bytes (see [`patch_in_bounds`]).
fn check_in_bounds(p: Patch, len: usize) -> (b: bool)
    ensures
        b == patch_in_bounds(p, len as nat),
{
    if p.relocation % 64 >= 4 || (p.field_offset as usize) > p.location {
        return false;
    }
    let kind = p.relocation / 64;
    if (kind == 0 || kind == 2) && (p.ref_offset as usize) > p.location {
        return false;
    }
    let size: usize = if p.relocation % 64 == 0 {
        1
    } else if p.relocation % 64 == 1 {
        2
    } else if p.relocation % 64 == 2 {
        4
    } else {
        8
    };
    let start = p.location - p.field_offset as usize;
    start <= len && size <= len - start
}

/// The value [`site_value`], if it lies within `isize`.
fn value_of(p: Patch, target: usize, base: usize) -> (v: Option<isize>)
    requires
        (reloc_kind(p.relocation) == 0 || reloc_kind(p.relocation) == 2) ==> p.ref_offset
            <= p.location,
    ensures
        match v {
            Some(x) => x == site_value(p, target, base),
            None => !(isize::MIN <= site_value(p, target, base) <= isize::MAX),
        },
{
    let kind = p.relocation / 64;
    let raw: usize = if kind == 0 {
        target.wrapping_sub(p.location - p.ref_offset as usize)
    } else if kind == 1 {
        target.wrapping_add(base)
    } else if kind == 2 {
        target.wrapping_sub(p.location - p.ref_offset as usize).wrapping_sub(base)
    } else {
        target
    };
    let signed: isize = if raw <= isize::MAX as usize {
        raw as isize
    } else {
        let below: usize = usize::MAX - raw;
        -(below as isize) - 1
    };
    assert(signed == as_signed(raw as int));
    signed.checked_add(p.target_offset)
}

/// Whether `v` fits a field of the relocation's size, signed (see [`fits_signed`]).
fn value_fits(v: isize, code: u8) -> (b: bool)
    ensures
        b == fits_signed(v as int, reloc_size(code)),
{
    proof {
        reveal_with_fuel(pow256, 9);
    }
    if code % 64 == 0 {
        -128 <= v && v < 128
    } else if code % 64 == 1 {
        -32768 <= v && v < 32768
    } else if code % 64 == 2 {
        -0x8000_0000i64 <= v as i64 && (v as i64) < 0x8000_0000i64
    } else {
        assert(isize::MIN >= -0x8000_0000_0000_0000 && isize::MAX < 0x8000_0000_0000_0000);
        true
    }
}

/// `PatchLoc::patch`, on the `PatchLoc` that `p` describes, over the field's bytes in `buffer`:
/// the field receives the value [`site_value`] in little-endian when that value fits the
/// field, signed; otherwise the buffer is unchanged. dynasmrt panics (in a debug build) when
/// adding the relocation's constant overflows `isize`, which `requires` leaves out.
#[verifier::external_body]
fn patch_site(buffer: &mut Vec<u8>, p: Patch, base: usize, target: usize) -> (ok: bool)
    requires
        patch_in_bounds(p, old(buffer)@.len()),
        isize::MIN <= site_value(p, target, base) <= isize::MAX,
    ensures
        ok == fits_signed(site_value(p, target, base), reloc_size(p.relocation)),
        ok ==> final(buffer)@ == patched(old(buffer)@, p, site_value(p, target, base)),
        !ok ==> final(buffer)@ == old(buffer)@,
{
    let relocation = SimpleRelocation::from_encoding(p.relocation);
    let loc = PatchLoc::new(AssemblyOffset(p.location), p.target_offset, p.field_offset, p.ref_offset, relocation);
    let range = loc.range(0);
    loc.patch(&mut buffer[range], base, target).is_ok()
}

// ---------------------------------------------------------------------------------------------
// Errors.
// ---------------------------------------------------------------------------------------------

/// A label as an error names it.
#[derive(Clone, Copy, Debug)]
pub enum LabelRef {
    Local(&'static str),
    Global(&'static str),
    Dynamic(DynamicLabel),
}

/// What a relocation targets, as an error names it.
#[derive(Clone, Copy, Debug)]
pub enum RelocTarget {
    Local(&'static str),
    Global(&'static str),
    Dynamic(DynamicLabel),
    Value(usize),
}

/// An assembling error (dynasmrt's `DynasmError`, of the kinds that the assembler meets).
#[derive(Clone, Copy, Debug)]
pub enum AsmError {
    /// A label was defined twice.
    DuplicateLabel(LabelRef),
    /// A label is not defined.
    UnknownLabel(LabelRef),
    /// A relocation's value does not fit its field.
    ImpossibleRelocation(RelocTarget),
}

/// Why assembling into a buffer failed.
#[derive(Clone, Copy, Debug)]
pub enum SliceAssemblerError {
    /// write is out of bounds
    OutOfBoundWrite,
    /// could not resolve a static relocation
    ResolveStatic(AsmError),
    /// could not patch a static relocation
    PatchStatic(AsmError),
    /// could not resolve a dynamic relocation
    ResolveDynamic(AsmError),
    /// could not patch a dynamic relocation
    PatchDynamic(AsmError),
    /// could not define a global label
    DefineGlobalLabel(AsmError),
    /// could not define a dynamic label
    DefineDynamicLabel(AsmError),
    /// could not patch a value relocation
    PatchValueRelocation(AsmError),
    /// could not place a local reference
    PlaceLocalReference(AsmError),
}

/// The label that a static reference names, in an error.
pub open spec fn label_ref(l: StaticRef) -> LabelRef {
    if l.version == 0 {
        LabelRef::Global(l.name)
    } else {
        LabelRef::Local(l.name)
    }
}

/// The target that a static reference names, in an error.
pub open spec fn static_target(l: StaticRef) -> RelocTarget {
    if l.version == 0 {
        RelocTarget::Global(l.name)
    } else {
        RelocTarget::Local(l.name)
    }
}

fn label_ref_of(l: StaticRef) -> (r: LabelRef)
    ensures
        r == label_ref(l),
{
    if l.version == 0 {
        LabelRef::Global(l.name)
    } else {
        LabelRef::Local(l.name)
    }
}

fn static_target_of(l: StaticRef) -> (r: RelocTarget)
    ensures
        r == static_target(l),
{
    if l.version == 0 {
        RelocTarget::Global(l.name)
    } else {
        RelocTarget::Local(l.name)
    }
}

// ---------------------------------------------------------------------------------------------
// Committing static relocations.
// ---------------------------------------------------------------------------------------------

/// The key under which a static reference's label is registered.
pub open spec fn ref_key(l: StaticRef) -> (Seq<u8>, usize) {
    (key(l.name), l.version)
}

/// The buffer, and the first error, after the first `n` static relocations have been resolved
/// against `labels` and patched, in order; processing stops at the first error.
pub open spec fn static_pass(
    buf: Seq<u8>,
    relocs: Seq<(Patch, StaticRef)>,
    labels: LabelOffsets,
    base: usize,
    n: nat,
) -> (Seq<u8>, Option<SliceAssemblerError>)
    decreases n,
{
    if n == 0 {
        (buf, None)
    } else {
        let prev = static_pass(buf, relocs, labels, base, (n - 1) as nat);
        if prev.1 is Some {
            prev
        } else {
            let p = relocs[n - 1].0;
            let l = relocs[n - 1].1;
            if !labels.contains_key(ref_key(l)) {
                (prev.0, Some(SliceAssemblerError::ResolveStatic(AsmError::UnknownLabel(label_ref(l)))))
            } else {
                let v = site_value(p, labels[ref_key(l)], base);
                if fits_signed(v, reloc_size(p.relocation)) {
                    (patched(prev.0, p, v), None)
                } else {
                    (
                        prev.0,
                        Some(
                            SliceAssemblerError::PatchStatic(
                                AsmError::ImpossibleRelocation(static_target(l)),
                            ),
                        ),
                    )
                }
            }
        }
    }
}

/// Whether the first `n` static relocations stay clear of what dynasmrt panics on: every one
/// that is reached and whose label resolves lies inside the buffer, has an encoding that
/// dynasmrt accepts, and gets a value within `isize`.
pub open spec fn static_pass_safe(
    buf: Seq<u8>,
    relocs: Seq<(Patch, StaticRef)>,
    labels: LabelOffsets,
    base: usize,
    n: nat,
) -> bool
    decreases n,
{
    if n == 0 {
        true
    } else {
        &&& static_pass_safe(buf, relocs, labels, base, (n - 1) as nat)
        &&& (static_pass(buf, relocs, labels, base, (n - 1) as nat).1 is None && labels.contains_key(
            ref_key(relocs[n - 1].1),
        )) ==> {
            &&& patch_in_bounds(relocs[n - 1].0, buf.len())
            &&& isize::MIN <= site_value(relocs[n - 1].0, labels[ref_key(relocs[n - 1].1)], base)
                <= isize::MAX
        }
    }
}

proof fn lemma_static_pass_len(
    buf: Seq<u8>,
    relocs: Seq<(Patch, StaticRef)>,
    labels: LabelOffsets,
    base: usize,
    n: nat,
)
    requires
        n <= relocs.len(),
        static_pass_safe(buf, relocs, labels, base, n),
    ensures
        static_pass(buf, relocs, labels, base, n).0.len() == buf.len(),
    decreases n,
{
    if n > 0 {
        lemma_static_pass_len(buf, relocs, labels, base, (n - 1) as nat);
        let prev = static_pass(buf, relocs, labels, base, (n - 1) as nat);
        if prev.1 is None && labels.contains_key(ref_key(relocs[n - 1].1)) {
            let p = relocs[n - 1].0;
            let v = site_value(p, labels[ref_key(relocs[n - 1].1)], base);
            lemma_le_bytes_len((v % (pow256(reloc_size(p.relocation)) as int)) as nat, reloc_size(p.relocation));
        }
    }
}

/// Whether byte `j` lies in a relocation's field.
pub open spec fn in_field(p: Patch, j: int) -> bool {
    patch_start(p) <= j < patch_start(p) + reloc_size(p.relocation)
}

/// Committing relocations changes only their fields: a byte that lies in no relocation's
/// field keeps the value that was written.
pub proof fn law_commit_patches_only_fields(
    buf: Seq<u8>,
    relocs: Seq<(Patch, StaticRef)>,
    labels: LabelOffsets,
    base: usize,
    n: nat,
    j: int,
)
    requires
        n <= relocs.len(),
        static_pass_safe(buf, relocs, labels, base, n),
        0 <= j < buf.len(),
        forall|i: int| 0 <= i < n ==> !in_field(#[trigger] relocs[i].0, j),
    ensures
        static_pass(buf, relocs, labels, base, n).0[j] == buf[j],
    decreases n,
{
    if n > 0 {
        lemma_static_pass_safe_prefix(buf, relocs, labels, base, (n - 1) as nat, n);
        law_commit_patches_only_fields(buf, relocs, labels, base, (n - 1) as nat, j);
        lemma_static_pass_len(buf, relocs, labels, base, (n - 1) as nat);
        let prev = static_pass(buf, relocs, labels, base, (n - 1) as nat);
        let p = relocs[n - 1].0;
        let l = relocs[n - 1].1;
        if prev.1 is None && labels.contains_key(ref_key(l)) {
            let v = site_value(p, labels[ref_key(l)], base);
            let size = reloc_size(p.relocation);
            lemma_le_bytes_len((v % (pow256(size) as int)) as nat, size);
            assert(!in_field(relocs[n - 1].0, j));
        }
    }
}

/// Relocations are applied once: after a commit that succeeded (which leaves no pending error
/// and no relocation, see [`SliceAssembler::commit`]), the precondition of another commit holds,
/// and its pass over the (now empty) relocations keeps every byte and finds no error, so that
/// commit returns `Ok` and leaves the buffer as it is.
pub proof fn law_commit_applies_once(a: SliceAssembler)
    requires
        a.wf(),
        a.pending() is None,
        a.static_relocs().len() == 0,
        a.dynamic_relocs().len() == 0,
    ensures
        static_pass_safe(
            a.bytes(),
            a.static_relocs(),
            a.label_offsets(),
            a.base(),
            a.static_relocs().len(),
        ),
        static_pass(a.bytes(), a.static_relocs(), a.label_offsets(), a.base(), a.static_relocs().len())
            == (a.bytes(), None::<SliceAssemblerError>),
{
}

proof fn lemma_static_pass_stops(
    buf: Seq<u8>,
    relocs: Seq<(Patch, StaticRef)>,
    labels: LabelOffsets,
    base: usize,
    m: nat,
    n: nat,
)
    requires
        m <= n,
        static_pass(buf, relocs, labels, base, m).1 is Some,
    ensures
        static_pass(buf, relocs, labels, base, n) == static_pass(buf, relocs, labels, base, m),
    decreases n - m,
{
    if m < n {
        lemma_static_pass_stops(buf, relocs, labels, base, m, (n - 1) as nat);
    }
}

proof fn lemma_static_pass_safe_after_stop(
    buf: Seq<u8>,
    relocs: Seq<(Patch, StaticRef)>,
    labels: LabelOffsets,
    base: usize,
    m: nat,
    n: nat,
)
    requires
        m <= n,
        static_pass(buf, relocs, labels, base, m).1 is Some,
        static_pass_safe(buf, relocs, labels, base, m),
    ensures
        static_pass_safe(buf, relocs, labels, base, n),
    decreases n - m,
{
    if m < n {
        lemma_static_pass_safe_after_stop(buf, relocs, labels, base, m, (n - 1) as nat);
        lemma_static_pass_stops(buf, relocs, labels, base, m, (n - 1) as nat);
    }
}

proof fn lemma_static_pass_safe_prefix(
    buf: Seq<u8>,
    relocs: Seq<(Patch, StaticRef)>,
    labels: LabelOffsets,
    base: usize,
    m: nat,
    n: nat,
)
    requires
        m <= n,
        static_pass_safe(buf, relocs, labels, base, n),
    ensures
        static_pass_safe(buf, relocs, labels, base, m),
    decreases n - m,
{
    if m < n {
        lemma_static_pass_safe_prefix(buf, relocs, labels, base, m, (n - 1) as nat);
    }
}

proof fn lemma_le_bytes_len(v: nat, n: nat)
    ensures
        le_bytes(v, n).len() == n,
    decreases n,
{
    if n > 0 {
        lemma_le_bytes_len(v / 256, (n - 1) as nat);
    }
}

/// `buf` with `data` written from `at` on (within the buffer).
pub open spec fn written(buf: Seq<u8>, at: int, data: Seq<u8>) -> Seq<u8> {
    buf.subrange(0, at) + data + buf.subrange(at + data.len(), buf.len() as int)
}

/// How many filler bytes bring `pos` to a multiple of `alignment`.
pub open spec fn pad_len(pos: usize, alignment: usize) -> int {
    if pos % alignment == 0 {
        0
    } else {
        alignment - pos % alignment
    }
}

/// Whether two label names have the same bytes.
fn same_name(a: &str, b: &str) -> (r: bool)
    ensures
        r == (key(a) == key(b)),
{
    let x = a.as_bytes();
    let y = b.as_bytes();
    if x.len() != y.len() {
        return false;
    }
    let mut i: usize = 0;
    while i < x.len()
        invariant
            x@.len() == y@.len(),
            x@ == key(a),
            y@ == key(b),
            i <= x@.len(),
            forall|j: int| 0 <= j < i ==> x@[j] == y@[j],
        decreases x@.len() - i,
    {
        if x[i] != y[i] {
            return false;
        }
        i += 1;
    }
    assert(x@ =~= y@);
    true
}

/// A list of (name, generation) pairs that holds each name once and agrees with `gens`.
pub open spec fn generations_agree(list: Seq<(&'static str, usize)>, gens: Generations) -> bool {
    &&& forall|i: int, j: int|
        0 <= i < j < list.len() ==> key(list[i].0) != key(list[j].0)
    &&& forall|i: int|
        0 <= i < list.len() ==> #[trigger] gens.contains_key(key(list[i].0)) && gens[key(
            list[i].0,
        )] == list[i].1
    &&& forall|k: Seq<u8>|
        #[trigger] gens.contains_key(k) ==> exists|i: int|
            0 <= i < list.len() && key(list[i].0) == k
}

// ---------------------------------------------------------------------------------------------
// The assembler.
// ---------------------------------------------------------------------------------------------

/// An assembler that assembles into a provided buffer, placed at `base_addr` once it runs.
///
/// The assembled code must fit in the buffer: writes take the room they need as a
/// precondition. Label and relocation errors are recorded, and [`SliceAssembler::commit`]
/// reports the last recorded one.
pub struct SliceAssembler {
    base_addr: usize,
    buffer: Vec<u8>,
    position: usize,
    labels: LabelRegistry,
    /// The generation of each local label name defined so far; it always equals the
    /// registry's own, which dynasmrt keeps inside its opaque label references.
    generations: Vec<(&'static str, usize)>,
    statics: Vec<(Patch, StaticRef)>,
    dynamics: Vec<(Patch, DynamicLabel)>,
    error: Option<SliceAssemblerError>,
}

impl SliceAssembler {
    /// The address the buffer comes to reside at.
    pub closed spec fn base(&self) -> usize {
        self.base_addr
    }

    /// The buffer's bytes.
    pub closed spec fn bytes(&self) -> Seq<u8> {
        self.buffer@
    }

    /// How many bytes have been written.
    pub closed spec fn pos(&self) -> usize {
        self.position
    }

    /// The defined static labels and their offsets.
    pub closed spec fn label_offsets(&self) -> LabelOffsets {
        registry_statics(self.labels)
    }

    /// The generation of each local label name.
    pub closed spec fn label_generations(&self) -> Generations {
        registry_generations(self.labels)
    }

    /// The relocations that target static labels, in the order they were made.
    pub closed spec fn static_relocs(&self) -> Seq<(Patch, StaticRef)> {
        self.statics@
    }

    /// The relocations that target dynamic labels, in the order they were made.
    pub closed spec fn dynamic_relocs(&self) -> Seq<(Patch, DynamicLabel)> {
        self.dynamics@
    }

    /// The error recorded last, not yet reported.
    pub closed spec fn pending(&self) -> Option<SliceAssemblerError> {
        self.error
    }

    /// The assembler's invariant.
    pub closed spec fn wf(&self) -> bool {
        &&& self.position <= self.buffer@.len()
        &&& registry_dynamics(self.labels).len() == 0
        &&& generations_agree(self.generations@, registry_generations(self.labels))
    }

    /// Everything but the bytes, the position and the pending error is as in `other`.
    pub closed spec fn same_records(&self, other: &Self) -> bool {
        &&& self.base_addr == other.base_addr
        &&& self.buffer@.len() == other.buffer@.len()
        &&& registry_statics(self.labels) == registry_statics(other.labels)
        &&& registry_generations(self.labels) == registry_generations(other.labels)
        &&& self.statics@ == other.statics@
        &&& self.dynamics@ == other.dynamics@
    }

    /// An assembler over `buffer`, which will reside at `base_addr`.
    pub fn new(buffer: Vec<u8>, base_addr: usize) -> (a: Self)
        ensures
            a.wf(),
            a.bytes() == buffer@,
            a.pos() == 0,
            a.base() == base_addr,
            a.pending() is None,
            a.label_offsets() == LabelOffsets::empty(),
            a.label_generations() == Generations::empty(),
            a.static_relocs().len() == 0,
            a.dynamic_relocs().len() == 0,
    {
        SliceAssembler {
            base_addr,
            buffer,
            position: 0,
            labels: registry_new(),
            generations: Vec::new(),
            statics: Vec::new(),
            dynamics: Vec::new(),
            error: None,
        }
    }

    /// The buffer, giving up the assembler.
    pub fn into_buffer(self) -> (b: Vec<u8>)
        ensures
            b@ == self.bytes(),
    {
        self.buffer
    }

    /// The current offset into the buffer: how many bytes have been written.
    pub fn offset(&self) -> (o: usize)
        ensures
            o == self.pos(),
    {
        self.position
    }

    /// The size of the buffer.
    pub fn capacity(&self) -> (n: usize)
        ensures
            n == self.bytes().len(),
    {
        self.buffer.len()
    }

    /// The generation of the local label `name`: how many times it has been defined, if at
    /// all.
    pub fn local_generation(&self, name: &'static str) -> (g: Option<usize>)
        requires
            self.wf(),
        ensures
            g == (if self.label_generations().contains_key(key(name)) {
                Some(self.label_generations()[key(name)])
            } else {
                None::<usize>
            }),
    {
        match self.find_generation(name) {
            Some((_, g)) => Some(g),
            None => None,
        }
    }

    /// Writes a byte at the current offset, which must lie inside the buffer: assembled code
    /// that does not fit is a fault of the caller.
    pub fn push(&mut self, byte: u8)
        requires
            old(self).wf(),
            old(self).pos() < old(self).bytes().len(),
        ensures
            final(self).wf(),
            final(self).same_records(old(self)),
            final(self).bytes() == old(self).bytes().update(old(self).pos() as int, byte),
            final(self).pos() == old(self).pos() + 1,
            final(self).pending() == old(self).pending(),
    {
        let len = self.buffer.len();
        assert(self.position < len);
        self.buffer.set(self.position, byte);
        self.position = self.position + 1;
    }

    /// Where `name` stands in the generation list, with its generation.
    fn find_generation(&self, name: &'static str) -> (r: Option<(usize, usize)>)
        requires
            self.wf(),
        ensures
            match r {
                Some((i, g)) => {
                    &&& i < self.generations@.len()
                    &&& key(self.generations@[i as int].0) == key(name)
                    &&& self.label_generations().contains_key(key(name))
                    &&& g == self.label_generations()[key(name)]
                },
                None => !self.label_generations().contains_key(key(name)),
            },
    {
        let mut i: usize = 0;
        while i < self.generations.len()
            invariant
                self.wf(),
                i <= self.generations@.len(),
                forall|j: int| 0 <= j < i ==> key(self.generations@[j].0) != key(name),
            decreases self.generations@.len() - i,
        {
            let (n, g) = self.generations[i];
            if same_name(n, name) {
                return Some((i, g));
            }
            i += 1;
        }
        proof {
            if self.label_generations().contains_key(key(name)) {
                let gens = registry_generations(self.labels);
                assert(gens.contains_key(key(name)));
            }
        }
        None
    }

    /// Defines the local label `name` at the current offset: the name's next generation.
    pub fn local_label(&mut self, name: &'static str)
        requires
            old(self).wf(),
            old(self).label_generations().contains_key(key(name)) ==> old(
                self,
            ).label_generations()[key(name)] < usize::MAX,
        ensures
            final(self).wf(),
            final(self).label_generations() == old(self).label_generations().insert(
                key(name),
                next_generation(old(self).label_generations(), key(name)),
            ),
            final(self).label_offsets() == old(self).label_offsets().insert(
                (key(name), next_generation(old(self).label_generations(), key(name))),
                old(self).pos(),
            ),
            final(self).bytes() == old(self).bytes(),
            final(self).pos() == old(self).pos(),
            final(self).pending() == old(self).pending(),
            final(self).static_relocs() == old(self).static_relocs(),
            final(self).dynamic_relocs() == old(self).dynamic_relocs(),
            final(self).base() == old(self).base(),
    {
        let found = self.find_generation(name);
        let ghost old_list = self.generations@;
        let ghost old_gens = registry_generations(self.labels);
        registry_define_local(&mut self.labels, name, self.position);
        let ghost new_gens = registry_generations(self.labels);
        match found {
            Some((i, g)) => {
                self.generations.set(i, (name, g + 1));
                proof {
                    let list = self.generations@;
                    assert forall|k: Seq<u8>| #[trigger] new_gens.contains_key(k) implies exists|
                        j: int,
                    | 0 <= j < list.len() && key(list[j].0) == k by {
                        if k != key(name) {
                            assert(old_gens.contains_key(k));
                            let j = choose|j: int|
                                0 <= j < old_list.len() && key(old_list[j].0) == k;
                            assert(list[j] == old_list[j]);
                        } else {
                            assert(key(list[i as int].0) == k);
                        }
                    }
                }
            },
            None => {
                self.generations.push((name, 1));
                proof {
                    let list = self.generations@;
                    assert(list[old_list.len() as int] == (name, 1usize));
                    assert forall|a: int, b: int|
                        0 <= a < b < list.len() implies key(list[a].0) != key(list[b].0) by {
                        if b == old_list.len() {
                            assert(old_gens.contains_key(key(old_list[a].0)));
                        } else {
                            assert(list[a] == old_list[a] && list[b] == old_list[b]);
                        }
                    }
                    assert forall|k: Seq<u8>| #[trigger] new_gens.contains_key(k) implies exists|
                        j: int,
                    | 0 <= j < list.len() && key(list[j].0) == k by {
                        if k != key(name) {
                            assert(old_gens.contains_key(k));
                            let j = choose|j: int|
                                0 <= j < old_list.len() && key(old_list[j].0) == k;
                            assert(list[j] == old_list[j]);
                        } else {
                            assert(key(list[old_list.len() as int].0) == k);
                        }
                    }
                }
            },
        }
    }

    /// Defines the global label `name` at the current offset; a second definition of the same
    /// name records [`SliceAssemblerError::DefineGlobalLabel`] and changes no label.
    pub fn global_label(&mut self, name: &'static str)
        requires
            old(self).wf(),
        ensures
            final(self).wf(),
            final(self).label_generations() == old(self).label_generations(),
            old(self).label_offsets().contains_key((key(name), 0usize)) ==> {
                &&& final(self).label_offsets() == old(self).label_offsets()
                &&& final(self).pending() == Some(
                    SliceAssemblerError::DefineGlobalLabel(
                        AsmError::DuplicateLabel(LabelRef::Global(name)),
                    ),
                )
            },
            !old(self).label_offsets().contains_key((key(name), 0usize)) ==> {
                &&& final(self).label_offsets() == old(self).label_offsets().insert(
                    (key(name), 0usize),
                    old(self).pos(),
                )
                &&& final(self).pending() == old(self).pending()
            },
            final(self).bytes() == old(self).bytes(),
            final(self).pos() == old(self).pos(),
            final(self).static_relocs() == old(self).static_relocs(),
            final(self).dynamic_relocs() == old(self).dynamic_relocs(),
            final(self).base() == old(self).base(),
    {
        if !registry_define_global(&mut self.labels, name, self.position) {
            self.error = Some(
                SliceAssemblerError::DefineGlobalLabel(
                    AsmError::DuplicateLabel(LabelRef::Global(name)),
                ),
            );
        }
    }

    /// Defines the dynamic label `id` at the current offset. The assembler's registry makes no
    /// dynamic labels, so every such label is unknown to it: the definition records
    /// [`SliceAssemblerError::DefineDynamicLabel`] and changes no label.
    pub fn dynamic_label(&mut self, id: DynamicLabel)
        requires
            old(self).wf(),
        ensures
            final(self).wf(),
            final(self).same_records(old(self)),
            final(self).bytes() == old(self).bytes(),
            final(self).pos() == old(self).pos(),
            final(self).pending() == Some(
                SliceAssemblerError::DefineDynamicLabel(AsmError::UnknownLabel(LabelRef::Dynamic(id))),
            ),
    {
        match registry_define_dynamic(&mut self.labels, id, self.position) {
            DefineOutcome::Defined => {},
            DefineOutcome::Duplicate => {
                self.error = Some(
                    SliceAssemblerError::DefineDynamicLabel(
                        AsmError::DuplicateLabel(LabelRef::Dynamic(id)),
                    ),
                );
            },
            DefineOutcome::Unknown => {
                self.error = Some(
                    SliceAssemblerError::DefineDynamicLabel(
                        AsmError::UnknownLabel(LabelRef::Dynamic(id)),
                    ),
                );
            },
        }
    }

    /// Records a relocation to the next definition of the local label `name` (the first, if
    /// none is defined yet); the relocation's field ends `field_offset` bytes before the
    /// current offset.
    pub fn forward_relocation(
        &mut self,
        name: &'static str,
        target_offset: isize,
        field_offset: u8,
        ref_offset: u8,
        kind: u8,
    )
        requires
            old(self).wf(),
            old(self).label_generations().contains_key(key(name)) ==> old(
                self,
            ).label_generations()[key(name)] < usize::MAX,
        ensures
            final(self).wf(),
            final(self).static_relocs() == old(self).static_relocs().push(
                (
                    Patch {
                        location: old(self).pos(),
                        target_offset,
                        field_offset,
                        ref_offset,
                        relocation: kind,
                    },
                    StaticRef {
                        name,
                        version: next_generation(old(self).label_generations(), key(name)),
                    },
                ),
            ),
            final(self).label_offsets() == old(self).label_offsets(),
            final(self).label_generations() == old(self).label_generations(),
            final(self).dynamic_relocs() == old(self).dynamic_relocs(),
            final(self).bytes() == old(self).bytes(),
            final(self).pos() == old(self).pos(),
            final(self).pending() == old(self).pending(),
            final(self).base() == old(self).base(),
    {
        let version = match self.find_generation(name) {
            Some((_, g)) => g + 1,
            None => 1,
        };
        let patch = Patch {
            location: self.position,
            target_offset,
            field_offset,
            ref_offset,
            relocation: kind,
        };
        self.statics.push((patch, StaticRef { name, version }));
    }

    /// Records a relocation to the latest definition of the local label `name`; if there is
    /// none, [`SliceAssemblerError::PlaceLocalReference`] is recorded instead.
    pub fn backward_relocation(
        &mut self,
        name: &'static str,
        target_offset: isize,
        field_offset: u8,
        ref_offset: u8,
        kind: u8,
    )
        requires
            old(self).wf(),
        ensures
            final(self).wf(),
            old(self).label_generations().contains_key(key(name)) ==> {
                &&& final(self).static_relocs() == old(self).static_relocs().push(
                    (
                        Patch {
                            location: old(self).pos(),
                            target_offset,
                            field_offset,
                            ref_offset,
                            relocation: kind,
                        },
                        StaticRef { name, version: old(self).label_generations()[key(name)] },
                    ),
                )
                &&& final(self).pending() == old(self).pending()
            },
            !old(self).label_generations().contains_key(key(name)) ==> {
                &&& final(self).static_relocs() == old(self).static_relocs()
                &&& final(self).pending() == Some(
                    SliceAssemblerError::PlaceLocalReference(
                        AsmError::UnknownLabel(LabelRef::Local(name)),
                    ),
                )
            },
            final(self).label_offsets() == old(self).label_offsets(),
            final(self).label_generations() == old(self).label_generations(),
            final(self).dynamic_relocs() == old(self).dynamic_relocs(),
            final(self).bytes() == old(self).bytes(),
            final(self).pos() == old(self).pos(),
            final(self).base() == old(self).base(),
    {
        match self.find_generation(name) {
            Some((_, g)) => {
                let patch = Patch {
                    location: self.position,
                    target_offset,
                    field_offset,
                    ref_offset,
                    relocation: kind,
                };
                self.statics.push((patch, StaticRef { name, version: g }));
            },
            None => {
                self.error = Some(
                    SliceAssemblerError::PlaceLocalReference(
                        AsmError::UnknownLabel(LabelRef::Local(name)),
                    ),
                );
            },
        }
    }

    /// Records a relocation to the global label `name`.
    pub fn global_relocation(
        &mut self,
        name: &'static str,
        target_offset: isize,
        field_offset: u8,
        ref_offset: u8,
        kind: u8,
    )
        requires
            old(self).wf(),
        ensures
            final(self).wf(),
            final(self).static_relocs() == old(self).static_relocs().push(
                (
                    Patch {
                        location: old(self).pos(),
                        target_offset,
                        field_offset,
                        ref_offset,
                        relocation: kind,
                    },
                    StaticRef { name, version: 0 },
                ),
            ),
            final(self).label_offsets() == old(self).label_offsets(),
            final(self).label_generations() == old(self).label_generations(),
            final(self).dynamic_relocs() == old(self).dynamic_relocs(),
            final(self).bytes() == old(self).bytes(),
            final(self).pos() == old(self).pos(),
            final(self).pending() == old(self).pending(),
            final(self).base() == old(self).base(),
    {
        let patch = Patch {
            location: self.position,
            target_offset,
            field_offset,
            ref_offset,
            relocation: kind,
        };
        self.statics.push((patch, StaticRef { name, version: 0 }));
    }

    /// Records a relocation to the dynamic label `id`.
    pub fn dynamic_relocation(
        &mut self,
        id: DynamicLabel,
        target_offset: isize,
        field_offset: u8,
        ref_offset: u8,
        kind: u8,
    )
        requires
            old(self).wf(),
        ensures
            final(self).wf(),
            final(self).dynamic_relocs() == old(self).dynamic_relocs().push(
                (
                    Patch {
                        location: old(self).pos(),
                        target_offset,
                        field_offset,
                        ref_offset,
                        relocation: kind,
                    },
                    id,
                ),
            ),
            final(self).label_offsets() == old(self).label_offsets(),
            final(self).label_generations() == old(self).label_generations(),
            final(self).static_relocs() == old(self).static_relocs(),
            final(self).bytes() == old(self).bytes(),
            final(self).pos() == old(self).pos(),
            final(self).pending() == old(self).pending(),
            final(self).base() == old(self).base(),
    {
        let patch = Patch {
            location: self.position,
            target_offset,
            field_offset,
            ref_offset,
            relocation: kind,
        };
        self.dynamics.push((patch, id));
    }

    /// Patches the relocation whose field ends `field_offset` bytes before the current offset
    /// with the value `value` at once; if the value does not fit the field,
    /// [`SliceAssemblerError::PatchValueRelocation`] is recorded and nothing is written.
    pub fn value_relocation(&mut self, value: usize, field_offset: u8, ref_offset: u8, kind: u8)
        requires
            old(self).wf(),
            patch_in_bounds(
                Patch {
                    location: old(self).pos(),
                    target_offset: 0,
                    field_offset,
                    ref_offset,
                    relocation: kind,
                },
                old(self).bytes().len(),
            ),
        ensures
            final(self).wf(),
            final(self).same_records(old(self)),
            final(self).pos() == old(self).pos(),
            ({
                let p = Patch {
                    location: old(self).pos(),
                    target_offset: 0,
                    field_offset,
                    ref_offset,
                    relocation: kind,
                };
                let v = site_value(p, value, old(self).base());
                &&& fits_signed(v, reloc_size(kind)) ==> final(self).bytes() == patched(
                    old(self).bytes(),
                    p,
                    v,
                ) && final(self).pending() == old(self).pending()
                &&& !fits_signed(v, reloc_size(kind)) ==> final(self).bytes() == old(self).bytes()
                    && final(self).pending() == Some(
                    SliceAssemblerError::PatchValueRelocation(
                        AsmError::ImpossibleRelocation(RelocTarget::Value(value)),
                    ),
                )
            }),
    {
        let patch = Patch {
            location: self.position,
            target_offset: 0,
            field_offset,
            ref_offset,
            relocation: kind,
        };
        if !patch_site(&mut self.buffer, patch, self.base_addr, value) {
            self.error = Some(
                SliceAssemblerError::PatchValueRelocation(
                    AsmError::ImpossibleRelocation(RelocTarget::Value(value)),
                ),
            );
        }
        proof {
            let v = site_value(patch, value, self.base_addr);
            lemma_le_bytes_len((v % (pow256(reloc_size(kind)) as int)) as nat, reloc_size(kind));
        }
    }

    /// Whether [`SliceAssembler::commit`] can run without reaching what dynasmrt refuses with a
    /// panic: true when an error is pending, else exactly when every static relocation that is
    /// reached and whose label is defined lies inside the buffer, has an accepted encoding and
    /// a value within `isize`.
    pub fn commit_is_safe(&self) -> (b: bool)
        requires
            self.wf(),
        ensures
            b == (self.pending() is Some || static_pass_safe(
                self.bytes(),
                self.static_relocs(),
                self.label_offsets(),
                self.base(),
                self.static_relocs().len(),
            )),
    {
        if self.error.is_some() {
            return true;
        }
        let ghost buf = self.buffer@;
        let ghost relocs = self.statics@;
        let ghost offsets = registry_statics(self.labels);
        let ghost base = self.base_addr;
        let mut i: usize = 0;
        while i < self.statics.len()
            invariant
                self.wf(),
                self.error is None,
                buf == self.buffer@,
                relocs == self.statics@,
                offsets == registry_statics(self.labels),
                base == self.base_addr,
                i <= relocs.len(),
                static_pass_safe(buf, relocs, offsets, base, i as nat),
                static_pass(buf, relocs, offsets, base, i as nat).1 is None,
            decreases relocs.len() - i,
        {
            let (p, l) = self.statics[i];
            proof {
                lemma_static_pass_len(buf, relocs, offsets, base, i as nat);
            }
            match registry_resolve_static(&self.labels, l.name, l.version) {
                None => {
                    proof {
                        lemma_static_pass_safe_after_stop(
                            buf,
                            relocs,
                            offsets,
                            base,
                            (i + 1) as nat,
                            relocs.len(),
                        );
                    }
                    return true;
                },
                Some(target) => {
                    if !check_in_bounds(p, self.buffer.len()) {
                        proof {
                            if static_pass_safe(buf, relocs, offsets, base, relocs.len()) {
                                lemma_static_pass_safe_prefix(
                                    buf,
                                    relocs,
                                    offsets,
                                    base,
                                    (i + 1) as nat,
                                    relocs.len(),
                                );
                            }
                        }
                        return false;
                    }
                    match value_of(p, target, self.base_addr) {
                        None => {
                            proof {
                                if static_pass_safe(buf, relocs, offsets, base, relocs.len()) {
                                    lemma_static_pass_safe_prefix(
                                        buf,
                                        relocs,
                                        offsets,
                                        base,
                                        (i + 1) as nat,
                                        relocs.len(),
                                    );
                                }
                            }
                            return false;
                        },
                        Some(v) => {
                            if !value_fits(v, p.relocation) {
                                proof {
                                    lemma_static_pass_safe_after_stop(
                                        buf,
                                        relocs,
                                        offsets,
                                        base,
                                        (i + 1) as nat,
                                        relocs.len(),
                                    );
                                }
                                return true;
                            }
                        },
                    }
                },
            }
            i += 1;
        }
        true
    }

    /// Reports the error recorded last, if there is one (and forgets it). Otherwise resolves
    /// and patches the static relocations in the order they were made, then the dynamic ones,
    /// stopping at the first failure; all static relocations are dropped once the first one
    /// is processed, and the dynamic ones once their turn comes.
    pub fn commit(&mut self) -> (r: Result<(), SliceAssemblerError>)
        requires
            old(self).wf(),
            old(self).pending() is None ==> static_pass_safe(
                old(self).bytes(),
                old(self).static_relocs(),
                old(self).label_offsets(),
                old(self).base(),
                old(self).static_relocs().len(),
            ),
        ensures
            final(self).wf(),
            final(self).pending() is None,
            final(self).pos() == old(self).pos(),
            final(self).base() == old(self).base(),
            final(self).label_offsets() == old(self).label_offsets(),
            final(self).label_generations() == old(self).label_generations(),
            r is Ok ==> final(self).static_relocs().len() == 0 && final(self).dynamic_relocs().len()
                == 0,
            old(self).pending() is Some ==> {
                &&& r == Err::<(), SliceAssemblerError>(old(self).pending().unwrap())
                &&& final(self).bytes() == old(self).bytes()
                &&& final(self).static_relocs() == old(self).static_relocs()
                &&& final(self).dynamic_relocs() == old(self).dynamic_relocs()
            },
            old(self).pending() is None ==> {
                let pass = static_pass(
                    old(self).bytes(),
                    old(self).static_relocs(),
                    old(self).label_offsets(),
                    old(self).base(),
                    old(self).static_relocs().len(),
                );
                &&& final(self).bytes() == pass.0
                &&& final(self).static_relocs().len() == 0
                &&& pass.1 is Some ==> r == Err::<(), SliceAssemblerError>(pass.1.unwrap())
                    && final(self).dynamic_relocs() == old(self).dynamic_relocs()
                &&& pass.1 is None ==> final(self).dynamic_relocs().len() == 0 && r == if old(
                    self,
                ).dynamic_relocs().len() == 0 {
                    Ok::<(), SliceAssemblerError>(())
                } else {
                    Err(
                        SliceAssemblerError::ResolveDynamic(
                            AsmError::UnknownLabel(LabelRef::Dynamic(old(self).dynamic_relocs()[0].1)),
                        ),
                    )
                }
            },
    {
        if let Some(e) = self.error.take() {
            return Err(e);
        }
        let ghost buf0 = self.buffer@;
        let ghost offsets = registry_statics(self.labels);
        let mut statics: Vec<(Patch, StaticRef)> = Vec::new();
        core::mem::swap(&mut statics, &mut self.statics);
        let mut i: usize = 0;
        while i < statics.len()
            invariant
                self.wf(),
                self.error is None,
                old(self).pending() is None,
                self.position == old(self).pos(),
                self.base_addr == old(self).base(),
                registry_statics(self.labels) == offsets,
                offsets == old(self).label_offsets(),
                registry_generations(self.labels) == old(self).label_generations(),
                self.statics@.len() == 0,
                self.dynamics@ == old(self).dynamic_relocs(),
                buf0 == old(self).bytes(),
                statics@ == old(self).static_relocs(),
                i <= statics@.len(),
                static_pass(buf0, statics@, offsets, self.base_addr, i as nat) == (
                    self.buffer@,
                    None::<SliceAssemblerError>,
                ),
                static_pass_safe(buf0, statics@, offsets, self.base_addr, statics@.len()),
            decreases statics@.len() - i,
        {
            let (p, l) = statics[i];
            proof {
                lemma_static_pass_safe_prefix(
                    buf0,
                    statics@,
                    offsets,
                    self.base_addr,
                    (i + 1) as nat,
                    statics@.len(),
                );
                lemma_static_pass_len(buf0, statics@, offsets, self.base_addr, i as nat);
                lemma_static_pass_len(buf0, statics@, offsets, self.base_addr, (i + 1) as nat);
            }
            match registry_resolve_static(&self.labels, l.name, l.version) {
                None => {
                    proof {
                        lemma_static_pass_stops(
                            buf0,
                            statics@,
                            offsets,
                            self.base_addr,
                            (i + 1) as nat,
                            statics@.len(),
                        );
                    }
                    return Err(SliceAssemblerError::ResolveStatic(AsmError::UnknownLabel(label_ref_of(l))));
                },
                Some(target) => {
                    if !patch_site(&mut self.buffer, p, self.base_addr, target) {
                        proof {
                            lemma_static_pass_stops(
                                buf0,
                                statics@,
                                offsets,
                                self.base_addr,
                                (i + 1) as nat,
                                statics@.len(),
                            );
                        }
                        return Err(
                            SliceAssemblerError::PatchStatic(
                                AsmError::ImpossibleRelocation(static_target_of(l)),
                            ),
                        );
                    }
                },
            }
            i += 1;
        }
        let mut dynamics: Vec<(Patch, DynamicLabel)> = Vec::new();
        core::mem::swap(&mut dynamics, &mut self.dynamics);
        let mut j: usize = 0;
        // No dynamic label resolves in this assembler's registry, so the first dynamic
        // relocation ends the loop.
        while j < dynamics.len()
            invariant
                self.wf(),
                j == 0,
                self.error is None,
                old(self).pending() is None,
                self.position == old(self).pos(),
                self.base_addr == old(self).base(),
                registry_statics(self.labels) == old(self).label_offsets(),
                registry_generations(self.labels) == old(self).label_generations(),
                self.statics@.len() == 0,
                self.dynamics@.len() == 0,
                dynamics@ == old(self).dynamic_relocs(),
                static_pass(
                    old(self).bytes(),
                    old(self).static_relocs(),
                    old(self).label_offsets(),
                    old(self).base(),
                    old(self).static_relocs().len(),
                ) == (self.buffer@, None::<SliceAssemblerError>),
            decreases dynamics@.len() - j,
        {
            let (p, id) = dynamics[j];
            match registry_resolve_dynamic(&self.labels, id) {
                None => {
                    return Err(
                        SliceAssemblerError::ResolveDynamic(
                            AsmError::UnknownLabel(LabelRef::Dynamic(id)),
                        ),
                    );
                },
                Some(target) => {
                    if !patch_site(&mut self.buffer, p, self.base_addr, target) {
                        return Err(
                            SliceAssemblerError::PatchDynamic(
                                AsmError::ImpossibleRelocation(RelocTarget::Dynamic(id)),
                            ),
                        );
                    }
                },
            }
            j += 1;
        }
        Ok(())
    }

    /// Writes `data` from the current offset on; it must fit in the buffer.
    pub fn extend(&mut self, data: &[u8])
        requires
            old(self).wf(),
            old(self).pos() + data@.len() <= old(self).bytes().len(),
        ensures
            final(self).wf(),
            final(self).same_records(old(self)),
            final(self).bytes() == written(old(self).bytes(), old(self).pos() as int, data@),
            final(self).pos() == old(self).pos() + data@.len(),
            final(self).pending() == old(self).pending(),
    {
        let ghost start = self.position as int;
        let ghost orig = self.buffer@;
        let mut i: usize = 0;
        assert(orig =~= written(orig, start, data@.subrange(0, 0)));
        while i < data.len()
            invariant
                self.wf(),
                self.same_records(old(self)),
                orig == old(self).bytes(),
                start == old(self).pos(),
                start + data@.len() <= orig.len(),
                i <= data@.len(),
                self.pos() == start + i,
                self.bytes() == written(orig, start, data@.subrange(0, i as int)),
                self.pending() == old(self).pending(),
            decreases data@.len() - i,
        {
            assert(written(orig, start, data@.subrange(0, i + 1)) =~= written(
                orig,
                start,
                data@.subrange(0, i as int),
            ).update(start + i, data@[i as int]));
            self.push(data[i]);
            i += 1;
        }
        assert(data@.subrange(0, i as int) =~= data@);
    }

    /// Writes `with` until the offset is a multiple of `alignment`; the filler must fit in the
    /// buffer.
    pub fn align(&mut self, alignment: usize, with: u8)
        requires
            old(self).wf(),
            alignment > 0,
            old(self).pos() + pad_len(old(self).pos(), alignment) <= old(self).bytes().len(),
        ensures
            final(self).wf(),
            final(self).same_records(old(self)),
            final(self).bytes() == written(
                old(self).bytes(),
                old(self).pos() as int,
                Seq::new(pad_len(old(self).pos(), alignment) as nat, |j: int| with),
            ),
            final(self).pos() == old(self).pos() + pad_len(old(self).pos(), alignment),
            final(self).pending() == old(self).pending(),
    {
        let ghost start = self.position as int;
        let ghost orig = self.buffer@;
        let offset = self.position % alignment;
        assert(orig =~= written(orig, start, Seq::new(0, |j: int| with)));
        if offset != 0 {
            let mut i: usize = offset;
            while i < alignment
                invariant
                    self.wf(),
                    self.same_records(old(self)),
                    orig == old(self).bytes(),
                    start == old(self).pos(),
                    start + alignment - offset <= orig.len(),
                    0 < offset <= i <= alignment,
                    offset == start % (alignment as int),
                    self.pos() == start + (i - offset),
                    self.bytes() == written(orig, start, Seq::new((i - offset) as nat, |j: int| with)),
                    self.pending() == old(self).pending(),
                decreases alignment - i,
            {
                let ghost d = i - offset;
                assert(written(orig, start, Seq::new((d + 1) as nat, |j: int| with)) =~= written(
                    orig,
                    start,
                    Seq::new(d as nat, |j: int| with),
                ).update(start + d, with));
                self.push(with);
                i += 1;
            }
        }
    }
}

} // verus!
