//! Reading the runtime image from the bytes of its ELF object file, with the `object` crate:
//! the sections and symbols as plain values, by index.
use crate::loader::{LoadError, RtImage, RtReloc, RtSection, RtSymbol};
use object::{Object, ObjectSection, ObjectSymbol, RelocationFlags, RelocationTarget, SectionIndex, SymbolIndex};
use vstd::prelude::*;

verus! {

// ---------------------------------------------------------------------------------------------
// What `object` reads from the bytes of an object file. Each is a function of the bytes (and
// an index) alone.
// ---------------------------------------------------------------------------------------------

/// Why the bytes do not parse as an object file (`object::File::parse`), if they do not.
pub uninterp spec fn elf_parse_error(elf: Seq<u8>) -> Option<Seq<char>>;

/// The indices of the sections, as `File::sections` lists them.
pub uninterp spec fn elf_section_indices(elf: Seq<u8>) -> Seq<usize>;

/// Whether there is a section with this index (`File::section_by_index`).
pub uninterp spec fn elf_has_section(elf: Seq<u8>, i: usize) -> bool;

/// The name of the section with this index, if it can be read (`ObjectSection::name`).
pub uninterp spec fn elf_section_name(elf: Seq<u8>, i: usize) -> Option<Seq<u8>>;

/// The length of the data of the section with this index, or why the data cannot be read
/// (`ObjectSection::data`).
pub uninterp spec fn elf_section_data_len(elf: Seq<u8>, i: usize) -> Result<usize, Seq<char>>;

/// The alignment of the section with this index (`ObjectSection::align`).
pub uninterp spec fn elf_section_align(elf: Seq<u8>, i: usize) -> u64;

/// The relocations of the section with this index (`ObjectSection::relocations`).
pub uninterp spec fn elf_section_relocs(elf: Seq<u8>, i: usize) -> Seq<RtReloc>;

/// The indices of the symbols, as `File::symbols` lists them.
pub uninterp spec fn elf_symbol_indices(elf: Seq<u8>) -> Seq<usize>;

/// Whether there is a symbol with this index (`File::symbol_by_index`).
pub uninterp spec fn elf_has_symbol(elf: Seq<u8>, i: usize) -> bool;

/// The name of the symbol with this index, if it can be read (`ObjectSymbol::name`).
pub uninterp spec fn elf_symbol_name(elf: Seq<u8>, i: usize) -> Option<Seq<u8>>;

/// The section that the symbol with this index is defined in (`ObjectSymbol::section_index`).
pub uninterp spec fn elf_symbol_section(elf: Seq<u8>, i: usize) -> Option<usize>;

/// The address of the symbol with this index (`ObjectSymbol::address`).
pub uninterp spec fn elf_symbol_address(elf: Seq<u8>, i: usize) -> u64;

/// `object::File::parse`: why the bytes do not parse, if they do not.
#[verifier::external_body]
fn parse_error(elf: &[u8]) -> (r: Option<String>)
    ensures
        match r {
            Some(m) => elf_parse_error(elf@) == Some(m@),
            None => elf_parse_error(elf@) is None,
        },
{
    object::File::parse(elf).err().map(|e| e.to_string())
}

/// `File::sections`: the index of each section.
#[verifier::external_body]
fn section_indices(elf: &[u8]) -> (r: Vec<usize>)
    ensures
        r@ == elf_section_indices(elf@),
{
    match object::File::parse(elf) {
        Ok(file) => file.sections().map(|s| s.index().0).collect(),
        Err(_) => Vec::new(),
    }
}

/// `File::section_by_index`: whether the section exists.
#[verifier::external_body]
fn has_section(elf: &[u8], i: usize) -> (r: bool)
    ensures
        r == elf_has_section(elf@, i),
{
    object::File::parse(elf).map_or(false, |file| file.section_by_index(SectionIndex(i)).is_ok())
}

/// `ObjectSection::name` of the section with index `i`, as bytes.
#[verifier::external_body]
fn section_name(elf: &[u8], i: usize) -> (r: Option<Vec<u8>>)
    ensures
        match r {
            Some(n) => elf_section_name(elf@, i) == Some(n@),
            None => elf_section_name(elf@, i) is None,
        },
{
    let file = object::File::parse(elf).ok()?;
    let section = file.section_by_index(SectionIndex(i)).ok()?;
    section.name().ok().map(|n| n.as_bytes().to_vec())
}

/// `ObjectSection::data` of the section with index `i`: its length, or the error's message.
#[verifier::external_body]
fn section_data_len(elf: &[u8], i: usize) -> (r: Result<usize, String>)
    ensures
        match r {
            Ok(n) => elf_section_data_len(elf@, i) == Ok::<usize, Seq<char>>(n),
            Err(m) => elf_section_data_len(elf@, i) == Err::<usize, Seq<char>>(m@),
        },
{
    let file = object::File::parse(elf).map_err(|e| e.to_string())?;
    let section = file.section_by_index(SectionIndex(i)).map_err(|e| e.to_string())?;
    section.data().map(|d| d.len()).map_err(|e| e.to_string())
}

/// `ObjectSection::align` of the section with index `i`.
#[verifier::external_body]
fn section_align(elf: &[u8], i: usize) -> (r: u64)
    ensures
        r == elf_section_align(elf@, i),
{
    let file = object::File::parse(elf);
    file.map_or(0, |f| f.section_by_index(SectionIndex(i)).map_or(0, |s| s.align()))
}

/// `ObjectSection::relocations` of the section with index `i`, as offset, symbol index, ELF
/// type and addend.
#[verifier::external_body]
fn section_relocs(elf: &[u8], i: usize) -> (r: Vec<RtReloc>)
    ensures
        r@ == elf_section_relocs(elf@, i),
{
    let Ok(file) = object::File::parse(elf) else { return Vec::new() };
    let Ok(section) = file.section_by_index(SectionIndex(i)) else { return Vec::new() };
    section.relocations().map(|(offset, r)| RtReloc {
        offset,
        symbol: match r.target() { RelocationTarget::Symbol(s) => Some(s.0), _ => None },
        r_type: match r.flags() { RelocationFlags::Elf { r_type } => Some(r_type.0), _ => None },
        addend: r.addend(),
    }).collect()
}

/// `File::symbols`: the index of each symbol.
#[verifier::external_body]
fn symbol_indices(elf: &[u8]) -> (r: Vec<usize>)
    ensures
        r@ == elf_symbol_indices(elf@),
{
    match object::File::parse(elf) {
        Ok(file) => file.symbols().map(|s| s.index().0).collect(),
        Err(_) => Vec::new(),
    }
}

/// `File::symbol_by_index`: whether the symbol exists.
#[verifier::external_body]
fn has_symbol(elf: &[u8], i: usize) -> (r: bool)
    ensures
        r == elf_has_symbol(elf@, i),
{
    object::File::parse(elf).map_or(false, |file| file.symbol_by_index(SymbolIndex(i)).is_ok())
}

/// `ObjectSymbol::name` of the symbol with index `i`, as bytes.
#[verifier::external_body]
fn symbol_name(elf: &[u8], i: usize) -> (r: Option<Vec<u8>>)
    ensures
        match r {
            Some(n) => elf_symbol_name(elf@, i) == Some(n@),
            None => elf_symbol_name(elf@, i) is None,
        },
{
    let file = object::File::parse(elf).ok()?;
    let symbol = file.symbol_by_index(SymbolIndex(i)).ok()?;
    symbol.name().ok().map(|n| n.as_bytes().to_vec())
}

/// `ObjectSymbol::section_index` of the symbol with index `i`.
#[verifier::external_body]
fn symbol_section(elf: &[u8], i: usize) -> (r: Option<usize>)
    ensures
        r == elf_symbol_section(elf@, i),
{
    let file = object::File::parse(elf).ok()?;
    file.symbol_by_index(SymbolIndex(i)).ok()?.section_index().map(|s| s.0)
}

/// `ObjectSymbol::address` of the symbol with index `i`.
#[verifier::external_body]
fn symbol_address(elf: &[u8], i: usize) -> (r: u64)
    ensures
        r == elf_symbol_address(elf@, i),
{
    let file = object::File::parse(elf);
    file.map_or(0, |f| f.symbol_by_index(SymbolIndex(i)).map_or(0, |s| s.address()))
}

// ---------------------------------------------------------------------------------------------
// The image.
// ---------------------------------------------------------------------------------------------

/// The largest index listed (0 when none is).
pub open spec fn max_index(ix: Seq<usize>) -> usize
    decreases ix.len(),
{
    if ix.len() == 0 {
        0
    } else {
        let m = max_index(ix.drop_last());
        if ix.last() > m {
            ix.last()
        } else {
            m
        }
    }
}

/// The section at index `i` as read from the object file.
pub open spec fn section_read(elf: Seq<u8>, i: usize, s: Option<RtSection>) -> bool {
    match s {
        None => !elf_has_section(elf, i),
        Some(sec) => {
            &&& elf_has_section(elf, i)
            &&& match sec.name {
                Some(n) => elf_section_name(elf, i) == Some(n@),
                None => elf_section_name(elf, i) is None,
            }
            &&& match sec.data_len {
                Ok(n) => elf_section_data_len(elf, i) == Ok::<usize, Seq<char>>(n),
                Err(m) => elf_section_data_len(elf, i) == Err::<usize, Seq<char>>(m@),
            }
            &&& sec.align == elf_section_align(elf, i)
            &&& sec.relocations@ == elf_section_relocs(elf, i)
        },
    }
}

/// The symbol at index `i` as read from the object file.
pub open spec fn symbol_read(elf: Seq<u8>, i: usize, s: Option<RtSymbol>) -> bool {
    match s {
        None => !elf_has_symbol(elf, i),
        Some(sym) => {
            &&& elf_has_symbol(elf, i)
            &&& match sym.name {
                Some(n) => elf_symbol_name(elf, i) == Some(n@),
                None => elf_symbol_name(elf, i) is None,
            }
            &&& sym.section == elf_symbol_section(elf, i)
            &&& sym.address == elf_symbol_address(elf, i)
        },
    }
}

/// The image holds, at every index up to the largest listed one, the section and the symbol
/// of that index, if there is one.
pub open spec fn image_read(elf: Seq<u8>, image: RtImage) -> bool {
    &&& image.sections@.len() == max_index(elf_section_indices(elf)) + 1
    &&& forall|i: int|
        0 <= i < image.sections@.len() ==> section_read(elf, i as usize, #[trigger] image.sections@[i])
    &&& image.symbols@.len() == max_index(elf_symbol_indices(elf)) + 1
    &&& forall|i: int|
        0 <= i < image.symbols@.len() ==> symbol_read(elf, i as usize, #[trigger] image.symbols@[i])
}

fn largest(ix: &Vec<usize>) -> (m: usize)
    ensures
        m == max_index(ix@),
{
    let mut m: usize = 0;
    let mut i: usize = 0;
    assert(ix@.take(0) =~= Seq::<usize>::empty());
    while i < ix.len()
        invariant
            i <= ix@.len(),
            m == max_index(ix@.take(i as int)),
        decreases ix@.len() - i,
    {
        assert(ix@.take(i + 1).drop_last() =~= ix@.take(i as int));
        if ix[i] > m {
            m = ix[i];
        }
        i += 1;
    }
    assert(ix@.take(i as int) =~= ix@);
    m
}

/// Reads the runtime image from the bytes of its object file: each section (name, data
/// length, alignment, relocations) and each symbol (name, section, address) at its index, up
/// to the largest index listed. Bytes that do not parse give [`LoadError::ElfParse`]; an
/// index at `usize::MAX` cannot be tabled and gives [`LoadError::InvalidSectionIndex`].
pub fn read_image(elf: &[u8]) -> (r: Result<RtImage, LoadError>)
    ensures
        elf_parse_error(elf@) is Some <==> r matches Err(LoadError::ElfParse(_)),
        r matches Err(LoadError::ElfParse(m)) ==> elf_parse_error(elf@) == Some(m@),
        r matches Err(e) ==> (e is ElfParse || e is InvalidSectionIndex),
        r matches Err(LoadError::InvalidSectionIndex) <==> (elf_parse_error(elf@) is None && (
        max_index(elf_section_indices(elf@)) == usize::MAX || max_index(elf_symbol_indices(elf@))
            == usize::MAX)),
        r matches Ok(image) ==> image_read(elf@, image),
{
    if let Some(m) = parse_error(elf) {
        return Err(LoadError::ElfParse(m));
    }
    let last_section = largest(&section_indices(elf));
    let last_symbol = largest(&symbol_indices(elf));
    if last_section == usize::MAX || last_symbol == usize::MAX {
        return Err(LoadError::InvalidSectionIndex);
    }
    let mut sections: Vec<Option<RtSection>> = Vec::new();
    let mut i: usize = 0;
    while i <= last_section
        invariant
            last_section == max_index(elf_section_indices(elf@)) < usize::MAX,
            i <= last_section + 1,
            sections@.len() == i,
            forall|k: int| 0 <= k < i ==> section_read(elf@, k as usize, #[trigger] sections@[k]),
        decreases last_section + 1 - i,
    {
        if has_section(elf, i) {
            let section = RtSection {
                name: section_name(elf, i),
                data_len: section_data_len(elf, i),
                align: section_align(elf, i),
                relocations: section_relocs(elf, i),
            };
            sections.push(Some(section));
        } else {
            sections.push(None);
        }
        i += 1;
    }
    let mut symbols: Vec<Option<RtSymbol>> = Vec::new();
    let mut i: usize = 0;
    while i <= last_symbol
        invariant
            last_symbol == max_index(elf_symbol_indices(elf@)) < usize::MAX,
            i <= last_symbol + 1,
            symbols@.len() == i,
            forall|k: int| 0 <= k < i ==> symbol_read(elf@, k as usize, #[trigger] symbols@[k]),
        decreases last_symbol + 1 - i,
    {
        if has_symbol(elf, i) {
            let symbol = RtSymbol {
                name: symbol_name(elf, i),
                section: symbol_section(elf, i),
                address: symbol_address(elf, i),
            };
            symbols.push(Some(symbol));
        } else {
            symbols.push(None);
        }
        i += 1;
    }
    Ok(RtImage { sections, symbols })
}

} // verus!
