//! What symbol extraction reads of an ELF file, as plain values, and the
//! calls into `goblin` that read it.
use vstd::prelude::*;

verus! {

/// A section header: its name in the section-name table, when that table
/// holds one, and the fields extraction reads.
#[derive(Debug)]
pub struct SectionRecord {
    pub name: Option<String>,
    pub kind: u32,
    pub flags: u64,
    pub address: u64,
    pub offset: u64,
    pub size: u64,
}

/// A program header: the fields extraction reads.
#[derive(Debug)]
pub struct SegmentRecord {
    pub kind: u32,
    pub flags: u32,
    pub offset: u64,
    pub file_size: u64,
    pub virtual_address: u64,
}

/// A symbol-table entry: its name in the matching string table, when that
/// table holds one, and its `st_info` and `st_other` bytes.
#[derive(Debug)]
pub struct SymbolRecord {
    pub name: Option<String>,
    pub info: u8,
    pub other: u8,
}

/// An ELF file as extraction reads it.
#[derive(Debug)]
pub struct ElfImage {
    pub machine: u16,
    pub is_64: bool,
    pub entry: u64,
    pub sections: Vec<SectionRecord>,
    pub segments: Vec<SegmentRecord>,
    pub dynamic_symbols: Vec<SymbolRecord>,
    pub symbols: Vec<SymbolRecord>,
}

/// What `goblin::elf::Elf::parse` makes of `bytes`, read into an image:
/// `None` when it fails.
pub uninterp spec fn parsed_elf(bytes: Seq<u8>) -> Option<ElfImage>;

/// `goblin::elf::Elf`, a parsed ELF file.
#[verifier::external_type_specification]
#[verifier::external_body]
pub struct ExElf<'a>(goblin::elf::Elf<'a>);

/// A parsed ELF file with the bytes it was parsed from.
pub struct ParsedElf<'a> {
    bytes: &'a [u8],
    elf: goblin::elf::Elf<'a>,
}

impl<'a> ParsedElf<'a> {
    /// The bytes the file was parsed from.
    pub closed spec fn bytes(self) -> Seq<u8> {
        self.bytes@
    }
}

/// Parses `bytes` with `Elf::parse`, keeping the bytes beside the parsed
/// file; `None` when parsing fails.
///
/// The contract names the result; the ELF format is not restated.
#[verifier::external_body]
fn parse_elf<'a>(bytes: &'a [u8]) -> (r: Option<ParsedElf<'a>>)
    ensures
        (r is Some) == (parsed_elf(bytes@) is Some),
        r matches Some(p) ==> p.bytes() == bytes@,
{
    let elf = goblin::elf::Elf::parse(bytes).ok()?;
    Some(ParsedElf { bytes, elf })
}

/// Reads the header's `e_machine`, the class (`is_64`) and the entry point.
#[verifier::external_body]
fn elf_header(p: &ParsedElf) -> (r: (u16, bool, u64))
    requires
        parsed_elf(p.bytes()) is Some,
    ensures
        r.0 == parsed_elf(p.bytes())->Some_0.machine,
        r.1 == parsed_elf(p.bytes())->Some_0.is_64,
        r.2 == parsed_elf(p.bytes())->Some_0.entry,
{
    (p.elf.header.e_machine, p.elf.is_64, p.elf.entry)
}

/// Reads the section headers, in order, each with its name from
/// `shdr_strtab.get_at`.
#[verifier::external_body]
fn elf_sections(p: &ParsedElf) -> (r: Vec<SectionRecord>)
    requires
        parsed_elf(p.bytes()) is Some,
    ensures
        r@ == parsed_elf(p.bytes())->Some_0.sections@,
{
    let mut out = Vec::new();
    for s in p.elf.section_headers.iter() {
        let name = p.elf.shdr_strtab.get_at(s.sh_name).map(|n| n.to_string());
        out.push(SectionRecord { name, kind: s.sh_type, flags: s.sh_flags, address: s.sh_addr, offset: s.sh_offset, size: s.sh_size });
    }
    out
}

/// Reads the program headers, in order.
#[verifier::external_body]
fn elf_segments(p: &ParsedElf) -> (r: Vec<SegmentRecord>)
    requires
        parsed_elf(p.bytes()) is Some,
    ensures
        r@ == parsed_elf(p.bytes())->Some_0.segments@,
{
    let mut out = Vec::new();
    for g in p.elf.program_headers.iter() {
        out.push(SegmentRecord { kind: g.p_type, flags: g.p_flags, offset: g.p_offset, file_size: g.p_filesz, virtual_address: g.p_vaddr });
    }
    out
}

/// Reads the dynamic symbol table (`dynsyms`), in order, each entry with its
/// name from `dynstrtab.get_at`.
#[verifier::external_body]
fn elf_dynamic_symbols(p: &ParsedElf) -> (r: Vec<SymbolRecord>)
    requires
        parsed_elf(p.bytes()) is Some,
    ensures
        r@ == parsed_elf(p.bytes())->Some_0.dynamic_symbols@,
{
    let mut out = Vec::new();
    for s in p.elf.dynsyms.iter() {
        let name = p.elf.dynstrtab.get_at(s.st_name).map(|n| n.to_string());
        out.push(SymbolRecord { name, info: s.st_info, other: s.st_other });
    }
    out
}

/// Reads the symbol table (`syms`), in order, each entry with its name from
/// `strtab.get_at`.
#[verifier::external_body]
fn elf_symbols(p: &ParsedElf) -> (r: Vec<SymbolRecord>)
    requires
        parsed_elf(p.bytes()) is Some,
    ensures
        r@ == parsed_elf(p.bytes())->Some_0.symbols@,
{
    let mut out = Vec::new();
    for s in p.elf.syms.iter() {
        let name = p.elf.strtab.get_at(s.st_name).map(|n| n.to_string());
        out.push(SymbolRecord { name, info: s.st_info, other: s.st_other });
    }
    out
}

/// The image of `bytes`, or `None` when they are no ELF file.
pub fn read_image(bytes: &[u8]) -> (r: Option<ElfImage>)
    ensures
        (r is Some) == (parsed_elf(bytes@) is Some),
        r matches Some(img) ==> {
            let p = parsed_elf(bytes@)->Some_0;
            &&& img.machine == p.machine
            &&& img.is_64 == p.is_64
            &&& img.entry == p.entry
            &&& img.sections@ == p.sections@
            &&& img.segments@ == p.segments@
            &&& img.dynamic_symbols@ == p.dynamic_symbols@
            &&& img.symbols@ == p.symbols@
        },
{
    let parsed = parse_elf(bytes)?;
    let (machine, is_64, entry) = elf_header(&parsed);
    let sections = elf_sections(&parsed);
    let segments = elf_segments(&parsed);
    let dynamic_symbols = elf_dynamic_symbols(&parsed);
    let symbols = elf_symbols(&parsed);
    Some(ElfImage { machine, is_64, entry, sections, segments, dynamic_symbols, symbols })
}

} // verus!
