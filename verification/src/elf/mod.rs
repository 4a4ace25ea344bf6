//! Symbol extraction from ELF files: the symbol table when there is one,
//! else the call destinations found by disassembling the code.
pub mod arch;
pub mod image;
pub mod symbol_table;
pub mod code_region;
pub mod disasm;

use vstd::prelude::*;
use vstd::string::StringExecFns;
use crate::elf::arch::{elf_class, elf_class_name, machine_architecture, Architecture};
use crate::elf::code_region::{find_code_context, image_selection, selected_code};
use crate::elf::disasm::{destinations_of, disassembly, extract_call_destinations};
use crate::elf::image::{parsed_elf, read_image, ElfImage};
use crate::elf::symbol_table::{
    chosen_table, extract_symbol_table_symbols, kept_names, table_choice,
};
use crate::error::TelfhashError;
use crate::model::{ExtractionDebug, SymbolExtraction};
use crate::order::sorted_paths_of;

verus! {

broadcast use vstd::string::group_string_axioms;

/// The note an extraction from call destinations carries.
pub open spec fn fallback_note() -> Seq<char> {
    "fallback: no usable symbol table, using call destinations"@
}

/// An extraction from the symbol table of an image: the kept names in
/// ascending order, with the class, the table's name and its counts.
pub open spec fn table_extraction(image: ElfImage, dynamic: bool, x: SymbolExtraction) -> bool {
    let table = chosen_table(image, dynamic);
    &&& x.symbols.deep_view() == sorted_paths_of(kept_names(table))
    &&& x.debug.elf_class matches Some(c) && c@ == elf_class_name(image.is_64)
    &&& x.debug.symbol_table matches Some(t) && t@ == (if dynamic {
        "SHT_DYNSYM"@
    } else {
        "SHT_SYMTAB"@
    })
    &&& x.debug.symbols_found == table.len()
    &&& x.debug.symbols_considered == x.symbols@.len()
    &&& x.debug.fallback_reason is None
}

/// An extraction from the call destinations of `code`, disassembled at
/// `address`: the destinations, each once, with the class and the fallback
/// note; a failed disassembly is its message.
pub open spec fn fallback_extraction(
    image: ElfImage,
    architecture: Architecture,
    address: u64,
    code: Seq<u8>,
    r: Result<SymbolExtraction, TelfhashError>,
) -> bool {
    match disassembly(architecture, code, address) {
        Ok(recs) => r matches Ok(x) && {
            &&& x.symbols.deep_view() == destinations_of(architecture, recs)
            &&& x.debug.elf_class matches Some(c) && c@ == elf_class_name(image.is_64)
            &&& x.debug.symbol_table is None
            &&& x.debug.symbols_found == 0
            &&& x.debug.symbols_considered == x.symbols@.len()
            &&& x.debug.fallback_reason matches Some(f) && f@ == fallback_note()
        },
        Err(m) => r matches Err(TelfhashError::Message(x)) && x@ == m,
    }
}

/// What extracting the symbols of an image read from `bytes` yields: the
/// symbol table when there is one; else an unsupported architecture, a
/// missing or out-of-bounds code region, or the call destinations of the
/// code.
pub open spec fn image_extraction_answer(
    image: ElfImage,
    bytes: Seq<u8>,
    r: Result<SymbolExtraction, TelfhashError>,
) -> bool {
    match table_choice(image.sections@) {
        Some(dynamic) => r matches Ok(x) && table_extraction(image, dynamic, x),
        None => match machine_architecture(image.machine) {
            None => r matches Err(TelfhashError::UnsupportedArchitecture),
            Some(architecture) => match selected_code(image_selection(image), bytes) {
                Err(m) => r matches Err(TelfhashError::Message(x)) && x@ == m,
                Ok((address, code)) => fallback_extraction(image, architecture, address, code, r),
            },
        },
    }
}

/// Reads symbols from ELF files with `goblin`, and disassembles code with
/// `capstone` when a file has no symbol table.
pub struct GoblinElfSymbolExtractor;

impl GoblinElfSymbolExtractor {
    /// The symbols of an image read from `bytes`, as
    /// `image_extraction_answer` says.
    pub fn extract_from_image(&self, image: &ElfImage, bytes: &[u8]) -> (r: Result<
        SymbolExtraction,
        TelfhashError,
    >)
        ensures
            image_extraction_answer(*image, bytes@, r),
    {
        let class = elf_class(image.is_64);
        if let Some((symbols, source)) = extract_symbol_table_symbols(image) {
            let considered = symbols.len();
            let debug = ExtractionDebug {
                elf_class: Some(class),
                symbol_table: source.symbol_table,
                symbols_found: source.symbols_found,
                symbols_considered: considered,
                fallback_reason: None,
            };
            return Ok(SymbolExtraction { symbols, debug });
        }
        let architecture = Architecture::from_machine(image.machine)?;
        let context = find_code_context(image, bytes)?;
        let destinations = extract_call_destinations(architecture, &context)?;
        let considered = destinations.len();
        let debug = ExtractionDebug {
            elf_class: Some(class),
            symbol_table: None,
            symbols_found: 0,
            symbols_considered: considered,
            fallback_reason: Some(
                String::from_str("fallback: no usable symbol table, using call destinations"),
            ),
        };
        Ok(SymbolExtraction { symbols: destinations, debug })
    }

    /// The symbols of the ELF file `bytes`: an invalid ELF file when
    /// `goblin` cannot parse it, else as `extract_from_image` says of its
    /// image.
    pub fn extract_symbols_from_bytes(&self, bytes: &[u8]) -> (r: Result<
        SymbolExtraction,
        TelfhashError,
    >)
        ensures
            match parsed_elf(bytes@) {
                None => r matches Err(TelfhashError::InvalidElf),
                Some(image) => image_extraction_answer(image, bytes@, r),
            },
    {
        match read_image(bytes) {
            None => Err(TelfhashError::InvalidElf),
            Some(image) => self.extract_from_image(&image, bytes),
        }
    }
}

} // verus!
