//! The symbols of an ELF symbol table that take part in a hash.
use vstd::prelude::*;
use vstd::string::StrSliceExecFns;
use vstd::string::StringExecFns;
use crate::elf::image::{ElfImage, SectionRecord, SymbolRecord};
use crate::exclusions::{excluded, should_exclude};
use crate::model::ExtractionDebug;
use crate::order::{
    lemma_is_sorted_paths_of, lemma_path_le_total_ordering, path_le, paths_sorted, sort_paths,
    sorted_paths_of,
};
use crate::text::{ascii_lower, lemma_ascii_lower_idempotent, to_ascii_lower};

verus! {

broadcast use vstd::string::group_string_axioms;

/// Section type of a symbol table.
pub const SHT_SYMTAB: u32 = 2;
/// Section type of a dynamic symbol table.
pub const SHT_DYNSYM: u32 = 11;
/// Symbol binding of a global symbol.
pub const STB_GLOBAL: u8 = 1;
/// Symbol type of a function.
pub const STT_FUNC: u8 = 2;
/// Symbol visibility of a default-visible symbol.
pub const STV_DEFAULT: u8 = 0;

/// The binding of a symbol: the high four bits of `st_info`.
pub fn st_bind(info: u8) -> (r: u8)
    ensures
        r == info >> 4,
{
    info >> 4
}

/// The type of a symbol: the low four bits of `st_info`.
pub fn st_type(info: u8) -> (r: u8)
    ensures
        r == info & 0xf,
{
    info & 0xf
}

/// The visibility of a symbol: the low three bits of `st_other`.
pub fn st_visibility(other: u8) -> (r: u8)
    ensures
        r == other & 0x7,
{
    other & 0x7
}

/// Which table the extraction reads: the first section of non-zero size
/// that is a dynamic symbol table (`Some(true)`) or a symbol table
/// (`Some(false)`); `None` when there is neither.
pub open spec fn table_choice(sections: Seq<SectionRecord>) -> Option<bool>
    decreases sections.len(),
{
    if sections.len() == 0 {
        None
    } else if sections[0].size != 0 && sections[0].kind == SHT_DYNSYM {
        Some(true)
    } else if sections[0].size != 0 && sections[0].kind == SHT_SYMTAB {
        Some(false)
    } else {
        table_choice(sections.drop_first())
    }
}

/// The name a symbol contributes: a named, global, default-visible function
/// whose name is not excluded contributes its name in ASCII lower case.
pub open spec fn normalized(name: Seq<char>, info: u8, other: u8) -> Option<Seq<char>> {
    if (info & 0xf) == STT_FUNC && (info >> 4) == STB_GLOBAL && (other & 0x7) == STV_DEFAULT
        && name.len() > 0 && !excluded(name) {
        Some(ascii_lower(name))
    } else {
        None
    }
}

/// The name a table entry contributes, if any.
pub open spec fn entry_name(sym: SymbolRecord) -> Option<Seq<char>> {
    match sym.name {
        Some(n) => normalized(n@, sym.info, sym.other),
        None => None,
    }
}

/// The names the entries of a table contribute, in table order.
pub open spec fn kept_names(table: Seq<SymbolRecord>) -> Seq<Seq<char>>
    decreases table.len(),
{
    if table.len() == 0 {
        Seq::empty()
    } else {
        let prev = kept_names(table.drop_last());
        match entry_name(table.last()) {
            Some(n) => prev.push(n),
            None => prev,
        }
    }
}

/// The table the extraction reads.
pub open spec fn chosen_table(image: ElfImage, dynamic: bool) -> Seq<SymbolRecord> {
    if dynamic {
        image.dynamic_symbols@
    } else {
        image.symbols@
    }
}

/// What reading the symbol table of an image yields: nothing when it has no
/// symbol table, else the kept names in ascending order, with the table's
/// name and its counts.
pub open spec fn symbol_table_answer(
    image: ElfImage,
    r: Option<(Vec<String>, ExtractionDebug)>,
) -> bool {
    match table_choice(image.sections@) {
        None => r is None,
        Some(dynamic) => r matches Some(found) && {
            let table = chosen_table(image, dynamic);
            &&& found.0.deep_view() == sorted_paths_of(kept_names(table))
            &&& found.1.elf_class is None
            &&& found.1.symbol_table matches Some(t) && t@ == (if dynamic {
                "SHT_DYNSYM"@
            } else {
                "SHT_SYMTAB"@
            })
            &&& found.1.symbols_found == table.len()
            &&& found.1.symbols_considered == found.0@.len()
            &&& found.1.fallback_reason is None
        },
    }
}

/// The name a symbol contributes to the hash, if any.
pub fn normalize_symbol(name: &str, info: u8, other: u8) -> (r: Option<String>)
    ensures
        match normalized(name@, info, other) {
            Some(n) => r matches Some(s) && s@ == n,
            None => r is None,
        },
{
    if st_type(info) != STT_FUNC || st_bind(info) != STB_GLOBAL || st_visibility(other)
        != STV_DEFAULT || name.unicode_len() == 0 || should_exclude(name) {
        return None;
    }
    Some(to_ascii_lower(name))
}

/// Which table to read, as `table_choice` says.
fn choose_table(sections: &Vec<SectionRecord>) -> (r: Option<bool>)
    ensures
        r == table_choice(sections@),
{
    let mut i: usize = 0;
    proof {
        assert(sections@.skip(0) =~= sections@);
    }
    while i < sections.len()
        invariant
            0 <= i <= sections@.len(),
            table_choice(sections@) == table_choice(sections@.skip(i as int)),
        decreases sections@.len() - i,
    {
        let s = &sections[i];
        proof {
            assert(sections@.skip(i as int).drop_first() =~= sections@.skip(i + 1));
        }
        if s.size != 0 && s.kind == SHT_DYNSYM {
            return Some(true);
        }
        if s.size != 0 && s.kind == SHT_SYMTAB {
            return Some(false);
        }
        i = i + 1;
    }
    None
}

/// The names the entries of a table contribute, in table order.
fn table_names(table: &Vec<SymbolRecord>) -> (r: Vec<String>)
    ensures
        r.deep_view() == kept_names(table@),
{
    let mut out: Vec<String> = Vec::new();
    for i in 0..table.len()
        invariant
            out.deep_view() == kept_names(table@.take(i as int)),
    {
        let sym = &table[i];
        let ghost before = out.deep_view();
        proof {
            assert(table@.take(i + 1).drop_last() =~= table@.take(i as int));
            assert(table@.take(i + 1).last() == table@[i as int]);
        }
        match &sym.name {
            Some(name) => {
                match normalize_symbol(name.as_str(), sym.info, sym.other) {
                    Some(n) => {
                        out.push(n);
                        proof {
                            assert(out.deep_view() =~= before.push(out@.last()@));
                        }
                    },
                    None => {},
                }
            },
            None => {},
        }
    }
    proof {
        assert(table@.take(table@.len() as int) =~= table@);
    }
    out
}

/// The symbols of the image's symbol table that take part in a hash, in
/// ascending order, with the table's diagnostics; `None` when the image has
/// no symbol table of non-zero size.
pub fn extract_symbol_table_symbols(image: &ElfImage) -> (r: Option<(Vec<String>, ExtractionDebug)>)
    ensures
        symbol_table_answer(*image, r),
{
    let dynamic = choose_table(&image.sections)?;
    let table = if dynamic {
        &image.dynamic_symbols
    } else {
        &image.symbols
    };
    let mut symbols = table_names(table);
    let ghost kept = symbols.deep_view();
    sort_paths(&mut symbols);
    proof {
        lemma_is_sorted_paths_of(kept, symbols.deep_view());
    }
    let name = if dynamic {
        String::from_str("SHT_DYNSYM")
    } else {
        String::from_str("SHT_SYMTAB")
    };
    let considered = symbols.len();
    let debug = ExtractionDebug {
        elf_class: None,
        symbol_table: Some(name),
        symbols_found: table.len(),
        symbols_considered: considered,
        fallback_reason: None,
    };
    Some((symbols, debug))
}

/// Every name a table contributes is in ASCII lower case.
proof fn lemma_kept_names_lower(table: Seq<SymbolRecord>, x: Seq<char>)
    requires
        kept_names(table).contains(x),
    ensures
        ascii_lower(x) == x,
    decreases table.len(),
{
    let prev = kept_names(table.drop_last());
    match entry_name(table.last()) {
        Some(n) => {
            if prev.contains(x) {
                lemma_kept_names_lower(table.drop_last(), x);
            } else {
                let m = choose|m: int| 0 <= m < prev.push(n).len() && prev.push(n)[m] == x;
                if m < prev.len() {
                    assert(prev[m] == x);
                }
                let name = table.last().name->Some_0;
                lemma_ascii_lower_idempotent(name@);
            }
        },
        None => {
            lemma_kept_names_lower(table.drop_last(), x);
        },
    }
}

/// The symbols read from a symbol table are in ascending order, each in
/// ASCII lower case, and they are exactly the names the table contributes.
pub proof fn law_table_symbols_sorted_lower_case(table: Seq<SymbolRecord>)
    ensures
        paths_sorted(sorted_paths_of(kept_names(table))),
        sorted_paths_of(kept_names(table)).to_multiset() == kept_names(table).to_multiset(),
        forall|i: int|
            0 <= i < sorted_paths_of(kept_names(table)).len() ==> ascii_lower(
                #[trigger] sorted_paths_of(kept_names(table))[i],
            ) == sorted_paths_of(kept_names(table))[i],
{
    let kept = kept_names(table);
    let leq = |a: Seq<char>, b: Seq<char>| path_le(a, b);
    lemma_path_le_total_ordering();
    kept.lemma_sort_by_ensures(leq);
    let sorted = sorted_paths_of(kept);
    assert forall|a: int, b: int| 0 <= a < b < sorted.len() implies path_le(
        #[trigger] sorted[a],
        #[trigger] sorted[b],
    ) by {
        assert(leq(sorted[a], sorted[b]));
    }
    assert forall|i: int| 0 <= i < sorted.len() implies ascii_lower(#[trigger] sorted[i]) == sorted[i] by {
        assert(sorted.contains(sorted[i]));
        assert(kept.contains(sorted[i]));
        lemma_kept_names_lower(table, sorted[i]);
    }
}

/// A section of non-zero size that is a dynamic symbol table or a symbol
/// table.
pub open spec fn is_symbol_section(s: SectionRecord) -> bool {
    s.size != 0 && (s.kind == SHT_DYNSYM || s.kind == SHT_SYMTAB)
}

/// Which table is read is decided by the first section of non-zero size
/// that is a dynamic symbol table or a symbol table, wherever later ones
/// lie: the dynamic symbols when it is a dynamic symbol table, the symbols
/// when it is a symbol table; with no such section, none is read.
pub proof fn law_first_symbol_section_decides(sections: Seq<SectionRecord>, i: int)
    ensures
        0 <= i < sections.len() && is_symbol_section(sections[i]) && (forall|j: int|
            0 <= j < i ==> !is_symbol_section(#[trigger] sections[j])) ==> table_choice(sections)
            == Some(sections[i].kind == SHT_DYNSYM),
        (forall|j: int| 0 <= j < sections.len() ==> !is_symbol_section(#[trigger] sections[j]))
            ==> table_choice(sections) is None,
    decreases sections.len(),
{
    if sections.len() > 0 {
        let rest = sections.drop_first();
        law_first_symbol_section_decides(rest, i - 1);
        if 0 <= i < sections.len() && is_symbol_section(sections[i]) && (forall|j: int|
            0 <= j < i ==> !is_symbol_section(#[trigger] sections[j])) && i > 0 {
            assert(!is_symbol_section(sections[0]));
            assert(rest[i - 1] == sections[i]);
            assert forall|j: int| 0 <= j < i - 1 implies !is_symbol_section(#[trigger] rest[j]) by {
                assert(rest[j] == sections[j + 1]);
            }
        }
        if forall|j: int| 0 <= j < sections.len() ==> !is_symbol_section(#[trigger] sections[j]) {
            assert(!is_symbol_section(sections[0]));
            assert forall|j: int| 0 <= j < rest.len() implies !is_symbol_section(#[trigger] rest[j]) by {
                assert(rest[j] == sections[j + 1]);
            }
        }
    }
}

/// When a dynamic symbol table of non-zero size comes before every
/// non-empty symbol table, reading the symbol table of an image reads the
/// dynamic symbols and names the table `SHT_DYNSYM`; when a non-empty
/// symbol table comes before every non-empty dynamic symbol table, it reads
/// the symbols and names the table `SHT_SYMTAB`.
pub proof fn law_table_read_is_the_first(
    image: ElfImage,
    r: Option<(Vec<String>, ExtractionDebug)>,
    i: int,
)
    requires
        symbol_table_answer(image, r),
        0 <= i < image.sections@.len(),
        is_symbol_section(image.sections@[i]),
        forall|j: int| 0 <= j < i ==> !is_symbol_section(#[trigger] image.sections@[j]),
    ensures
        image.sections@[i].kind == SHT_DYNSYM ==> (r is Some && r->Some_0.0.deep_view()
            == sorted_paths_of(kept_names(image.dynamic_symbols@)) && r->Some_0.1.symbol_table is Some
            && r->Some_0.1.symbol_table->Some_0@ == "SHT_DYNSYM"@),
        image.sections@[i].kind == SHT_SYMTAB ==> (r is Some && r->Some_0.0.deep_view()
            == sorted_paths_of(kept_names(image.symbols@)) && r->Some_0.1.symbol_table is Some
            && r->Some_0.1.symbol_table->Some_0@ == "SHT_SYMTAB"@),
{
    law_first_symbol_section_decides(image.sections@, i);
}

} // verus!
