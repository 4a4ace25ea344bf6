use telfhash_rs::elf::arch::Architecture;
use telfhash_rs::elf::code_region::{select_code_region, CodeSelection, SectionCandidate, SegmentCandidate};
use telfhash_rs::elf::disasm::{collect_call_destinations, hex_u64, parse_destination_operand};
use telfhash_rs::elf::symbol_table::normalize_symbol;
use telfhash_rs::elf::GoblinElfSymbolExtractor;
use telfhash_rs::elf::image::ElfImage;
use telfhash_rs::elf::symbol_table::extract_symbol_table_symbols;
use telfhash_rs::error::TelfhashError;

#[test]
fn prefers_section_containing_entry() {
    let sections = [SectionCandidate {
        address: 0x401000,
        size: 0x40,
        file_offset: 0x1000,
        name: Some(".init"),
        executable: true,
    }];
    let segments = [SegmentCandidate {
        file_offset: 0x2000,
        file_size: 0x80,
        virtual_address: 0x402000,
        executable: true,
    }];

    let selection = select_code_region(0x401020, 0x400000, &sections, &segments);

    assert_eq!(
        selection,
        Some(CodeSelection::EntrySection {
            file_offset: 0x1000,
            size: 0x40,
            address: 0x401000,
        })
    );
}

#[test]
fn falls_back_to_text_section_when_entry_is_elsewhere() {
    let sections = [SectionCandidate {
        address: 0x403000,
        size: 0x60,
        file_offset: 0x3000,
        name: Some(".text"),
        executable: true,
    }];
    let segments = [SegmentCandidate {
        file_offset: 0x5000,
        file_size: 0x90,
        virtual_address: 0x405000,
        executable: true,
    }];

    let selection = select_code_region(0x401020, 0x400000, &sections, &segments);

    assert_eq!(
        selection,
        Some(CodeSelection::TextSection {
            file_offset: 0x3000,
            size: 0x60,
            address: 0x403000,
        })
    );
}

#[test]
fn falls_back_to_executable_segment_without_text_section() {
    let selection = select_code_region(
        0x401050,
        0x400000,
        &[],
        &[SegmentCandidate {
            file_offset: 0x1200,
            file_size: 0x200,
            virtual_address: 0x401000,
            executable: true,
        }],
    );

    assert_eq!(
        selection,
        Some(CodeSelection::ExecutableSegment {
            file_offset: 0x1200,
            size: 0x200,
            entry_offset: 0x50,
            address: 0x401050,
        })
    );
}

#[test]
fn prefers_executable_text_over_non_executable_text() {
    let sections = [
        SectionCandidate {
            address: 0x402000,
            size: 0x40,
            file_offset: 0x2000,
            name: Some(".text"),
            executable: false,
        },
        SectionCandidate {
            address: 0x403000,
            size: 0x80,
            file_offset: 0x3000,
            name: Some(".text"),
            executable: true,
        },
    ];

    let selection = select_code_region(0x401000, 0x400000, &sections, &[]);

    assert_eq!(
        selection,
        Some(CodeSelection::TextSection {
            file_offset: 0x3000,
            size: 0x80,
            address: 0x403000,
        })
    );
}

#[test]
fn executable_segment_uses_zero_offset_when_entry_is_outside_segment() {
    let selection = select_code_region(
        0x500000,
        0x400000,
        &[],
        &[SegmentCandidate {
            file_offset: 0x1200,
            file_size: 0x200,
            virtual_address: 0x401000,
            executable: true,
        }],
    );

    assert_eq!(
        selection,
        Some(CodeSelection::ExecutableSegment {
            file_offset: 0x1200,
            size: 0x200,
            entry_offset: 0,
            address: 0x500000,
        })
    );
}

#[test]
fn returns_none_when_no_executable_region_exists() {
    assert_eq!(select_code_region(0x401000, 0x400000, &[], &[]), None);
}

#[test]
fn entry_in_non_executable_section_still_beats_text() {
    let sections = [
        SectionCandidate {
            address: 0x401000,
            size: 0x10,
            file_offset: 0x100,
            name: None,
            executable: false,
        },
        SectionCandidate {
            address: 0x402000,
            size: 0x10,
            file_offset: 0x200,
            name: Some(".text"),
            executable: true,
        },
    ];

    assert_eq!(
        select_code_region(0x401008, 0x400000, &sections, &[]),
        Some(CodeSelection::EntrySection {
            file_offset: 0x100,
            size: 0x10,
            address: 0x400100,
        })
    );
}

#[test]
fn recognises_supported_machines() {
    assert!(matches!(Architecture::from_machine(3), Ok(Architecture::X86)));
    assert!(matches!(Architecture::from_machine(62), Ok(Architecture::X64)));
    assert!(matches!(Architecture::from_machine(40), Ok(Architecture::Arm)));
    assert!(matches!(Architecture::from_machine(183), Ok(Architecture::Aarch64)));
    assert!(matches!(Architecture::from_machine(8), Ok(Architecture::Mips)));
    assert!(matches!(Architecture::from_machine(10), Ok(Architecture::Mips)));
    assert!(matches!(Architecture::from_machine(51), Ok(Architecture::Mips)));
    assert!(matches!(
        Architecture::from_machine(20),
        Err(TelfhashError::UnsupportedArchitecture)
    ));
}

fn texts(pairs: &[(&str, &str)]) -> Vec<(String, String)> {
    pairs
        .iter()
        .map(|(mnemonic, op_str)| (mnemonic.to_string(), op_str.to_string()))
        .collect()
}

#[test]
fn collects_call_destinations_for_all_supported_architectures() {
    assert_eq!(
        collect_call_destinations(
            Architecture::X86,
            &texts(&[
                ("push", "ebp"),
                ("call", "0x401000"),
                ("call", "eax"),
                ("call", "0x402000"),
                ("call", "0x401000"),
            ])
        ),
        vec!["401000".to_string(), "402000".to_string()]
    );
    assert_eq!(
        collect_call_destinations(
            Architecture::X64,
            &texts(&[
                ("push", "rbp"),
                ("call", "0x401020"),
                ("call", "qword ptr [rip + 0x2fe2]"),
                ("call", "0x402100"),
                ("jmp", "0x403000"),
            ])
        ),
        vec!["401020".to_string(), "402100".to_string()]
    );
    assert_eq!(
        collect_call_destinations(
            Architecture::Arm,
            &texts(&[("bl", "#0x10434"), ("blx", "#0x20010"), ("b", "#0x30000")])
        ),
        vec!["10434".to_string(), "20010".to_string()]
    );
    assert_eq!(
        collect_call_destinations(
            Architecture::Aarch64,
            &texts(&[("bl", "#0x400754"), ("blr", "#0x1"), ("bl", "#0x401000")])
        ),
        vec!["400754".to_string(), "401000".to_string()]
    );
    assert_eq!(
        collect_call_destinations(
            Architecture::Mips,
            &texts(&[
                ("lw", "$t9, 0x801234($gp)"),
                ("lw", "$t8, 0x1($gp)"),
                ("lw", "$t9, 0x804000($gp)"),
            ])
        ),
        vec!["801234".to_string(), "804000".to_string()]
    );
}

#[test]
fn parses_destination_operands_like_the_string_methods() {
    assert_eq!(
        parse_destination_operand(Architecture::X64, "call", "0x0x12"),
        Some("12".to_string())
    );
    assert_eq!(parse_destination_operand(Architecture::X64, "jmp", "0x12"), None);
    assert_eq!(
        parse_destination_operand(Architecture::Mips, "lw", "$t9, 0x10"),
        Some("10".to_string())
    );
    assert_eq!(parse_destination_operand(Architecture::Mips, "lw", "$t9,0x10"), None);
}

#[test]
fn formats_hexadecimal_like_lower_hex() {
    assert_eq!(hex_u64(0), "0");
    assert_eq!(hex_u64(0x40007d), "40007d");
    assert_eq!(hex_u64(u64::MAX), "ffffffffffffffff");
    assert_eq!(hex_u64(-1i64 as u64), format!("{:x}", -1i64));
}

#[test]
fn normalizes_only_global_default_functions() {
    assert_eq!(normalize_symbol("Connect", 0x12, 0), Some("connect".to_string()));
    assert_eq!(normalize_symbol("connect", 0x11, 0), None);
    assert_eq!(normalize_symbol("connect", 0x02, 0), None);
    assert_eq!(normalize_symbol("connect", 0x12, 2), None);
    assert_eq!(normalize_symbol("", 0x12, 0), None);
    assert_eq!(normalize_symbol("memcpy", 0x12, 0), None);
}

fn le16(out: &mut Vec<u8>, v: u16) {
    out.extend_from_slice(&v.to_le_bytes());
}

fn le32(out: &mut Vec<u8>, v: u32) {
    out.extend_from_slice(&v.to_le_bytes());
}

fn le64(out: &mut Vec<u8>, v: u64) {
    out.extend_from_slice(&v.to_le_bytes());
}



fn tiny_elf(machine: u16, code: &[u8]) -> Vec<u8> {
    let mut out = vec![0x7f, b'E', b'L', b'F', 2, 1, 1, 0, 0, 0, 0, 0, 0, 0, 0, 0];
    le16(&mut out, 2);
    le16(&mut out, machine);
    le32(&mut out, 1);
    le64(&mut out, 0x400078);
    le64(&mut out, 64);
    le64(&mut out, 0);
    le32(&mut out, 0);
    le16(&mut out, 64);
    le16(&mut out, 56);
    le16(&mut out, 1);
    le16(&mut out, 64);
    le16(&mut out, 0);
    le16(&mut out, 0);
    le32(&mut out, 1);
    le32(&mut out, 5);
    le64(&mut out, 0x78);
    le64(&mut out, 0x400078);
    le64(&mut out, 0x400078);
    le64(&mut out, code.len() as u64);
    le64(&mut out, code.len() as u64);
    le64(&mut out, 0x1000);
    out.extend_from_slice(code);
    out
}

#[test]
fn rejects_bytes_that_are_no_elf_file() {
    let extractor = GoblinElfSymbolExtractor;
    assert!(matches!(
        extractor.extract_symbols_from_bytes(b"!<arch>\nnot an elf"),
        Err(TelfhashError::InvalidElf)
    ));
}

#[test]
fn stripped_file_of_unknown_machine_is_unsupported() {
    let extractor = GoblinElfSymbolExtractor;
    let bytes = tiny_elf(20, &[0x90, 0xc3]);
    assert!(matches!(
        extractor.extract_symbols_from_bytes(&bytes),
        Err(TelfhashError::UnsupportedArchitecture)
    ));
}

#[test]
fn stripped_x86_64_file_falls_back_to_call_destinations() {
    let extractor = GoblinElfSymbolExtractor;
    let bytes = tiny_elf(62, &[0xe8, 0, 0, 0, 0, 0xc3]);
    let extraction = extractor.extract_symbols_from_bytes(&bytes).unwrap();

    assert_eq!(extraction.symbols, vec!["40007d".to_string()]);
    assert_eq!(extraction.debug.elf_class.as_deref(), Some("ELFCLASS64"));
    assert_eq!(extraction.debug.symbol_table, None);
    assert_eq!(extraction.debug.symbols_considered, 1);
    assert_eq!(
        extraction.debug.fallback_reason.as_deref(),
        Some("fallback: no usable symbol table, using call destinations")
    );
}

#[test]
fn segment_past_the_end_of_the_file_is_reported() {
    let extractor = GoblinElfSymbolExtractor;
    let mut bytes = tiny_elf(62, &[0xe8, 0, 0, 0, 0, 0xc3]);
    bytes.truncate(bytes.len() - 2);
    match extractor.extract_symbols_from_bytes(&bytes) {
        Err(TelfhashError::Message(message)) => assert_eq!(message, "Segment exceeds file bounds"),
        other => panic!("unexpected {other:?}"),
    }
}

fn symbol(name: Option<&str>, info: u8, other: u8) -> telfhash_rs::elf::image::SymbolRecord {
    telfhash_rs::elf::image::SymbolRecord {
        name: name.map(|n| n.to_string()),
        info,
        other,
    }
}

fn section(name: &str, kind: u32, size: u64) -> telfhash_rs::elf::image::SectionRecord {
    telfhash_rs::elf::image::SectionRecord {
        name: Some(name.to_string()),
        kind,
        flags: 0,
        address: 0,
        offset: 0,
        size,
    }
}

#[test]
fn symbol_table_symbols_are_kept_sorted_and_lower_case() {
    let image = ElfImage {
        machine: 62,
        is_64: false,
        entry: 0,
        sections: vec![
            section(".empty", 11, 0),
            section(".symtab", 2, 64),
            section(".dynsym", 11, 64),
        ],
        segments: vec![],
        dynamic_symbols: vec![symbol(Some("Ignored"), 0x12, 0)],
        symbols: vec![
            symbol(Some("Zeta"), 0x12, 0),
            symbol(Some("alpha"), 0x12, 0),
            symbol(Some("main"), 0x12, 0),
            symbol(None, 0x12, 0),
            symbol(Some("local"), 0x02, 0),
            symbol(Some("Beta"), 0x12, 0),
        ],
    };

    let (symbols, debug) = extract_symbol_table_symbols(&image).unwrap();
    assert_eq!(symbols, vec!["alpha", "beta", "zeta"]);
    assert_eq!(debug.symbol_table.as_deref(), Some("SHT_SYMTAB"));
    assert_eq!(debug.symbols_found, 6);
    assert_eq!(debug.symbols_considered, 3);

    let extraction = GoblinElfSymbolExtractor.extract_from_image(&image, &[]).unwrap();
    assert_eq!(extraction.symbols, vec!["alpha", "beta", "zeta"]);
    assert_eq!(extraction.debug.elf_class.as_deref(), Some("ELFCLASS32"));
    assert_eq!(extraction.debug.fallback_reason, None);
}
