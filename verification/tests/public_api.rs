use telfhash_rs::{
    GroupingMode, HashValue, NullDigestReason, TelfhashEngine, TelfhashOptions, TelfhashOutcome,
};

/// A relocatable-style ELF file whose only content is a symbol table of
/// global functions with the given names.
fn elf_with_functions(is_64: bool, machine: u16, names: &[&str]) -> Vec<u8> {
    let (ehsize, shentsize, symentsize) = if is_64 { (64usize, 64usize, 24usize) } else { (52, 40, 16) };

    let mut strtab = vec![0u8];
    let mut name_offsets = Vec::new();
    for name in names {
        name_offsets.push(strtab.len() as u32);
        strtab.extend_from_slice(name.as_bytes());
        strtab.push(0);
    }
    let shstrtab = b"\0.symtab\0.strtab\0.shstrtab\0".to_vec();

    let mut symtab = vec![0u8; symentsize];
    for offset in &name_offsets {
        if is_64 {
            symtab.extend_from_slice(&offset.to_le_bytes());
            symtab.push(0x12);
            symtab.push(0);
            symtab.extend_from_slice(&1u16.to_le_bytes());
            symtab.extend_from_slice(&0x1000u64.to_le_bytes());
            symtab.extend_from_slice(&16u64.to_le_bytes());
        } else {
            symtab.extend_from_slice(&offset.to_le_bytes());
            symtab.extend_from_slice(&0x1000u32.to_le_bytes());
            symtab.extend_from_slice(&16u32.to_le_bytes());
            symtab.push(0x12);
            symtab.push(0);
            symtab.extend_from_slice(&1u16.to_le_bytes());
        }
    }

    let symtab_off = ehsize;
    let strtab_off = symtab_off + symtab.len();
    let shstrtab_off = strtab_off + strtab.len();
    let shoff = (shstrtab_off + shstrtab.len() + 7) / 8 * 8;

    let mut out = vec![0x7f, b'E', b'L', b'F', if is_64 { 2 } else { 1 }, 1, 1, 0, 0, 0, 0, 0, 0, 0, 0, 0];
    let word = |out: &mut Vec<u8>, v: u64| {
        if is_64 {
            out.extend_from_slice(&v.to_le_bytes());
        } else {
            out.extend_from_slice(&(v as u32).to_le_bytes());
        }
    };
    out.extend_from_slice(&1u16.to_le_bytes());
    out.extend_from_slice(&machine.to_le_bytes());
    out.extend_from_slice(&1u32.to_le_bytes());
    word(&mut out, 0);
    word(&mut out, 0);
    word(&mut out, shoff as u64);
    out.extend_from_slice(&0u32.to_le_bytes());
    out.extend_from_slice(&(ehsize as u16).to_le_bytes());
    out.extend_from_slice(&0u16.to_le_bytes());
    out.extend_from_slice(&0u16.to_le_bytes());
    out.extend_from_slice(&(shentsize as u16).to_le_bytes());
    out.extend_from_slice(&4u16.to_le_bytes());
    out.extend_from_slice(&3u16.to_le_bytes());
    assert_eq!(out.len(), ehsize);

    out.extend_from_slice(&symtab);
    out.extend_from_slice(&strtab);
    out.extend_from_slice(&shstrtab);
    out.resize(shoff, 0);

    let mut section = |out: &mut Vec<u8>, name: u32, kind: u32, offset: usize, size: usize, link: u32, entsize: usize| {
        out.extend_from_slice(&name.to_le_bytes());
        out.extend_from_slice(&kind.to_le_bytes());
        word(out, 0);
        word(out, 0);
        word(out, offset as u64);
        word(out, size as u64);
        out.extend_from_slice(&link.to_le_bytes());
        out.extend_from_slice(&1u32.to_le_bytes());
        word(out, 1);
        word(out, entsize as u64);
    };
    section(&mut out, 0, 0, 0, 0, 0, 0);
    section(&mut out, 1, 2, symtab_off, symtab.len(), 2, symentsize);
    section(&mut out, 9, 3, strtab_off, strtab.len(), 0, 0);
    section(&mut out, 17, 3, shstrtab_off, shstrtab.len(), 0, 0);
    out
}

const LIBRARY_FUNCTIONS: &[&str] = &[
    "archive_open", "archive_close", "archive_read_header", "archive_write_header",
    "buffer_append", "buffer_clear", "buffer_reserve", "buffer_shrink",
    "config_load", "config_save", "config_lookup", "config_merge",
    "crypto_digest_init", "crypto_digest_update", "crypto_digest_final", "crypto_random_bytes",
    "event_loop_run", "event_loop_stop", "event_timer_add", "event_timer_cancel",
    "file_lock", "file_unlock", "file_rename", "file_truncate",
    "hash_table_insert", "hash_table_remove", "hash_table_find", "hash_table_resize",
    "log_debug", "log_info", "log_warning", "log_error",
    "net_connect", "net_listen", "net_accept", "net_send",
    "net_receive", "parse_integer", "parse_boolean", "parse_duration",
    "queue_push", "queue_pop", "queue_peek", "queue_drain",
    "thread_pool_create", "thread_pool_submit", "thread_pool_join", "thread_pool_destroy",
    "utf8_validate", "utf8_decode", "utf8_encode", "version_compare",
];

#[test]
fn library_api_hashes_and_groups_fixtures() {
    let engine = TelfhashEngine::new();
    let options = TelfhashOptions {
        grouping_mode: GroupingMode::Compatible,
        ..Default::default()
    };

    let results = engine
        .hash_paths(
            vec![
                (
                    "tests/fixtures/bin/i386_dyn_stripped.so".to_string(),
                    Ok(elf_with_functions(false, 3, LIBRARY_FUNCTIONS)),
                ),
                (
                    "tests/fixtures/bin/x86_64_dyn_stripped.so".to_string(),
                    Ok(elf_with_functions(true, 62, LIBRARY_FUNCTIONS)),
                ),
                (
                    "tests/fixtures/bin/arm32_tnull.so".to_string(),
                    Ok(elf_with_functions(false, 40, &["main_entry", "exit_handler"])),
                ),
            ],
            &options,
        )
        .unwrap();

    assert!(matches!(
        results[0].outcome,
        TelfhashOutcome::Hash(HashValue::Digest(_))
    ));
    assert!(matches!(
        results[2].outcome,
        TelfhashOutcome::Hash(HashValue::NullDigest(
            NullDigestReason::InsufficientInformation
        ))
    ));

    let groups = engine.group(&results, &options).unwrap();
    assert_eq!(groups.grouped.len(), 1);
}
