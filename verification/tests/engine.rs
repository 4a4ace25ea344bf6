use telfhash_rs::model::{FailureReason, GroupingResult, HashValue, NullDigestReason, TelfhashOutcome, TelfhashResult};
use telfhash_rs::ports::SimilarityHasher;
use telfhash_rs::tlsh::TlshRsHasher;
use telfhash_rs::{group_results, hash_file, hash_paths, GroupingMode, TelfhashEngine, TelfhashOptions};

fn le16(out: &mut Vec<u8>, v: u16) {
    out.extend_from_slice(&v.to_le_bytes());
}

fn le32(out: &mut Vec<u8>, v: u32) {
    out.extend_from_slice(&v.to_le_bytes());
}

fn le64(out: &mut Vec<u8>, v: u64) {
    out.extend_from_slice(&v.to_le_bytes());
}

fn stripped_x86_64(code: &[u8]) -> Vec<u8> {
    let mut out = vec![0x7f, b'E', b'L', b'F', 2, 1, 1, 0, 0, 0, 0, 0, 0, 0, 0, 0];
    le16(&mut out, 2);
    le16(&mut out, 62);
    le32(&mut out, 1);
    le64(&mut out, 0x400078);
    le64(&mut out, 64);
    le64(&mut out, 0);
    le32(&mut out, 0);
    le16(&mut out, 64);
    le16(&mut out, 56);
    le16(&mut out, 1);
    le16(&mut out, 64);
    le16(&mut out, 0);
    le16(&mut out, 0);
    le32(&mut out, 1);
    le32(&mut out, 5);
    le64(&mut out, 0x78);
    le64(&mut out, 0x400078);
    le64(&mut out, 0x400078);
    le64(&mut out, code.len() as u64);
    le64(&mut out, code.len() as u64);
    le64(&mut out, 0x1000);
    out.extend_from_slice(code);
    out
}

#[test]
fn default_options_group_compatibly_at_fifty() {
    let options = TelfhashOptions::default();
    assert!(!options.debug);
    assert_eq!(options.grouping_mode, GroupingMode::Compatible);
    assert_eq!(options.threshold, 50);
}

#[test]
fn hashes_a_stripped_file_through_its_call_destinations() {
    let engine = TelfhashEngine::new();
    let options = TelfhashOptions::default();
    let bytes = stripped_x86_64(&[0xe8, 0, 0, 0, 0, 0xc3]);

    let result = engine.hash_file("tiny", Ok(bytes), &options).unwrap();

    assert_eq!(result.file, "tiny");
    assert_eq!(
        result.outcome,
        TelfhashOutcome::Hash(HashValue::NullDigest(NullDigestReason::InsufficientInformation))
    );
}

#[test]
fn reports_files_that_are_not_elf_and_read_errors() {
    let options = TelfhashOptions::default();
    let results = hash_paths(
        vec![
            ("archive.a".to_string(), Ok(b"!<arch>\n".to_vec())),
            (
                "missing".to_string(),
                Err(std::io::Error::new(std::io::ErrorKind::NotFound, "gone")),
            ),
        ],
        &options,
    )
    .unwrap();

    assert_eq!(results.len(), 2);
    assert_eq!(results[0], TelfhashResult::invalid_elf("archive.a".to_string()));
    assert_eq!(results[1].file, "missing");
    assert_eq!(
        results[1].outcome,
        TelfhashOutcome::Error(FailureReason::Message("I/O error: gone".to_string()))
    );

    let single = hash_file("archive.a", Ok(b"!<arch>\n".to_vec()), &options).unwrap();
    assert_eq!(single, results[0]);
}

#[test]
fn grouping_results_without_digests_is_empty() {
    let options = TelfhashOptions::default();
    let results = vec![
        TelfhashResult::null_digest("a".to_string()),
        TelfhashResult::invalid_elf("b".to_string()),
    ];
    assert_eq!(group_results(&results, &options).unwrap(), GroupingResult::empty());
    assert_eq!(
        TelfhashEngine::new().group(&results, &options).unwrap(),
        GroupingResult::empty()
    );
}

#[test]
fn groups_real_tlsh_digests_of_similar_symbol_lists() {
    let hasher = TlshRsHasher;
    let base = (0..90).map(|i| format!("function_{i}")).collect::<Vec<_>>();
    let mut near = base.clone();
    near[0] = "other_0".to_string();
    let far = (0..90).map(|i| format!("zz{}q{}", i * 7919, i)).collect::<Vec<_>>();
    let digest = |symbols: &Vec<String>| match hasher.hash_symbols(symbols).unwrap() {
        HashValue::Digest(d) => d,
        other => panic!("unexpected {other:?}"),
    };
    let results = vec![
        TelfhashResult::digest("base".to_string(), digest(&base)),
        TelfhashResult::digest("near".to_string(), digest(&near)),
        TelfhashResult::digest("far".to_string(), digest(&far)),
    ];
    let options = TelfhashOptions {
        grouping_mode: GroupingMode::ConnectedComponents,
        ..Default::default()
    };
    let groups = group_results(&results, &options).unwrap();

    assert_eq!(groups.grouped, vec![vec!["base".to_string(), "near".to_string()]]);
    assert_eq!(groups.nogroup, vec!["far".to_string()]);
}

#[test]
fn the_same_bytes_get_the_same_outcome_from_every_entry_point() {
    let options = TelfhashOptions::default();
    let engine = TelfhashEngine::new();
    let bytes = stripped_x86_64(&[0xe8, 0, 0, 0, 0, 0xe8, 0x10, 0, 0, 0, 0xc3]);

    let inspected = engine.inspect_file("a", Ok(bytes.clone()));
    let hashed = engine.hash_file("a", Ok(bytes.clone()), &options).unwrap();
    let free = hash_file("a", Ok(bytes.clone()), &options).unwrap();
    let listed = hash_paths(vec![("a".to_string(), Ok(bytes.clone()))], &options).unwrap();
    let listed_by_engine = engine
        .hash_paths(vec![("a".to_string(), Ok(bytes))], &options)
        .unwrap();

    assert_eq!(inspected.result, hashed);
    assert_eq!(hashed, free);
    assert_eq!(listed, vec![free.clone()]);
    assert_eq!(listed_by_engine, listed);
    assert!(inspected.extraction.is_some());
}
