use telfhash_rs::analysis::AnalysisReport;
use telfhash_rs::debug_report::debug_report_lines;
use telfhash_rs::model::{
    ExtractionDebug, GroupingResult, NoSymbolsReason, SymbolExtraction, TelfhashResult,
};
use telfhash_rs::output::{
    group_lines, render_plain_hashes, render_tsv_hashes, HashOutputFormat, OutputEmitter,
    OutputRequest, ReportBody,
};
use telfhash_rs::sarif::{rules, sarif_result, sarif_results};
use telfhash_rs::service::HashInspection;

fn sample_results() -> Vec<TelfhashResult> {
    vec![
        TelfhashResult::digest("sample".to_string(), "T1ABC".to_string()),
        TelfhashResult::null_digest("dir\\x".to_string()),
        TelfhashResult::no_symbols("empty".to_string(), NoSymbolsReason::FilteredOut),
    ]
}

#[test]
fn plain_listing_pads_paths_to_the_widest() {
    assert_eq!(
        render_plain_hashes(&sample_results()),
        "sample  t1abc\ndir/x   tnull\nempty   -\n\n"
    );
    assert_eq!(render_plain_hashes(&[]), "\n");
}

#[test]
fn tsv_listing_joins_rows() {
    assert_eq!(
        render_tsv_hashes(&sample_results()),
        "sample\tt1abc\ndir/x\ttnull\nempty\t-\n"
    );
    assert_eq!(render_tsv_hashes(&[]), "\n");
}

#[test]
fn groups_are_listed_with_headings() {
    let groups = GroupingResult {
        grouped: vec![
            vec!["a".to_string(), "b".to_string()],
            vec!["c".to_string(), "d".to_string()],
        ],
        nogroup: vec!["e".to_string()],
    };
    assert_eq!(
        group_lines(&groups),
        vec!["Group 1:", "    a", "    b", "Group 2:", "    c", "    d", "Ungrouped:", "    e", ""]
    );
    assert_eq!(group_lines(&GroupingResult::empty()), vec![""]);
}

#[test]
fn serializes_sarif_log_shape() {
    let digest = TelfhashResult::digest("sample".to_string(), "T1ABC".to_string());
    let record = sarif_result(&digest);

    assert_eq!(record.rule_id, "TFL001");
    assert_eq!(record.telfhash, "t1abc");
    assert_eq!(record.message, "telfhash digest computed: t1abc");
    assert_eq!(record.fingerprint.as_deref(), Some("t1abc"));
    assert_eq!(record.level, "note");
    assert_eq!(rules().len(), 5);
}

#[test]
fn sarif_classifies_every_outcome() {
    let results = vec![
        TelfhashResult::null_digest("n".to_string()),
        TelfhashResult::no_symbols("f".to_string(), NoSymbolsReason::FilteredOut),
        TelfhashResult::no_symbols("c".to_string(), NoSymbolsReason::NoCallDestinations),
        TelfhashResult::invalid_elf("x\\y".to_string()),
    ];
    let records = sarif_results(&results);

    assert_eq!(records[0].rule_id, "TFL002");
    assert_eq!(records[0].status, "tnull");
    assert_eq!(records[0].fingerprint, None);
    assert_eq!(records[1].rule_id, "TFL003");
    assert_eq!(records[2].rule_id, "TFL004");
    assert_eq!(records[2].status, "no-call-destinations");
    assert_eq!(records[3].rule_id, "TFL005");
    assert_eq!(records[3].message, "telfhash analysis failed: Could not parse file as ELF");
    assert_eq!(records[3].msg, "Could not parse file as ELF");
    assert_eq!(records[3].uri, "x/y");
    assert_eq!(records[3].fingerprint, None);
}

#[test]
fn debug_lines_report_extraction_and_outcome() {
    let extraction = SymbolExtraction {
        symbols: vec![],
        debug: ExtractionDebug {
            elf_class: Some("ELFCLASS32".to_string()),
            symbol_table: Some("SHT_DYNSYM".to_string()),
            symbols_found: 12,
            symbols_considered: 0,
            fallback_reason: None,
        },
    };
    let result = TelfhashResult::no_symbols("lib.so".to_string(), NoSymbolsReason::FilteredOut);

    assert_eq!(
        debug_report_lines("lib.so", Some(&extraction), &result),
        vec![
            "ELFCLASS32",
            "symbol table: SHT_DYNSYM",
            "12 symbols found",
            "0 symbols considered",
            "lib.so: no symbols found",
            "result: - (no symbols)",
        ]
    );
    let tnull = TelfhashResult::null_digest("t".to_string());
    assert_eq!(
        debug_report_lines("t", None, &tnull),
        vec!["TLSH result: tnull (insufficient length or variance)"]
    );
}

#[test]
fn emission_follows_the_request() {
    let report = AnalysisReport::new(
        vec![HashInspection {
            result: TelfhashResult::unsupported_architecture("m".to_string()),
            extraction: None,
        }],
        Some(GroupingResult::empty()),
    );
    let emission = OutputEmitter::emit_report(&OutputRequest::stdout(HashOutputFormat::Tsv, true), &report);

    assert_eq!(emission.debug_lines, vec!["result: - (Unsupported ELF architecture)"]);
    match emission.body {
        ReportBody::Text(text) => assert_eq!(text, "m\t-\n"),
        other => panic!("unexpected {other:?}"),
    }
    assert_eq!(emission.group_lines, vec![""]);

    let quiet = OutputEmitter::emit_report(
        &OutputRequest::file(HashOutputFormat::Json, "out.json".to_string(), false),
        &report,
    );
    assert!(quiet.debug_lines.is_empty());
    assert!(matches!(quiet.body, ReportBody::Json(ref rows) if rows.len() == 1));
}
