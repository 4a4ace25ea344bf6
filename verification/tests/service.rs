use telfhash_rs::analysis::{AnalysisRequest, GroupingPlan};
use telfhash_rs::error::TelfhashError;
use telfhash_rs::model::{
    ExtractionDebug, GroupingMode, HashValue, NoSymbolsReason, NullDigestReason, SymbolExtraction,
    TelfhashOutcome, TelfhashResult,
};
use telfhash_rs::ports::{SimilarityHasher, SymbolExtractor};
use telfhash_rs::service::{result_from_hash, TelfhashService};

struct StubExtractor;

impl SymbolExtractor for StubExtractor {
    fn extract_symbols(&self, path: &str) -> Result<SymbolExtraction, TelfhashError> {
        let name = path.rsplit('/').next().unwrap_or_default();
        match name {
            "empty" => Ok(SymbolExtraction {
                symbols: vec![],
                debug: ExtractionDebug::default(),
            }),
            "invalid" => Err(TelfhashError::InvalidElf),
            _ => Ok(SymbolExtraction {
                symbols: vec![name.to_string()],
                debug: ExtractionDebug::default(),
            }),
        }
    }
}

struct StubHasher;

impl SimilarityHasher for StubHasher {
    fn hash_symbols(&self, symbols: &[String]) -> Result<HashValue, TelfhashError> {
        let symbol = symbols.first().cloned().unwrap_or_default();
        if symbol == "tnull" {
            return Ok(HashValue::NullDigest(NullDigestReason::InsufficientInformation));
        }
        Ok(HashValue::Digest(symbol.repeat(72).chars().take(72).collect()))
    }

    fn distance(&self, left: &str, right: &str) -> Result<u32, TelfhashError> {
        Ok(if left == right { 0 } else { 99 })
    }
}

#[test]
fn analyze_without_grouping_returns_only_inspections() {
    let service = TelfhashService::new(StubExtractor, StubHasher);
    let request = AnalysisRequest::hashes_only(vec!["alpha".to_string()]);

    let report = service.analyze(&request).unwrap();

    assert_eq!(report.inspections.len(), 1);
    assert!(report.grouping.is_none());
}

#[test]
fn analyze_with_grouping_resolves_grouping_only_when_possible() {
    let service = TelfhashService::new(StubExtractor, StubHasher);
    let request = AnalysisRequest::with_grouping(
        vec!["alpha".to_string(), "beta".to_string()],
        GroupingPlan::new(10, GroupingMode::ConnectedComponents),
    );

    let report = service.analyze(&request).unwrap();

    assert!(report.grouping.is_some());
}

#[test]
fn inspect_file_maps_invalid_elf_to_typed_failure() {
    let service = TelfhashService::new(StubExtractor, StubHasher);
    let inspection = service.inspect_file("invalid");

    assert_eq!(
        inspection.result,
        TelfhashResult::invalid_elf("invalid".to_string())
    );
    assert!(inspection.extraction.is_none());
}

#[test]
fn analyze_with_grouping_of_one_file_groups_nothing() {
    let service = TelfhashService::new(StubExtractor, StubHasher);
    let request = AnalysisRequest::with_grouping(
        vec!["alpha".to_string()],
        GroupingPlan::new(10, GroupingMode::Compatible),
    );

    let report = service.analyze(&request).unwrap();

    assert_eq!(report.inspections.len(), 1);
    assert!(report.grouping.is_none());
}

#[test]
fn empty_extraction_reports_filtered_out_symbols() {
    let service = TelfhashService::new(StubExtractor, StubHasher);
    let result = service.hash_file("dir/empty");

    assert_eq!(result.file, "dir/empty");
    assert_eq!(
        result.outcome,
        TelfhashOutcome::NoSymbols(NoSymbolsReason::FilteredOut)
    );
}

#[test]
fn fallback_extraction_without_symbols_reports_no_call_destinations() {
    let service = TelfhashService::new(StubExtractor, StubHasher);
    let mut debug = ExtractionDebug::default();
    debug.fallback_reason = Some("fallback".to_string());
    let inspection = service.inspect_extraction(
        "stripped",
        Ok(SymbolExtraction { symbols: vec![], debug }),
    );

    assert_eq!(
        inspection.result.outcome,
        TelfhashOutcome::NoSymbols(NoSymbolsReason::NoCallDestinations)
    );
    assert!(inspection.extraction.is_some());
}

#[test]
fn hash_files_keeps_input_order_and_maps_each_outcome() {
    let service = TelfhashService::new(StubExtractor, StubHasher);
    let results = service.hash_files(&[
        "tnull".to_string(),
        "invalid".to_string(),
        "x".to_string(),
    ]);

    assert_eq!(results.len(), 3);
    assert_eq!(results[0], TelfhashResult::null_digest("tnull".to_string()));
    assert_eq!(results[1], TelfhashResult::invalid_elf("invalid".to_string()));
    assert_eq!(results[2], TelfhashResult::digest("x".to_string(), "x".repeat(72)));
}

#[test]
fn extraction_errors_become_typed_or_message_failures() {
    let service = TelfhashService::new(StubExtractor, StubHasher);

    let unsupported = service.inspect_extraction("u", Err(TelfhashError::UnsupportedArchitecture));
    assert_eq!(
        unsupported.result,
        TelfhashResult::unsupported_architecture("u".to_string())
    );

    let other = service.inspect_extraction(
        "m",
        Err(TelfhashError::TlshGeneration("boom".to_string())),
    );
    assert_eq!(
        other.result,
        TelfhashResult::failure("m".to_string(), "TLSH generation failed: boom")
    );
}

#[test]
fn hash_errors_keep_their_message() {
    let result = result_from_hash("f", Err(TelfhashError::Message("plain".to_string())));
    assert_eq!(result, TelfhashResult::failure("f".to_string(), "plain"));

    let null = result_from_hash(
        "g",
        Ok(HashValue::NullDigest(NullDigestReason::InsufficientInformation)),
    );
    assert_eq!(null, TelfhashResult::null_digest("g".to_string()));
}
