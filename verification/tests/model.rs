use telfhash_rs::model::{
    portable_path_display, FailureReason, GroupingMode, HashValue, NoSymbolsReason,
    NullDigestReason, TelfhashOutcome, TelfhashResult,
};
use telfhash_rs::order::{cmp_paths, sort_paths};

#[test]
fn exposes_digest_only_for_real_hashes() {
    let result = TelfhashResult::digest("sample".to_string(), "T1ABC".to_string());
    let tnull = TelfhashResult::null_digest("sample".to_string());

    assert_eq!(result.digest_str(), Some("T1ABC"));
    assert_eq!(tnull.digest_str(), None);
}

#[test]
fn preserves_groupability_and_failure_messages() {
    let no_symbols = TelfhashResult {
        file: "empty".to_string(),
        outcome: TelfhashOutcome::NoSymbols(NoSymbolsReason::NoCallDestinations),
    };
    let unsupported = TelfhashResult {
        file: "mystery".to_string(),
        outcome: TelfhashOutcome::Error(FailureReason::UnsupportedArchitecture),
    };
    let tnull = TelfhashResult {
        file: "sample".to_string(),
        outcome: TelfhashOutcome::Hash(HashValue::NullDigest(
            NullDigestReason::InsufficientInformation,
        )),
    };

    assert!(!no_symbols.is_groupable());
    assert!(!tnull.is_groupable());
    assert_eq!(unsupported.digest_str(), None);
    assert_eq!(
        FailureReason::UnsupportedArchitecture.message(),
        "Unsupported ELF architecture"
    );
}

#[test]
fn normalizes_path_separators_for_legacy_outputs() {
    assert_eq!(
        portable_path_display("tests\\fixtures\\bin\\sample"),
        "tests/fixtures/bin/sample"
    );
    let once = portable_path_display("a\\b/c\\");
    assert_eq!(once, "a/b/c/");
    assert_eq!(portable_path_display(&once), once);
}

#[test]
fn only_full_length_digests_are_groupable() {
    let full = TelfhashResult::digest("a".to_string(), "A".repeat(72));
    let short = TelfhashResult::digest("b".to_string(), "A".repeat(71));
    let long = TelfhashResult::digest("c".to_string(), "A".repeat(73));

    assert!(full.is_groupable());
    assert!(!short.is_groupable());
    assert!(!long.is_groupable());
    assert_eq!(full.file_display(), "a");
}

#[test]
fn messages_and_mode_names() {
    assert_eq!(FailureReason::InvalidElf.message(), "Could not parse file as ELF");
    assert_eq!(FailureReason::Message("boom".to_string()).message(), "boom");
    assert_eq!(GroupingMode::Compatible.cli_name(), "compatible");
    assert_eq!(GroupingMode::ConnectedComponents.cli_name(), "connected-components");
    let failure = TelfhashResult::failure("x".to_string(), "broken");
    assert_eq!(
        failure.outcome,
        TelfhashOutcome::Error(FailureReason::Message("broken".to_string()))
    );
}

#[test]
fn sorts_paths_by_their_text() {
    let mut paths = vec![
        "b/x".to_string(),
        "a".to_string(),
        "B".to_string(),
        "a/b".to_string(),
        "a".to_string(),
    ];
    sort_paths(&mut paths);
    assert_eq!(paths, vec!["B", "a", "a", "a/b", "b/x"]);

    let again = paths.clone();
    sort_paths(&mut paths);
    assert_eq!(paths, again);

    assert_eq!(cmp_paths("a", "b"), std::cmp::Ordering::Less);
    assert_eq!(cmp_paths("b", "a"), std::cmp::Ordering::Greater);
    assert_eq!(cmp_paths("same", "same"), std::cmp::Ordering::Equal);
}
