use telfhash_rs::error::TelfhashError;
use telfhash_rs::grouping::{compatible, connected, ConnectedComponentsPolicy, LegacyGroupingPolicy};
use telfhash_rs::model::{GroupingResult, HashValue, TelfhashResult};
use telfhash_rs::ports::{GroupingPolicy, SimilarityHasher};

struct StubHasher;

impl SimilarityHasher for StubHasher {
    fn hash_symbols(&self, _symbols: &[String]) -> Result<HashValue, TelfhashError> {
        unreachable!()
    }

    fn distance(&self, left: &str, right: &str) -> Result<u32, TelfhashError> {
        let left = left.chars().next().unwrap_or_default();
        let right = right.chars().next().unwrap_or_default();
        let value = match (left, right) {
            ('A', 'B') | ('B', 'A') => 10,
            ('B', 'C') | ('C', 'B') => 10,
            ('C', 'D') | ('D', 'C') => 10,
            _ => 99,
        };
        Ok(value)
    }
}

struct OrderHasher;

impl SimilarityHasher for OrderHasher {
    fn hash_symbols(&self, _symbols: &[String]) -> Result<HashValue, TelfhashError> {
        unreachable!()
    }

    fn distance(&self, left: &str, right: &str) -> Result<u32, TelfhashError> {
        let score = match (left.as_bytes()[0], right.as_bytes()[0]) {
            (b'a', b'b') | (b'b', b'a') => 1,
            (b'a', b'c') | (b'c', b'a') => 1,
            (b'd', b'e') | (b'e', b'd') => 1,
            _ => 99,
        };
        Ok(score)
    }
}

struct ContractHasher;

impl SimilarityHasher for ContractHasher {
    fn hash_symbols(&self, _symbols: &[String]) -> Result<HashValue, TelfhashError> {
        unreachable!()
    }

    fn distance(&self, left: &str, right: &str) -> Result<u32, TelfhashError> {
        Ok(match (left.as_bytes()[0], right.as_bytes()[0]) {
            (b'a', b'b') | (b'b', b'a') => 1,
            (b'b', b'c') | (b'c', b'b') => 1,
            (b'd', b'e') | (b'e', b'd') => 1,
            _ => 99,
        })
    }
}

struct FailingHasher;

impl SimilarityHasher for FailingHasher {
    fn hash_symbols(&self, _symbols: &[String]) -> Result<HashValue, TelfhashError> {
        unreachable!()
    }

    fn distance(&self, _left: &str, _right: &str) -> Result<u32, TelfhashError> {
        Err(TelfhashError::TlshComparison("bad digest".to_string()))
    }
}

fn result(name: &str, hash: &str) -> TelfhashResult {
    TelfhashResult::digest(name.to_string(), hash.to_string())
}

fn names(list: &[&str]) -> Vec<String> {
    list.iter().map(|name| name.to_string()).collect()
}

#[test]
fn groups_transitively_connected_hashes() {
    let results = vec![
        result("a", &"A".repeat(72)),
        result("b", &"B".repeat(72)),
        result("c", &"C".repeat(72)),
        result("d", &"D".repeat(72)),
        result("e", &"E".repeat(72)),
    ];

    let grouped = compatible::group_results(&results, 50, &StubHasher).unwrap();

    assert_eq!(grouped.grouped, vec![names(&["a", "b", "c", "d"])]);
    assert_eq!(grouped.nogroup, vec!["e".to_string()]);
}

#[test]
fn preserves_order_of_ungrouped_inputs() {
    let results = vec![
        result("a", &"a".repeat(72)),
        result("b", &"b".repeat(72)),
        result("c", &"c".repeat(72)),
        result("d", &"d".repeat(72)),
        result("e", &"e".repeat(72)),
        result("f", &"f".repeat(72)),
    ];

    let grouped = compatible::group_results(&results, 1, &OrderHasher).unwrap();

    assert_eq!(
        grouped.grouped,
        vec![names(&["d", "e"]), names(&["a", "b", "c"])]
    );
    assert_eq!(grouped.nogroup, vec!["f".to_string()]);
}

#[test]
fn legacy_and_native_policies_are_formally_selectable() {
    let results = vec![
        result("a", &"a".repeat(72)),
        result("b", &"b".repeat(72)),
        result("c", &"c".repeat(72)),
        result("d", &"d".repeat(72)),
        result("e", &"e".repeat(72)),
    ];

    let legacy = LegacyGroupingPolicy.group(&results, 10, &ContractHasher).unwrap();
    let native = ConnectedComponentsPolicy.group(&results, 10, &ContractHasher).unwrap();

    assert_eq!(LegacyGroupingPolicy.name(), "compatible");
    assert_eq!(ConnectedComponentsPolicy.name(), "connected-components");
    assert!(!legacy.grouped.is_empty());
    assert_eq!(
        native,
        GroupingResult {
            grouped: vec![names(&["a", "b", "c"]), names(&["d", "e"])],
            nogroup: vec![],
        }
    );
}

#[test]
fn connected_components_sort_groups_and_isolated_files() {
    let results = vec![
        result("e", &"e".repeat(72)),
        result("z", &"z".repeat(72)),
        result("d", &"d".repeat(72)),
        result("y", &"y".repeat(72)),
        result("b", &"b".repeat(72)),
        result("a", &"a".repeat(72)),
    ];

    let grouped = connected::group_results(&results, 1, &ContractHasher).unwrap();

    assert_eq!(grouped.grouped, vec![names(&["a", "b"]), names(&["d", "e"])]);
    assert_eq!(grouped.nogroup, names(&["y", "z"]));
}

#[test]
fn grouping_skips_results_without_full_digests() {
    let results = vec![
        result("a", &"a".repeat(72)),
        result("short", "abc"),
        TelfhashResult::null_digest("tnull".to_string()),
        result("b", &"b".repeat(72)),
    ];

    let native = connected::group_results(&results, 10, &ContractHasher).unwrap();
    assert_eq!(native.grouped, vec![names(&["a", "b"])]);
    assert!(native.nogroup.is_empty());

    let legacy = compatible::group_results(&results, 10, &ContractHasher).unwrap();
    assert_eq!(legacy.grouped, vec![names(&["a", "b"])]);
    assert!(legacy.nogroup.is_empty());
}

#[test]
fn fewer_than_two_comparable_results_group_nothing() {
    let results = vec![result("a", &"a".repeat(72)), result("short", "abc")];

    assert_eq!(
        connected::group_results(&results, 10, &FailingHasher).unwrap(),
        GroupingResult::empty()
    );
    assert_eq!(
        compatible::group_results(&results, 10, &FailingHasher).unwrap(),
        GroupingResult::empty()
    );
}

#[test]
fn hasher_failures_stop_grouping() {
    let results = vec![result("a", &"a".repeat(72)), result("b", &"b".repeat(72))];

    assert!(matches!(
        connected::group_results(&results, 10, &FailingHasher),
        Err(TelfhashError::TlshComparison(_))
    ));
    assert!(matches!(
        compatible::group_results(&results, 10, &FailingHasher),
        Err(TelfhashError::TlshComparison(_))
    ));
}

#[test]
fn compatible_drops_groups_covered_by_larger_ones() {
    let results = vec![
        result("a", &"a".repeat(72)),
        result("b", &"b".repeat(72)),
        result("c", &"c".repeat(72)),
    ];

    let grouped = compatible::group_results(&results, 1, &ContractHasher).unwrap();
    assert_eq!(grouped.grouped, vec![names(&["a", "b", "c"])]);
    assert!(grouped.nogroup.is_empty());
}

struct CloseHasher;

impl SimilarityHasher for CloseHasher {
    fn hash_symbols(&self, _symbols: &[String]) -> Result<HashValue, TelfhashError> {
        unreachable!()
    }

    fn distance(&self, _left: &str, _right: &str) -> Result<u32, TelfhashError> {
        Ok(0)
    }
}

#[test]
fn compatible_drops_groups_that_cover_each_other_when_a_path_repeats() {
    let results = vec![
        result("a", &"a".repeat(72)),
        result("b", &"b".repeat(72)),
        result("a", &"c".repeat(72)),
    ];

    let grouped = compatible::group_results(&results, 10, &CloseHasher).unwrap();
    assert!(grouped.grouped.is_empty());
    assert_eq!(grouped.nogroup, names(&["a", "b"]));

    let native = connected::group_results(&results, 10, &CloseHasher).unwrap();
    assert_eq!(native.grouped, vec![names(&["a", "b"])]);
    assert!(native.nogroup.is_empty());
}

#[test]
fn close_distinct_files_are_grouped_in_both_modes() {
    let results = vec![
        result("x", &"a".repeat(72)),
        result("y", &"b".repeat(72)),
        result("z", &"e".repeat(72)),
    ];

    let legacy = compatible::group_results(&results, 1, &ContractHasher).unwrap();
    assert_eq!(legacy.grouped, vec![names(&["x", "y"])]);
    assert_eq!(legacy.nogroup, names(&["z"]));

    let native = connected::group_results(&results, 1, &ContractHasher).unwrap();
    assert_eq!(native.grouped, vec![names(&["x", "y"])]);
    assert_eq!(native.nogroup, names(&["z"]));
}
