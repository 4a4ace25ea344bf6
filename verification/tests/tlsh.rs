use telfhash_rs::error::TelfhashError;
use telfhash_rs::model::{HashValue, NullDigestReason};
use telfhash_rs::ports::SimilarityHasher;
use telfhash_rs::tlsh::{distance_of, hash_value_of, TlshFailure, TlshRsHasher};

#[test]
fn generates_and_compares_hashes() {
    let hasher = TlshRsHasher;
    let symbols = (0..80)
        .map(|index| format!("symbol_{index}"))
        .collect::<Vec<_>>();
    let hash = hasher.hash_symbols(&symbols).unwrap();

    let HashValue::Digest(hash) = hash else {
        panic!("expected digest")
    };
    assert_eq!(hash.len(), 72);
    assert!(hash.starts_with("T1"));
    assert_eq!(hasher.distance(&hash, &hash).unwrap(), 0);
}

#[test]
fn returns_tnull_for_low_information_inputs() {
    let hasher = TlshRsHasher;
    let symbols = vec!["ceilf".to_string(), "nextafter".to_string()];

    assert_eq!(
        hasher.hash_symbols(&symbols).unwrap(),
        HashValue::NullDigest(NullDigestReason::InsufficientInformation)
    );
}

#[test]
fn distance_reads_digests_case_insensitively() {
    let hasher = TlshRsHasher;
    let symbols = (0..80)
        .map(|index| format!("function_{index}"))
        .collect::<Vec<_>>();
    let HashValue::Digest(hash) = hasher.hash_symbols(&symbols).unwrap() else {
        panic!("expected digest")
    };
    let lower = hash.to_ascii_lowercase();

    assert_eq!(hasher.distance(&lower, &hash).unwrap(), 0);
}

#[test]
fn distance_rejects_text_that_is_no_digest() {
    let hasher = TlshRsHasher;

    assert!(matches!(
        hasher.distance("not a digest", "T1"),
        Err(TelfhashError::TlshComparison(_))
    ));
}

#[test]
fn hash_depends_on_the_joined_symbols() {
    let hasher = TlshRsHasher;
    let first = (0..60).map(|i| format!("alpha_{i}")).collect::<Vec<_>>();
    let second = (0..60).map(|i| format!("omega_{i}")).collect::<Vec<_>>();

    let a = hasher.hash_symbols(&first).unwrap();
    let b = hasher.hash_symbols(&second).unwrap();
    assert_ne!(a, b);
    assert_eq!(hasher.hash_symbols(&first).unwrap(), a);
}

#[test]
fn maps_tlsh_outcomes_to_hash_values() {
    assert_eq!(
        hash_value_of(Ok("T1AB".to_string())).unwrap(),
        HashValue::Digest("T1AB".to_string())
    );
    assert_eq!(
        hash_value_of(Err(TlshFailure::TooShort)).unwrap(),
        HashValue::NullDigest(NullDigestReason::InsufficientInformation)
    );
    assert_eq!(
        hash_value_of(Err(TlshFailure::InsufficientVariance)).unwrap(),
        HashValue::NullDigest(NullDigestReason::InsufficientInformation)
    );
    assert!(matches!(
        hash_value_of(Err(TlshFailure::Other("too long".to_string()))),
        Err(TelfhashError::TlshGeneration(message)) if message == "too long"
    ));
}

#[test]
fn maps_tlsh_differences_to_distances() {
    assert_eq!(distance_of(Ok(17)).unwrap(), 17);
    assert_eq!(distance_of(Ok(-1)).unwrap(), u32::MAX);
    assert!(matches!(
        distance_of(Err("incompatible".to_string())),
        Err(TelfhashError::TlshComparison(message)) if message == "incompatible"
    ));
}
