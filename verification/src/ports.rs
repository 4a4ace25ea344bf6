//! What the library asks of symbol extractors, hashers and grouping policies.
use vstd::prelude::*;
use crate::error::TelfhashError;
use crate::model::{GroupingResult, HashValue, SymbolExtraction, TelfhashResult};

verus! {

/// Reads the symbols of the file at a path.
pub trait SymbolExtractor {
    /// The results extracting the file at `path` may give; an extractor that
    /// says nothing allows any.
    open spec fn extracts(&self, path: Seq<char>, r: Result<SymbolExtraction, TelfhashError>) -> bool {
        true
    }

    fn extract_symbols(&self, path: &str) -> (r: Result<SymbolExtraction, TelfhashError>)
        ensures
            self.extracts(path@, r),
    ;
}

/// Hashes symbol lists and measures the distance between two digests.
pub trait SimilarityHasher {
    /// The results hashing `symbols` may give; a hasher that says nothing
    /// allows any.
    open spec fn hashes(&self, symbols: Seq<String>, r: Result<HashValue, TelfhashError>) -> bool {
        true
    }

    fn hash_symbols(&self, symbols: &[String]) -> (r: Result<HashValue, TelfhashError>)
        ensures
            self.hashes(symbols@, r),
    ;

    /// The results measuring the distance between two digests may give; a
    /// hasher that says nothing allows any.
    open spec fn measures(&self, left: Seq<char>, right: Seq<char>, r: Result<u32, TelfhashError>) -> bool {
        true
    }

    fn distance(&self, left: &str, right: &str) -> (r: Result<u32, TelfhashError>)
        ensures
            self.measures(left@, right@, r),
    ;
}

/// Groups hash results by the distances a hasher measures.
pub trait GroupingPolicy {
    fn group<H: SimilarityHasher>(
        &self,
        results: &[TelfhashResult],
        threshold: u32,
        hasher: &H,
    ) -> Result<GroupingResult, TelfhashError>;

    fn name(&self) -> &'static str;
}

} // verus!
