//! Hashing files and grouping the results, with the extractor and hasher
//! that the service is built with.
use vstd::prelude::*;
use vstd::string::StringExecFns;
use crate::analysis::{AnalysisReport, AnalysisRequest, GroupingPlan};
use crate::error::{error_message_is, TelfhashError};
use crate::grouping::common::{eligible_digests, eligible_files, first_failure_measured};
use crate::grouping::{compatible, connected, ConnectedComponentsPolicy, LegacyGroupingPolicy};
use crate::model::{
    FailureReason, GroupingMode, GroupingResult, HashValue, NoSymbolsReason, NullDigestReason,
    SymbolExtraction, TelfhashOutcome, TelfhashResult,
};
use crate::ports::{GroupingPolicy, SimilarityHasher, SymbolExtractor};

verus! {

broadcast use vstd::string::group_string_axioms;

/// The result of hashing one file, with the extraction it came from when
/// extraction succeeded.
#[derive(Debug, PartialEq, Eq)]
pub struct HashInspection {
    pub result: TelfhashResult,
    pub extraction: Option<SymbolExtraction>,
}

impl HashInspection {
    fn with_extraction(result: TelfhashResult, extraction: SymbolExtraction) -> (r: Self)
        ensures
            r.result == result,
            r.extraction == Some(extraction),
    {
        HashInspection { result, extraction: Some(extraction) }
    }

    fn without_extraction(result: TelfhashResult) -> (r: Self)
        ensures
            r.result == result,
            r.extraction is None,
    {
        HashInspection { result, extraction: None }
    }
}

/// Why an extraction yielded no symbol: the fallback found no call
/// destination, or the symbol table held nothing that passed the filters.
pub open spec fn no_symbols_reason(extraction: SymbolExtraction) -> NoSymbolsReason {
    if extraction.debug.fallback_reason is Some {
        NoSymbolsReason::NoCallDestinations
    } else {
        NoSymbolsReason::FilteredOut
    }
}

/// Turns what a hasher returned for a file's symbols into the file's result:
/// a digest, a null digest, or a failure with the error's message.
pub fn result_from_hash(path: &str, hashed: Result<HashValue, TelfhashError>) -> (r: TelfhashResult)
    ensures
        r.file@ == path@,
        hash_outcome(hashed, r.outcome),
{
    match hashed {
        Ok(HashValue::Digest(hash)) => TelfhashResult::digest(String::from_str(path), hash),
        Ok(HashValue::NullDigest(_)) => TelfhashResult::null_digest(String::from_str(path)),
        Err(error) => {
            let message = error.message();
            TelfhashResult::failure(String::from_str(path), message.as_str())
        },
    }
}

/// The result an extraction of a file yields when extraction failed.
pub open spec fn failed_extraction_outcome(e: TelfhashError, outcome: TelfhashOutcome) -> bool {
    match e {
        TelfhashError::InvalidElf => outcome == TelfhashOutcome::Error(FailureReason::InvalidElf),
        TelfhashError::UnsupportedArchitecture => outcome == TelfhashOutcome::Error(
            FailureReason::UnsupportedArchitecture,
        ),
        _ => outcome matches TelfhashOutcome::Error(FailureReason::Message(m)) && error_message_is(
            e,
            m@,
        ),
    }
}

/// The outcome a hash result gives a file: the digest, a null digest, or a
/// failure with the error's message.
pub open spec fn hash_outcome(hashed: Result<HashValue, TelfhashError>, outcome: TelfhashOutcome) -> bool {
    match hashed {
        Ok(HashValue::Digest(d)) => outcome == TelfhashOutcome::Hash(HashValue::Digest(d)),
        Ok(HashValue::NullDigest(_)) => outcome == TelfhashOutcome::Hash(
            HashValue::NullDigest(NullDigestReason::InsufficientInformation),
        ),
        Err(e) => outcome matches TelfhashOutcome::Error(FailureReason::Message(m)) && error_message_is(
            e,
            m@,
        ),
    }
}

/// The outcome the symbols of a successful extraction give: no symbols
/// (with the reason), or the outcome of a result the hasher may give for
/// them.
pub open spec fn finished_outcome<H: SimilarityHasher>(
    hasher: H,
    extraction: SymbolExtraction,
    outcome: TelfhashOutcome,
) -> bool {
    if extraction.symbols@.len() == 0 {
        outcome == TelfhashOutcome::NoSymbols(no_symbols_reason(extraction))
    } else {
        exists|hashed: Result<HashValue, TelfhashError>|
            #![trigger hasher.hashes(extraction.symbols@, hashed)]
            hasher.hashes(extraction.symbols@, hashed) && hash_outcome(hashed, outcome)
    }
}

/// The outcome an extraction gives a file, hashed by `hasher`.
pub open spec fn extraction_outcome<H: SimilarityHasher>(
    hasher: H,
    extraction: Result<SymbolExtraction, TelfhashError>,
    outcome: TelfhashOutcome,
) -> bool {
    match extraction {
        Ok(x) => finished_outcome(hasher, x, outcome),
        Err(e) => failed_extraction_outcome(e, outcome),
    }
}

/// The contract of grouping in `mode`.
pub open spec fn grouped_in_mode<H: SimilarityHasher>(
    hasher: H,
    results: Seq<TelfhashResult>,
    threshold: u32,
    mode: GroupingMode,
    r: Result<GroupingResult, TelfhashError>,
) -> bool {
    &&& eligible_files(results).len() < 2 ==> r is Ok
    &&& r matches Err(e) ==> first_failure_measured(hasher, eligible_digests(results), e)
    &&& r is Ok ==> match mode {
        GroupingMode::Compatible => compatible::grouped_by_measures(
            hasher,
            results,
            threshold,
            r->Ok_0.grouped.deep_view(),
            r->Ok_0.nogroup.deep_view(),
        ),
        GroupingMode::ConnectedComponents => connected::grouped_by_measures(
            hasher,
            results,
            threshold,
            r->Ok_0.grouped.deep_view(),
            r->Ok_0.nogroup.deep_view(),
        ),
    }
}

/// The grouping step answers the plan: nothing without a plan or with fewer
/// than two inspections, else the grouping of the inspections' results.
pub open spec fn resolved_fits<H: SimilarityHasher>(
    hasher: H,
    inspections: Seq<HashInspection>,
    grouping: Option<GroupingPlan>,
    r: Result<Option<GroupingResult>, TelfhashError>,
) -> bool {
    match grouping {
        Some(plan) => if inspections.len() >= 2 {
            let results = inspections.map_values(|i: HashInspection| i.result);
            &&& eligible_files(results).len() < 2 ==> r is Ok
            &&& r matches Err(e) ==> first_failure_measured(hasher, eligible_digests(results), e)
            &&& r is Ok ==> r->Ok_0 is Some && grouped_in_mode(
                hasher,
                results,
                plan.threshold,
                plan.mode,
                Ok(r->Ok_0->Some_0),
            )
        } else {
            r == Ok::<Option<GroupingResult>, TelfhashError>(None)
        },
        None => r == Ok::<Option<GroupingResult>, TelfhashError>(None),
    }
}

/// A report answers the request: one inspection per requested path, in
/// order, each one the file may get, and the grouping that the
/// request's plan asks for.
pub open spec fn report_fits<E: SymbolExtractor, H: SimilarityHasher>(
    extractor: E,
    hasher: H,
    request: AnalysisRequest,
    report: AnalysisReport,
) -> bool {
    &&& report.inspections@.len() == request.paths@.len()
    &&& forall|i: int|
        0 <= i < request.paths@.len() ==> #[trigger] report.inspections@[i].result.file@
            == request.paths@[i]@ && file_inspection(
            extractor,
            hasher,
            request.paths@[i]@,
            report.inspections@[i],
        )
    &&& match request.grouping {
        Some(plan) => if request.paths@.len() >= 2 {
            report.grouping is Some && grouped_in_mode(
                hasher,
                report.inspections@.map_values(|i: HashInspection| i.result),
                plan.threshold,
                plan.mode,
                Ok(report.grouping->Some_0),
            )
        } else {
            report.grouping is None
        },
        None => report.grouping is None,
    }
}

/// Why an analysis may fail: grouping was asked for at least two files, and
/// the hasher may give the error comparing two of their digests, for
/// outcomes the files may get.
pub open spec fn analysis_failure<E: SymbolExtractor, H: SimilarityHasher>(
    extractor: E,
    hasher: H,
    request: AnalysisRequest,
    e: TelfhashError,
) -> bool {
    &&& request.grouping is Some
    &&& request.paths@.len() >= 2
    &&& exists|results: Seq<TelfhashResult>|
        #![trigger first_failure_measured(hasher, eligible_digests(results), e)]
        results.len() == request.paths@.len() && (forall|i: int|
            0 <= i < results.len() ==> #[trigger] results[i].file@ == request.paths@[i]@
                && file_outcome(extractor, hasher, request.paths@[i]@, results[i].outcome))
            && first_failure_measured(hasher, eligible_digests(results), e)
}

/// Hashes files with an extractor and a hasher, and groups the results.
pub struct TelfhashService<E, H> {
    extractor: E,
    hasher: H,
}

/// The inspection an extraction gives, hashed by `hasher`: a successful
/// extraction is kept and hashed; a failed one maps to the matching failure
/// and keeps no extraction.
pub open spec fn inspection_answer<H: SimilarityHasher>(
    hasher: H,
    extraction: Result<SymbolExtraction, TelfhashError>,
    r: HashInspection,
) -> bool {
    match extraction {
        Ok(x) => r.extraction matches Some(y) && y.symbols@ == x.symbols@ && y.debug == x.debug
            && finished_outcome(hasher, x, r.result.outcome),
        Err(e) => r.extraction is None && failed_extraction_outcome(e, r.result.outcome),
    }
}

/// The inspection the file at `path` may get: that of a result the
/// extractor may give for it, hashed by `hasher`.
pub open spec fn file_inspection<E: SymbolExtractor, H: SimilarityHasher>(
    extractor: E,
    hasher: H,
    path: Seq<char>,
    r: HashInspection,
) -> bool {
    exists|x: Result<SymbolExtraction, TelfhashError>|
        #![trigger extractor.extracts(path, x)]
        extractor.extracts(path, x) && inspection_answer(hasher, x, r)
}

/// An inspection a file may get carries an outcome the file may get.
pub proof fn lemma_file_inspection_outcome<E: SymbolExtractor, H: SimilarityHasher>(
    extractor: E,
    hasher: H,
    path: Seq<char>,
    r: HashInspection,
)
    requires
        file_inspection(extractor, hasher, path, r),
    ensures
        file_outcome(extractor, hasher, path, r.result.outcome),
{
    let x = choose|x: Result<SymbolExtraction, TelfhashError>|
        #![trigger extractor.extracts(path, x)]
        extractor.extracts(path, x) && inspection_answer(hasher, x, r);
    assert(extraction_outcome(hasher, x, r.result.outcome));
}

/// The outcome the file at `path` may get: that of a result the extractor
/// may give for it, hashed by `hasher`.
pub open spec fn file_outcome<E: SymbolExtractor, H: SimilarityHasher>(
    extractor: E,
    hasher: H,
    path: Seq<char>,
    outcome: TelfhashOutcome,
) -> bool {
    exists|x: Result<SymbolExtraction, TelfhashError>|
        #![trigger extractor.extracts(path, x)]
        extractor.extracts(path, x) && extraction_outcome(hasher, x, outcome)
}

impl<E, H> TelfhashService<E, H> {
    /// The extractor the service reads files with.
    pub closed spec fn extractor_spec(self) -> E {
        self.extractor
    }

    /// The hasher the service hashes and compares with.
    pub closed spec fn hasher_spec(self) -> H {
        self.hasher
    }
}

impl<E, H: SimilarityHasher> TelfhashService<E, H> {
    /// A service over the given extractor and hasher.
    pub fn new(extractor: E, hasher: H) -> (r: Self)
        ensures
            r.extractor_spec() == extractor,
            r.hasher_spec() == hasher,
    {
        TelfhashService { extractor, hasher }
    }

    /// Hashes the symbols of a successful extraction of the file at `path`.
    fn finish_hash(&self, path: &str, extraction: SymbolExtraction) -> (r: TelfhashResult)
        ensures
            r.file@ == path@,
            finished_outcome(self.hasher_spec(), extraction, r.outcome),
    {
        let reason = if extraction.debug.fallback_reason.is_some() {
            NoSymbolsReason::NoCallDestinations
        } else {
            NoSymbolsReason::FilteredOut
        };
        let symbols = extraction.symbols;
        if symbols.len() == 0 {
            return TelfhashResult::no_symbols(String::from_str(path), reason);
        }
        let hashed = self.hasher.hash_symbols(symbols.as_slice());
        result_from_hash(path, hashed)
    }

    /// The inspection of the file at `path` for the outcome of its extraction:
    /// a failed extraction maps to the matching failure, a successful one is
    /// hashed and kept.
    pub fn inspect_extraction(
        &self,
        path: &str,
        extraction: Result<SymbolExtraction, TelfhashError>,
    ) -> (r: HashInspection)
        ensures
            r.result.file@ == path@,
            inspection_answer(self.hasher_spec(), extraction, r),
    {
        match extraction {
            Ok(extraction) => {
                let result = self.finish_hash(path, extraction.clone());
                HashInspection::with_extraction(result, extraction)
            },
            Err(TelfhashError::InvalidElf) => HashInspection::without_extraction(
                TelfhashResult::invalid_elf(String::from_str(path)),
            ),
            Err(TelfhashError::UnsupportedArchitecture) => HashInspection::without_extraction(
                TelfhashResult::unsupported_architecture(String::from_str(path)),
            ),
            Err(error) => {
                let message = error.message();
                HashInspection::without_extraction(
                    TelfhashResult::failure(String::from_str(path), message.as_str()),
                )
            },
        }
    }

    /// Groups hash results by the policy of `mode`.
    pub fn group(&self, results: &[TelfhashResult], threshold: u32, mode: GroupingMode) -> (r:
        Result<GroupingResult, TelfhashError>)
        ensures
            grouped_in_mode(self.hasher_spec(), results@, threshold, mode, r),
    {
        match mode {
            GroupingMode::Compatible => LegacyGroupingPolicy.group(results, threshold, &self.hasher),
            GroupingMode::ConnectedComponents => ConnectedComponentsPolicy.group(
                results,
                threshold,
                &self.hasher,
            ),
        }
    }

    /// The grouping a plan asks for, when there are at least two inspections.
    fn resolve_grouping(&self, inspections: &Vec<HashInspection>, grouping: Option<GroupingPlan>) -> (r:
        Result<Option<GroupingResult>, TelfhashError>)
        ensures
            resolved_fits(self.hasher_spec(), inspections@, grouping, r),
    {
        let plan = match grouping {
            None => return Ok(None),
            Some(plan) => plan,
        };
        if inspections.len() < 2 {
            return Ok(None);
        }
        let mut results: Vec<TelfhashResult> = Vec::new();
        for i in 0..inspections.len()
            invariant
                results@ == inspections@.take(i as int).map_values(|x: HashInspection| x.result),
        {
            results.push(inspections[i].result.clone());
            proof {
                assert(inspections@.take(i + 1).map_values(|x: HashInspection| x.result) =~= inspections@.take(
                    i as int,
                ).map_values(|x: HashInspection| x.result).push(inspections@[i as int].result));
            }
        }
        proof {
            assert(inspections@.take(inspections@.len() as int) =~= inspections@);
        }
        match self.group(results.as_slice(), plan.threshold, plan.mode) {
            Ok(g) => Ok(Some(g)),
            Err(e) => Err(e),
        }
    }
}

impl<E: SymbolExtractor, H: SimilarityHasher> TelfhashService<E, H> {
    /// Extracts and hashes the file at `path`.
    pub fn inspect_file(&self, path: &str) -> (r: HashInspection)
        ensures
            r.result.file@ == path@,
            file_inspection(self.extractor_spec(), self.hasher_spec(), path@, r),
    {
        let extraction = self.extractor.extract_symbols(path);
        let ghost x = extraction;
        let r = self.inspect_extraction(path, extraction);
        proof {
            assert(self.extractor.extracts(path@, x));
        }
        r
    }

    /// The hash result of the file at `path`.
    pub fn hash_file(&self, path: &str) -> (r: TelfhashResult)
        ensures
            r.file@ == path@,
            file_outcome(self.extractor_spec(), self.hasher_spec(), path@, r.outcome),
    {
        let inspection = self.inspect_file(path);
        proof {
            lemma_file_inspection_outcome(self.extractor, self.hasher, path@, inspection);
        }
        inspection.result
    }

    /// Inspects each file, in order.
    pub fn inspect_files(&self, paths: &[String]) -> (r: Vec<HashInspection>)
        ensures
            r@.len() == paths@.len(),
            forall|i: int|
                0 <= i < r@.len() ==> #[trigger] r@[i].result.file@ == paths@[i]@ && file_inspection(
                    self.extractor_spec(),
                    self.hasher_spec(),
                    paths@[i]@,
                    r@[i],
                ),
    {
        let mut out: Vec<HashInspection> = Vec::new();
        let n = paths.len();
        let mut i: usize = 0;
        while i < n
            invariant
                n == paths@.len(),
                i <= n,
                out@.len() == i,
                forall|k: int|
                    0 <= k < i ==> #[trigger] out@[k].result.file@ == paths@[k]@ && file_inspection(
                        self.extractor_spec(),
                        self.hasher_spec(),
                        paths@[k]@,
                        out@[k],
                    ),
            decreases n - i,
        {
            let path = paths[i].as_str();
            let inspection = self.inspect_file(path);
            proof {
                assert(path@ == paths@[i as int]@);
            }
            out.push(inspection);
            i = i + 1;
        }
        out
    }

    /// Hashes each file, in order.
    pub fn hash_files(&self, paths: &[String]) -> (r: Vec<TelfhashResult>)
        ensures
            r@.len() == paths@.len(),
            forall|i: int|
                0 <= i < r@.len() ==> #[trigger] r@[i].file@ == paths@[i]@ && file_outcome(
                    self.extractor_spec(),
                    self.hasher_spec(),
                    paths@[i]@,
                    r@[i].outcome,
                ),
    {
        let mut out: Vec<TelfhashResult> = Vec::new();
        let n = paths.len();
        let mut i: usize = 0;
        while i < n
            invariant
                n == paths@.len(),
                i <= n,
                out@.len() == i,
                forall|k: int|
                    0 <= k < i ==> #[trigger] out@[k].file@ == paths@[k]@ && file_outcome(
                        self.extractor_spec(),
                        self.hasher_spec(),
                        paths@[k]@,
                        out@[k].outcome,
                    ),
            decreases n - i,
        {
            let path = paths[i].as_str();
            let result = self.hash_file(path);
            proof {
                assert(path@ == paths@[i as int]@);
            }
            out.push(result);
            i = i + 1;
        }
        out
    }

    /// Inspects the requested files, then groups them when the request asks
    /// for it and there are at least two.
    pub fn analyze(&self, request: &AnalysisRequest) -> (r: Result<AnalysisReport, TelfhashError>)
        ensures
            r matches Ok(report) ==> report_fits(self.extractor_spec(), self.hasher_spec(), *request, report),
            (request.grouping is None || request.paths@.len() < 2) ==> r is Ok,
            r matches Err(e) ==> analysis_failure(self.extractor_spec(), self.hasher_spec(), *request, e),
    {
        let inspections = self.inspect_files(request.paths.as_slice());
        let grouping = match self.resolve_grouping(&inspections, request.grouping) {
            Ok(g) => g,
            Err(e) => {
                proof {
                    let results = inspections@.map_values(|i: HashInspection| i.result);
                    assert forall|i: int| 0 <= i < results.len() implies #[trigger] results[i].file@
                        == request.paths@[i]@ && file_outcome(
                        self.extractor,
                        self.hasher,
                        request.paths@[i]@,
                        results[i].outcome,
                    ) by {
                        assert(inspections@[i].result.file@ == request.paths@[i]@);
                        lemma_file_inspection_outcome(
                            self.extractor,
                            self.hasher,
                            request.paths@[i]@,
                            inspections@[i],
                        );
                    }
                    assert(first_failure_measured(self.hasher, eligible_digests(results), e));
                }
                return Err(e);
            },
        };
        Ok(AnalysisReport::new(inspections, grouping))
    }
}

} // verus!
