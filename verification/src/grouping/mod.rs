//! The two grouping policies.
pub mod graph;
pub mod common;
pub mod connected;
pub mod compatible;
pub mod laws;

use vstd::prelude::*;
use crate::error::TelfhashError;
use crate::model::{GroupingResult, TelfhashResult};
use crate::ports::{GroupingPolicy, SimilarityHasher};
use crate::grouping::common::{eligible_digests, eligible_files, first_failure_measured};

verus! {

/// The legacy-compatible grouping heuristic: each qualifying pair seeds a
/// group, and groups covered by others are dropped.
pub struct LegacyGroupingPolicy;

/// Grouping by connected components of the similarity links.
pub struct ConnectedComponentsPolicy;

impl GroupingPolicy for LegacyGroupingPolicy {
    fn group<H: SimilarityHasher>(
        &self,
        results: &[TelfhashResult],
        threshold: u32,
        hasher: &H,
    ) -> (r: Result<GroupingResult, TelfhashError>)
        ensures
            eligible_files(results@).len() < 2 ==> r is Ok,
            r is Ok ==> compatible::grouped_by_measures(
                *hasher,
                results@,
                threshold,
                r->Ok_0.grouped.deep_view(),
                r->Ok_0.nogroup.deep_view(),
            ),
            r matches Err(e) ==> first_failure_measured(*hasher, eligible_digests(results@), e),
    {
        compatible::group_results(results, threshold, hasher)
    }

    fn name(&self) -> (r: &'static str)
        ensures
            r@ == "compatible"@,
    {
        "compatible"
    }
}

impl GroupingPolicy for ConnectedComponentsPolicy {
    fn group<H: SimilarityHasher>(
        &self,
        results: &[TelfhashResult],
        threshold: u32,
        hasher: &H,
    ) -> (r: Result<GroupingResult, TelfhashError>)
        ensures
            eligible_files(results@).len() < 2 ==> r is Ok,
            r is Ok ==> connected::grouped_by_measures(
                *hasher,
                results@,
                threshold,
                r->Ok_0.grouped.deep_view(),
                r->Ok_0.nogroup.deep_view(),
            ),
            r matches Err(e) ==> first_failure_measured(*hasher, eligible_digests(results@), e),
    {
        connected::group_results(results, threshold, hasher)
    }

    fn name(&self) -> (r: &'static str)
        ensures
            r@ == "connected-components"@,
    {
        "connected-components"
    }
}

} // verus!
