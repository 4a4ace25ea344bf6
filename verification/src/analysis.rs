//! Requests for an analysis run and the reports it produces.
use vstd::prelude::*;
use crate::model::{GroupingMode, GroupingResult, TelfhashResult};
use crate::service::HashInspection;

verus! {

/// How and with what threshold hash results are grouped.
#[derive(Debug, Clone, Copy, PartialEq, Eq)]
pub struct GroupingPlan {
    pub threshold: u32,
    pub mode: GroupingMode,
}

impl GroupingPlan {
    /// A plan with the given threshold and mode.
    pub fn new(threshold: u32, mode: GroupingMode) -> (r: Self)
        ensures
            r.threshold == threshold,
            r.mode == mode,
    {
        GroupingPlan { threshold, mode }
    }
}

/// The files to hash and, optionally, how to group them.
#[derive(Debug, PartialEq, Eq)]
pub struct AnalysisRequest {
    pub paths: Vec<String>,
    pub grouping: Option<GroupingPlan>,
}

impl AnalysisRequest {
    /// Hash the files, group nothing.
    pub fn hashes_only(paths: Vec<String>) -> (r: Self)
        ensures
            r.paths == paths,
            r.grouping is None,
    {
        AnalysisRequest { paths, grouping: None }
    }

    /// Hash the files, then group them by the plan.
    pub fn with_grouping(paths: Vec<String>, grouping: GroupingPlan) -> (r: Self)
        ensures
            r.paths == paths,
            r.grouping == Some(grouping),
    {
        AnalysisRequest { paths, grouping: Some(grouping) }
    }
}

/// What an analysis run found: one inspection per file, and the grouping if any.
#[derive(Debug, PartialEq, Eq)]
pub struct AnalysisReport {
    pub inspections: Vec<HashInspection>,
    pub grouping: Option<GroupingResult>,
}

impl AnalysisReport {
    /// A report of the given inspections and grouping.
    pub fn new(inspections: Vec<HashInspection>, grouping: Option<GroupingResult>) -> (r: Self)
        ensures
            r.inspections == inspections,
            r.grouping == grouping,
    {
        AnalysisReport { inspections, grouping }
    }

    /// The hash result of each inspection, in order.
    pub fn results(&self) -> (r: Vec<&TelfhashResult>)
        ensures
            r@.len() == self.inspections@.len(),
            forall|i: int| 0 <= i < r@.len() ==> *#[trigger] r@[i] == self.inspections@[i].result,
    {
        let mut out: Vec<&TelfhashResult> = Vec::new();
        for i in 0..self.inspections.len()
            invariant
                out@.len() == i,
                forall|k: int| 0 <= k < i ==> *#[trigger] out@[k] == self.inspections@[k].result,
        {
            out.push(&self.inspections[i].result);
        }
        out
    }

    /// A copy of the hash result of each inspection, in order.
    pub fn owned_results(&self) -> (r: Vec<TelfhashResult>)
        ensures
            r@.len() == self.inspections@.len(),
            forall|i: int| 0 <= i < r@.len() ==> #[trigger] r@[i] == self.inspections@[i].result,
    {
        let mut out: Vec<TelfhashResult> = Vec::new();
        for i in 0..self.inspections.len()
            invariant
                out@.len() == i,
                forall|k: int| 0 <= k < i ==> #[trigger] out@[k] == self.inspections@[k].result,
        {
            out.push(self.inspections[i].result.clone());
        }
        out
    }
}

} // verus!
