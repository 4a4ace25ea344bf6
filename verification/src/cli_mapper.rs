//! From what the command line asked for to an analysis request and an
//! output request; and the list of files the inputs name.
use vstd::prelude::*;
use crate::analysis::{AnalysisRequest, GroupingPlan};
use crate::elf::disasm::{lemma_push_unique, push_unique, push_unique_spec};
use crate::model::{copy_strings, GroupingMode};
use crate::output::{HashOutputFormat, OutputDestination, OutputRequest};

verus! {

/// What the command line asked for.
#[derive(Debug, PartialEq, Eq)]
pub struct CliRequest {
    pub files: Vec<String>,
    pub grouping_mode: GroupingMode,
    pub group: bool,
    pub threshold: u32,
    pub output: Option<String>,
    pub format: Option<HashOutputFormat>,
    pub debug: bool,
}

/// The listing format a command line asks for: the one named, else TSV
/// into a file, else plain.
pub open spec fn chosen_format(format: Option<HashOutputFormat>, to_file: bool) -> HashOutputFormat {
    match format {
        Some(f) => f,
        None => if to_file {
            HashOutputFormat::Tsv
        } else {
            HashOutputFormat::Plain
        },
    }
}

impl CliRequest {
    /// The analysis asked for: the files, grouped by the mode and threshold
    /// when grouping is asked for.
    pub fn to_analysis_request(&self) -> (r: AnalysisRequest)
        ensures
            r.paths@ == self.files@,
            r.grouping == (if self.group {
                Some(GroupingPlan { threshold: self.threshold, mode: self.grouping_mode })
            } else {
                None
            }),
    {
        if self.group {
            AnalysisRequest::with_grouping(
                copy_strings(&self.files),
                GroupingPlan::new(self.threshold, self.grouping_mode),
            )
        } else {
            AnalysisRequest::hashes_only(copy_strings(&self.files))
        }
    }

    /// The output asked for: the chosen format, into the named file or onto
    /// standard output, with diagnostics when debugging is asked for.
    pub fn to_output_request(&self) -> (r: OutputRequest)
        ensures
            r.format == chosen_format(self.format, self.output is Some),
            r.debug == self.debug,
            match self.output {
                Some(p) => r.destination matches OutputDestination::File(q) && q@ == p@,
                None => r.destination == OutputDestination::Stdout,
            },
    {
        let format = match self.format {
            Some(format) => format,
            None => if self.output.is_some() {
                HashOutputFormat::Tsv
            } else {
                HashOutputFormat::Plain
            },
        };
        match &self.output {
            Some(path) => OutputRequest::file(format, path.clone(), self.debug),
            None => OutputRequest::stdout(format, self.debug),
        }
    }
}

/// The paths, each once, in the order of first appearance.
pub open spec fn unique_paths_of(paths: Seq<Seq<char>>) -> Seq<Seq<char>>
    decreases paths.len(),
{
    if paths.len() == 0 {
        Seq::empty()
    } else {
        push_unique_spec(unique_paths_of(paths.drop_last()), paths.last())
    }
}

/// The paths, each once, in the order of first appearance.
pub fn unique_paths(paths: Vec<String>) -> (r: Vec<String>)
    ensures
        r.deep_view() == unique_paths_of(paths.deep_view()),
{
    let ghost given = paths.deep_view();
    let mut out: Vec<String> = Vec::new();
    let n = paths.len();
    for path in it: paths
        invariant
            n == given.len(),
            it.seq().map_values(|p: String| p@) == given,
            out.deep_view() == unique_paths_of(given.take(it.index() as int)),
    {
        proof {
            let k = it.index() as int;
            assert(given.take(k + 1).drop_last() =~= given.take(k));
            assert(given.take(k + 1).last() == given[k]);
            assert(given[k] == it.seq()[k]@);
        }
        push_unique(&mut out, path);
    }
    proof {
        assert(given.take(n as int) =~= given);
    }
    out
}

/// The file list names each input path once, and nothing else: it has no
/// repeats, and holds a path exactly when the inputs do.
pub proof fn law_unique_paths(paths: Seq<Seq<char>>)
    ensures
        unique_paths_of(paths).no_duplicates(),
        forall|x: Seq<char>| #[trigger] unique_paths_of(paths).contains(x) <==> paths.contains(x),
    decreases paths.len(),
{
    if paths.len() > 0 {
        let p = paths.drop_last();
        law_unique_paths(p);
        lemma_push_unique(unique_paths_of(p), paths.last());
        assert forall|x: Seq<char>| #[trigger] unique_paths_of(paths).contains(x) <==> paths.contains(x) by {
            if p.contains(x) {
                let m = choose|m: int| 0 <= m < p.len() && p[m] == x;
                assert(paths[m] == x);
            }
            if paths.contains(x) {
                let m = choose|m: int| 0 <= m < paths.len() && paths[m] == x;
                if m < p.len() {
                    assert(p[m] == x);
                }
            }
            assert(paths[paths.len() - 1] == paths.last());
        }
    }
}

} // verus!
