//! The library's entry points: hashing ELF files with the built-in
//! extractor and TLSH hasher, and grouping the results.
use vstd::prelude::*;
use crate::elf::image::parsed_elf;
use crate::elf::{image_extraction_answer, GoblinElfSymbolExtractor};
use crate::error::TelfhashError;
use crate::model::{
    same_outcome, GroupingMode, GroupingResult, SymbolExtraction, TelfhashOutcome, TelfhashResult,
};
use crate::service::{
    extraction_outcome, grouped_in_mode, inspection_answer, HashInspection, TelfhashService,
};
use crate::text::texts;
use crate::tlsh::{symbol_payload, TlshRsHasher};

verus! {

/// How results are grouped, and whether diagnostics are wanted.
#[derive(Debug, Clone, PartialEq, Eq)]
pub struct TelfhashOptions {
    pub debug: bool,
    pub grouping_mode: GroupingMode,
    pub threshold: u32,
}

impl Default for TelfhashOptions {
    /// No diagnostics, the compatible grouping, and a threshold of 50.
    fn default() -> (r: Self)
        ensures
            !r.debug,
            r.grouping_mode == GroupingMode::Compatible,
            r.threshold == 50,
    {
        TelfhashOptions { debug: false, grouping_mode: GroupingMode::Compatible, threshold: 50 }
    }
}

/// What extracting the symbols of a file yields, given what reading it
/// gave: the read error, an invalid ELF file, or the extraction of its
/// image.
pub open spec fn contents_extraction(
    contents: Result<Vec<u8>, std::io::Error>,
    x: Result<SymbolExtraction, TelfhashError>,
) -> bool {
    match contents {
        Err(e) => x == Err::<SymbolExtraction, TelfhashError>(TelfhashError::Io(e)),
        Ok(bytes) => match parsed_elf(bytes@) {
            None => x matches Err(TelfhashError::InvalidElf),
            Some(image) => image_extraction_answer(image, bytes@, x),
        },
    }
}

/// The outcome hashing a file gives, given what reading it gave: that of an
/// extraction of the file, hashed with TLSH.
pub open spec fn file_outcome(contents: Result<Vec<u8>, std::io::Error>, outcome: TelfhashOutcome) -> bool {
    exists|x: Result<SymbolExtraction, TelfhashError>|
        #![trigger contents_extraction(contents, x)]
        contents_extraction(contents, x) && extraction_outcome(TlshRsHasher, x, outcome)
}

/// The inspection a file gets, given what reading it gave: that of an
/// extraction of the file, hashed with TLSH, which carries the extraction
/// when there is one and nothing when it failed.
pub open spec fn contents_inspection(contents: Result<Vec<u8>, std::io::Error>, r: HashInspection) -> bool {
    exists|x: Result<SymbolExtraction, TelfhashError>|
        #![trigger contents_extraction(contents, x)]
        contents_extraction(contents, x) && inspection_answer(TlshRsHasher, x, r)
}

/// Two extractions of the same bytes agree: on success in the symbols'
/// texts and in whether call destinations were used, on failure in the
/// error and its text.
spec fn same_extraction(
    a: Result<SymbolExtraction, TelfhashError>,
    b: Result<SymbolExtraction, TelfhashError>,
) -> bool {
    match a {
        Ok(x) => b matches Ok(y) && x.symbols.deep_view() == y.symbols.deep_view() && (
        x.debug.fallback_reason is Some) == (y.debug.fallback_reason is Some),
        Err(TelfhashError::Message(m)) => b matches Err(TelfhashError::Message(n)) && m@ == n@,
        Err(TelfhashError::InvalidElf) => b matches Err(TelfhashError::InvalidElf),
        Err(TelfhashError::UnsupportedArchitecture) => b matches Err(
            TelfhashError::UnsupportedArchitecture,
        ),
        Err(_) => false,
    }
}

/// Extracting the symbols of bytes read is determined by the bytes.
proof fn lemma_extraction_determined(
    bytes: Vec<u8>,
    a: Result<SymbolExtraction, TelfhashError>,
    b: Result<SymbolExtraction, TelfhashError>,
)
    requires
        contents_extraction(Ok(bytes), a),
        contents_extraction(Ok(bytes), b),
    ensures
        same_extraction(a, b),
{
}

/// Hashing extractions that agree with TLSH gives outcomes that say the same.
proof fn lemma_outcome_of_same_extraction(
    a: Result<SymbolExtraction, TelfhashError>,
    b: Result<SymbolExtraction, TelfhashError>,
    oa: TelfhashOutcome,
    ob: TelfhashOutcome,
)
    requires
        same_extraction(a, b),
        extraction_outcome(TlshRsHasher, a, oa),
        extraction_outcome(TlshRsHasher, b, ob),
    ensures
        same_outcome(oa, ob),
{
    if a is Ok {
        let x = a->Ok_0;
        let y = b->Ok_0;
        assert(x.symbols.deep_view() == y.symbols.deep_view());
        assert(x.symbols@.len() == y.symbols@.len()) by {
            assert(x.symbols.deep_view().len() == x.symbols@.len());
            assert(y.symbols.deep_view().len() == y.symbols@.len());
        }
        assert(texts(x.symbols@) =~= texts(y.symbols@)) by {
            assert forall|i: int| 0 <= i < x.symbols@.len() implies texts(x.symbols@)[i] == texts(
                y.symbols@,
            )[i] by {
                assert(x.symbols.deep_view()[i] == x.symbols@[i]@);
                assert(y.symbols.deep_view()[i] == y.symbols@[i]@);
            }
        }
        assert(symbol_payload(x.symbols@) == symbol_payload(y.symbols@));
    }
}

/// Hashing the same bytes twice gives outcomes that say the same: the
/// outcome of a file the engine reads is a function of its bytes. So
/// `hash_file`, `inspect_file` and `hash_paths`, of the engine or with a new
/// one, agree on every file whose bytes were read.
pub proof fn law_outcome_determined_by_bytes(bytes: Vec<u8>, a: TelfhashOutcome, b: TelfhashOutcome)
    requires
        file_outcome(Ok(bytes), a),
        file_outcome(Ok(bytes), b),
    ensures
        same_outcome(a, b),
{
    let xa = choose|x: Result<SymbolExtraction, TelfhashError>|
        #![trigger contents_extraction(Ok(bytes), x)]
        contents_extraction(Ok(bytes), x) && extraction_outcome(TlshRsHasher, x, a);
    let xb = choose|x: Result<SymbolExtraction, TelfhashError>|
        #![trigger contents_extraction(Ok(bytes), x)]
        contents_extraction(Ok(bytes), x) && extraction_outcome(TlshRsHasher, x, b);
    lemma_extraction_determined(bytes, xa, xb);
    lemma_outcome_of_same_extraction(xa, xb, a, b);
}

/// Hashes ELF files with the built-in extractor and the TLSH hasher, and
/// groups the results.
pub struct TelfhashEngine {
    inner: TelfhashService<GoblinElfSymbolExtractor, TlshRsHasher>,
}

impl TelfhashEngine {
    /// An engine over the ELF extractor and the TLSH hasher.
    pub fn new() -> (r: Self)
        ensures
            r.hasher() == TlshRsHasher,
    {
        TelfhashEngine { inner: TelfhashService::new(GoblinElfSymbolExtractor, TlshRsHasher) }
    }

    /// The hasher the engine hashes and compares with.
    pub closed spec fn hasher(self) -> TlshRsHasher {
        self.inner.hasher_spec()
    }

    /// The inspection of the file at `path`, given what reading it gave.
    pub fn inspect_file(&self, path: &str, contents: Result<Vec<u8>, std::io::Error>) -> (r:
        HashInspection)
        ensures
            r.result.file@ == path@,
            file_outcome(contents, r.result.outcome),
            contents_inspection(contents, r),
    {
        let ghost read = contents;
        let extraction = match contents {
            Ok(bytes) => GoblinElfSymbolExtractor.extract_symbols_from_bytes(bytes.as_slice()),
            Err(error) => Err(TelfhashError::Io(error)),
        };
        let ghost x = extraction;
        let inspection = self.inner.inspect_extraction(path, extraction);
        proof {
            assert(contents_extraction(read, x));
            assert(extraction_outcome(TlshRsHasher, x, inspection.result.outcome));
        }
        inspection
    }

    /// Hashes the file at `path`, given what reading it gave.
    pub fn hash_file(
        &self,
        path: &str,
        contents: Result<Vec<u8>, std::io::Error>,
        options: &TelfhashOptions,
    ) -> (r: Result<TelfhashResult, TelfhashError>)
        ensures
            r matches Ok(x) && x.file@ == path@ && file_outcome(contents, x.outcome),
    {
        Ok(self.inspect_file(path, contents).result)
    }

    /// Hashes files, given what reading each gave, in input order.
    pub fn hash_paths(
        &self,
        files: Vec<(String, Result<Vec<u8>, std::io::Error>)>,
        options: &TelfhashOptions,
    ) -> (r: Result<Vec<TelfhashResult>, TelfhashError>)
        ensures
            r matches Ok(v) && v@.len() == files@.len() && forall|i: int|
                0 <= i < v@.len() ==> #[trigger] v@[i].file@ == files@[i].0@ && file_outcome(
                    files@[i].1,
                    v@[i].outcome,
                ),
    {
        let ghost given = files@;
        let mut out: Vec<TelfhashResult> = Vec::new();
        for file in it: files
            invariant
                it.seq() == given,
                out@.len() == it.index(),
                forall|k: int|
                    0 <= k < it.index() ==> #[trigger] out@[k].file@ == given[k].0@ && file_outcome(
                        given[k].1,
                        out@[k].outcome,
                    ),
        {
            let (path, contents) = file;
            out.push(self.inspect_file(path.as_str(), contents).result);
        }
        Ok(out)
    }

    /// Groups hash results by the options' mode and threshold.
    pub fn group(&self, results: &[TelfhashResult], options: &TelfhashOptions) -> (r: Result<
        GroupingResult,
        TelfhashError,
    >)
        ensures
            grouped_in_mode(TlshRsHasher, results@, options.threshold, options.grouping_mode, r),
    {
        self.inner.group(results, options.threshold, options.grouping_mode)
    }
}

impl Default for TelfhashEngine {
    fn default() -> (r: Self)
        ensures
            r.hasher() == TlshRsHasher,
    {
        TelfhashEngine::new()
    }
}

/// Hashes the file at `path`, given what reading it gave, with a new
/// engine.
pub fn hash_file(path: &str, contents: Result<Vec<u8>, std::io::Error>, options: &TelfhashOptions) -> (r:
    Result<TelfhashResult, TelfhashError>)
    ensures
        r matches Ok(x) && x.file@ == path@ && file_outcome(contents, x.outcome),
{
    TelfhashEngine::new().hash_file(path, contents, options)
}

/// Hashes files, given what reading each gave, in input order, with a new
/// engine.
pub fn hash_paths(files: Vec<(String, Result<Vec<u8>, std::io::Error>)>, options: &TelfhashOptions) -> (r:
    Result<Vec<TelfhashResult>, TelfhashError>)
    ensures
        r matches Ok(v) && v@.len() == files@.len() && forall|i: int|
            0 <= i < v@.len() ==> #[trigger] v@[i].file@ == files@[i].0@ && file_outcome(
                files@[i].1,
                v@[i].outcome,
            ),
{
    let ghost given = files@;
    let engine = TelfhashEngine::new();
    let r = engine.hash_paths(files, options);
    proof {
        assert(r is Ok);
        let v = r->Ok_0;
        assert(v@.len() == given.len());
        assert forall|i: int| 0 <= i < v@.len() implies #[trigger] v@[i].file@ == given[i].0@ && file_outcome(given[i].1, v@[i].outcome) by {
            assert(v@[i].file@ == given[i].0@);
        }
    }
    r
}

/// Groups hash results by the options' mode and threshold, with a new
/// engine.
pub fn group_results(results: &[TelfhashResult], options: &TelfhashOptions) -> (r: Result<
    GroupingResult,
    TelfhashError,
>)
    ensures
        grouped_in_mode(TlshRsHasher, results@, options.threshold, options.grouping_mode, r),
{
    TelfhashEngine::new().group(results, options)
}

} // verus!
