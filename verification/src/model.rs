//! The domain values: what hashing a file yields, and how files are grouped.
use vstd::prelude::*;
use vstd::utf8::encode_utf8;

verus! {

broadcast use vstd::string::group_string_axioms;

/// Length in bytes of a full TLSH digest as rendered (`T1` and 70 hex digits).
pub const GROUPABLE_DIGEST_LEN: usize = 72;

/// Why TLSH produced no digest.
#[derive(Debug, Clone, Copy, PartialEq, Eq)]
pub enum NullDigestReason {
    InsufficientInformation,
}

/// What hashing a symbol list produced.
#[derive(Debug, PartialEq, Eq)]
pub enum HashValue {
    Digest(String),
    NullDigest(NullDigestReason),
}

/// Why no symbol list could be hashed.
#[derive(Debug, Clone, Copy, PartialEq, Eq)]
pub enum NoSymbolsReason {
    FilteredOut,
    NoCallDestinations,
}

/// Why a file could not be analysed.
#[derive(Debug, PartialEq, Eq)]
pub enum FailureReason {
    InvalidElf,
    UnsupportedArchitecture,
    Message(String),
}

/// The outcome of hashing one file.
#[derive(Debug, PartialEq, Eq)]
pub enum TelfhashOutcome {
    Hash(HashValue),
    NoSymbols(NoSymbolsReason),
    Error(FailureReason),
}

/// A file and the outcome of hashing it.
#[derive(Debug, PartialEq, Eq)]
pub struct TelfhashResult {
    pub file: String,
    pub outcome: TelfhashOutcome,
}

/// Groups of similar files, and the comparable files that fell in no group.
#[derive(Debug, PartialEq, Eq)]
pub struct GroupingResult {
    pub grouped: Vec<Vec<String>>,
    pub nogroup: Vec<String>,
}

/// How comparable files are grouped.
#[derive(Debug, Clone, Copy, PartialEq, Eq)]
pub enum GroupingMode {
    Compatible,
    ConnectedComponents,
}

/// Diagnostics gathered while extracting symbols from a file.
#[derive(Debug, PartialEq, Eq)]
pub struct ExtractionDebug {
    pub elf_class: Option<String>,
    pub symbol_table: Option<String>,
    pub symbols_found: usize,
    pub symbols_considered: usize,
    pub fallback_reason: Option<String>,
}

/// The symbols extracted from a file, with the diagnostics of the extraction.
#[derive(Debug, PartialEq, Eq)]
pub struct SymbolExtraction {
    pub symbols: Vec<String>,
    pub debug: ExtractionDebug,
}

/// The text of a digest, if the value is one.
pub open spec fn hash_digest_text(h: HashValue) -> Option<Seq<char>> {
    match h {
        HashValue::Digest(d) => Some(d@),
        HashValue::NullDigest(_) => None,
    }
}

/// The text of the digest an outcome carries, if any.
pub open spec fn outcome_digest_text(o: TelfhashOutcome) -> Option<Seq<char>> {
    match o {
        TelfhashOutcome::Hash(h) => hash_digest_text(h),
        _ => None,
    }
}

/// Two outcomes say the same: the same kind, the same reason, and digests
/// or messages of the same text.
pub open spec fn same_outcome(a: TelfhashOutcome, b: TelfhashOutcome) -> bool {
    match a {
        TelfhashOutcome::Hash(HashValue::Digest(x)) => b matches TelfhashOutcome::Hash(
            HashValue::Digest(y),
        ) && x@ == y@,
        TelfhashOutcome::Hash(HashValue::NullDigest(r)) => b == TelfhashOutcome::Hash(
            HashValue::NullDigest(r),
        ),
        TelfhashOutcome::NoSymbols(r) => b == TelfhashOutcome::NoSymbols(r),
        TelfhashOutcome::Error(FailureReason::Message(x)) => b matches TelfhashOutcome::Error(
            FailureReason::Message(y),
        ) && x@ == y@,
        TelfhashOutcome::Error(f) => b == TelfhashOutcome::Error(f),
    }
}

/// A digest text is comparable when it is a full TLSH digest of 72 bytes.
pub open spec fn groupable_text(t: Option<Seq<char>>) -> bool {
    t matches Some(d) && encode_utf8(d).len() == GROUPABLE_DIGEST_LEN
}

/// A result takes part in grouping.
pub open spec fn result_groupable(r: TelfhashResult) -> bool {
    groupable_text(outcome_digest_text(r.outcome))
}

/// Replaces each backslash of a path by a slash.
pub open spec fn portable_chars(p: Seq<char>) -> Seq<char> {
    p.map_values(|c: char| if c == '\\' { '/' } else { c })
}

impl Clone for HashValue {
    fn clone(&self) -> (r: Self)
        ensures
            r == *self,
    {
        match self {
            HashValue::Digest(d) => HashValue::Digest(d.clone()),
            HashValue::NullDigest(n) => HashValue::NullDigest(*n),
        }
    }
}

impl Clone for FailureReason {
    fn clone(&self) -> (r: Self)
        ensures
            r == *self,
    {
        match self {
            FailureReason::InvalidElf => FailureReason::InvalidElf,
            FailureReason::UnsupportedArchitecture => FailureReason::UnsupportedArchitecture,
            FailureReason::Message(m) => FailureReason::Message(m.clone()),
        }
    }
}

impl Clone for TelfhashOutcome {
    fn clone(&self) -> (r: Self)
        ensures
            r == *self,
    {
        match self {
            TelfhashOutcome::Hash(h) => TelfhashOutcome::Hash(h.clone()),
            TelfhashOutcome::NoSymbols(n) => TelfhashOutcome::NoSymbols(*n),
            TelfhashOutcome::Error(e) => TelfhashOutcome::Error(e.clone()),
        }
    }
}

impl Clone for TelfhashResult {
    fn clone(&self) -> (r: Self)
        ensures
            r == *self,
    {
        TelfhashResult { file: self.file.clone(), outcome: self.outcome.clone() }
    }
}

impl Clone for ExtractionDebug {
    fn clone(&self) -> (r: Self)
        ensures
            r == *self,
    {
        ExtractionDebug {
            elf_class: copy_text(&self.elf_class),
            symbol_table: copy_text(&self.symbol_table),
            symbols_found: self.symbols_found,
            symbols_considered: self.symbols_considered,
            fallback_reason: copy_text(&self.fallback_reason),
        }
    }
}

impl Default for ExtractionDebug {
    /// No class, no table, no counts and no note.
    fn default() -> (r: Self)
        ensures
            r.elf_class is None,
            r.symbol_table is None,
            r.symbols_found == 0,
            r.symbols_considered == 0,
            r.fallback_reason is None,
    {
        ExtractionDebug {
            elf_class: None,
            symbol_table: None,
            symbols_found: 0,
            symbols_considered: 0,
            fallback_reason: None,
        }
    }
}

impl Clone for SymbolExtraction {
    fn clone(&self) -> (r: Self)
        ensures
            r.symbols@ == self.symbols@,
            r.debug == self.debug,
    {
        SymbolExtraction { symbols: copy_strings(&self.symbols), debug: self.debug.clone() }
    }
}

/// A copy of an optional text.
pub fn copy_text(t: &Option<String>) -> (r: Option<String>)
    ensures
        r == *t,
{
    match t {
        Some(s) => Some(s.clone()),
        None => None,
    }
}

/// A copy of a list of texts.
pub fn copy_strings(v: &Vec<String>) -> (r: Vec<String>)
    ensures
        r@ == v@,
{
    let mut out: Vec<String> = Vec::new();
    for i in 0..v.len()
        invariant
            out@ == v@.take(i as int),
    {
        out.push(v[i].clone());
        proof {
            assert(v@.take(i + 1) =~= v@.take(i as int).push(v@[i as int]));
        }
    }
    proof {
        assert(v@.take(v@.len() as int) =~= v@);
    }
    out
}

impl HashValue {
    /// The digest text, for a real digest.
    pub fn digest(&self) -> (r: Option<&str>)
        ensures
            r matches Some(s) ==> hash_digest_text(*self) == Some(s@),
            r is None ==> hash_digest_text(*self) is None,
    {
        match self {
            HashValue::Digest(value) => Some(value.as_str()),
            HashValue::NullDigest(_) => None,
        }
    }

    /// A full 72-byte digest, which grouping can compare.
    pub fn is_groupable(&self) -> (r: bool)
        ensures
            r == groupable_text(hash_digest_text(*self)),
    {
        match self.digest() {
            Some(value) => value.as_bytes().len() == GROUPABLE_DIGEST_LEN,
            None => false,
        }
    }
}

impl TelfhashOutcome {
    /// The digest text, when the outcome is a real digest.
    pub fn digest(&self) -> (r: Option<&str>)
        ensures
            r matches Some(s) ==> outcome_digest_text(*self) == Some(s@),
            r is None ==> outcome_digest_text(*self) is None,
    {
        match self {
            TelfhashOutcome::Hash(value) => value.digest(),
            TelfhashOutcome::NoSymbols(_) => None,
            TelfhashOutcome::Error(_) => None,
        }
    }

    /// The outcome is a digest that grouping can compare.
    pub fn is_groupable(&self) -> (r: bool)
        ensures
            r == groupable_text(outcome_digest_text(*self)),
    {
        match self {
            TelfhashOutcome::Hash(value) => value.is_groupable(),
            _ => false,
        }
    }
}

impl TelfhashResult {
    /// A file that hashed to `digest`.
    pub fn digest(file: String, digest: String) -> (r: Self)
        ensures
            r.file == file,
            r.outcome == TelfhashOutcome::Hash(HashValue::Digest(digest)),
    {
        TelfhashResult { file, outcome: TelfhashOutcome::Hash(HashValue::Digest(digest)) }
    }

    /// A file whose symbols carried too little information for TLSH.
    pub fn null_digest(file: String) -> (r: Self)
        ensures
            r.file == file,
            r.outcome == TelfhashOutcome::Hash(
                HashValue::NullDigest(NullDigestReason::InsufficientInformation),
            ),
    {
        TelfhashResult {
            file,
            outcome: TelfhashOutcome::Hash(
                HashValue::NullDigest(NullDigestReason::InsufficientInformation),
            ),
        }
    }

    /// A file with no symbols to hash.
    pub fn no_symbols(file: String, reason: NoSymbolsReason) -> (r: Self)
        ensures
            r.file == file,
            r.outcome == TelfhashOutcome::NoSymbols(reason),
    {
        TelfhashResult { file, outcome: TelfhashOutcome::NoSymbols(reason) }
    }

    /// A file that is not a parsable ELF image.
    pub fn invalid_elf(file: String) -> (r: Self)
        ensures
            r.file == file,
            r.outcome == TelfhashOutcome::Error(FailureReason::InvalidElf),
    {
        TelfhashResult { file, outcome: TelfhashOutcome::Error(FailureReason::InvalidElf) }
    }

    /// A file for a machine that has no disassembler here.
    pub fn unsupported_architecture(file: String) -> (r: Self)
        ensures
            r.file == file,
            r.outcome == TelfhashOutcome::Error(FailureReason::UnsupportedArchitecture),
    {
        TelfhashResult {
            file,
            outcome: TelfhashOutcome::Error(FailureReason::UnsupportedArchitecture),
        }
    }

    /// A file whose analysis failed with a message.
    pub fn failure(file: String, msg: &str) -> (r: Self)
        ensures
            r.file == file,
            r.outcome matches TelfhashOutcome::Error(FailureReason::Message(m)) && m@ == msg@,
    {
        TelfhashResult {
            file,
            outcome: TelfhashOutcome::Error(FailureReason::Message(String::from_str(msg))),
        }
    }

    /// The result takes part in grouping.
    pub fn is_groupable(&self) -> (r: bool)
        ensures
            r == result_groupable(*self),
    {
        self.outcome.is_groupable()
    }

    /// The digest text, when the file hashed to a real digest.
    pub fn digest_str(&self) -> (r: Option<&str>)
        ensures
            r matches Some(s) ==> outcome_digest_text(self.outcome) == Some(s@),
            r is None ==> outcome_digest_text(self.outcome) is None,
    {
        self.outcome.digest()
    }

    /// The file's path with slashes as separators.
    pub fn file_display(&self) -> (r: String)
        ensures
            r@ == portable_chars(self.file@),
    {
        portable_path_display(self.file.as_str())
    }
}

impl FailureReason {
    /// The message reported for the failure.
    pub fn message(&self) -> (r: &str)
        ensures
            r@ == match *self {
                FailureReason::InvalidElf => "Could not parse file as ELF"@,
                FailureReason::UnsupportedArchitecture => "Unsupported ELF architecture"@,
                FailureReason::Message(m) => m@,
            },
    {
        match self {
            FailureReason::InvalidElf => "Could not parse file as ELF",
            FailureReason::UnsupportedArchitecture => "Unsupported ELF architecture",
            FailureReason::Message(message) => message.as_str(),
        }
    }
}

impl GroupingResult {
    /// No groups and no ungrouped files.
    pub fn empty() -> (r: Self)
        ensures
            r.grouped@.len() == 0,
            r.nogroup@.len() == 0,
    {
        GroupingResult { grouped: Vec::new(), nogroup: Vec::new() }
    }
}

impl GroupingMode {
    /// The mode's name on the command line.
    pub fn cli_name(self) -> (r: &'static str)
        ensures
            r@ == match self {
                GroupingMode::Compatible => "compatible"@,
                GroupingMode::ConnectedComponents => "connected-components"@,
            },
    {
        match self {
            GroupingMode::Compatible => "compatible",
            GroupingMode::ConnectedComponents => "connected-components",
        }
    }
}

/// Renders a path with `/` in place of every `\`.
pub fn portable_path_display(path: &str) -> (r: String)
    ensures
        r@ == portable_chars(path@),
{
    let mut out = String::new();
    for c in it: path.chars()
        invariant
            it.seq() == path@,
            out@ == portable_chars(it.seq().take(it.index())),
    {
        proof {
            assert(portable_chars(it.seq().take(it.index() + 1)) =~= portable_chars(
                it.seq().take(it.index()),
            ).push(if c == '\\' { '/' } else { c }));
        }
        if c == '\\' {
            out.push('/');
        } else {
            out.push(c);
        }
    }
    proof {
        assert(path@.take(path@.len() as int) =~= path@);
    }
    out
}

/// A portable path holds no backslash, keeps its length, and stays as it is
/// when made portable again.
pub proof fn law_portable_paths(p: Seq<char>)
    ensures
        !portable_chars(p).contains('\\'),
        portable_chars(p).len() == p.len(),
        portable_chars(portable_chars(p)) == portable_chars(p),
{
    assert(portable_chars(portable_chars(p)) =~= portable_chars(p));
    if portable_chars(p).contains('\\') {
        let m = choose|m: int| 0 <= m < portable_chars(p).len() && portable_chars(p)[m] == '\\';
    }
}

} // verus!
