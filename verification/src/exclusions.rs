//! Symbol names that never take part in a hash.
use vstd::prelude::*;
use crate::order::same_text;

verus! {

/// `regex::Regex::new` accepts the pattern.
pub uninterp spec fn regex_compiles(pattern: Seq<char>) -> bool;

/// `regex::Regex::is_match` of the compiled pattern finds a match in the text.
pub uninterp spec fn regex_is_match(pattern: Seq<char>, text: Seq<char>) -> bool;

/// `regex::Regex`, a compiled pattern.
#[verifier::external_type_specification]
#[verifier::external_body]
pub struct ExRegex(regex::Regex);

/// A compiled pattern with the text it was compiled from.
pub struct CompiledPattern {
    pattern: String,
    regex: regex::Regex,
}

impl CompiledPattern {
    /// The text the pattern was compiled from.
    pub closed spec fn pattern(self) -> Seq<char> {
        self.pattern@
    }
}

/// Compiles `pattern` with `regex::Regex::new`, keeping the text beside the
/// compiled pattern; `None` when it does not compile.
///
/// The contract names the result; the regex syntax is not restated.
#[verifier::external_body]
fn compile_pattern(pattern: &str) -> (r: Option<CompiledPattern>)
    ensures
        (r is Some) == regex_compiles(pattern@),
        r matches Some(c) ==> c.pattern() == pattern@,
{
    match regex::Regex::new(pattern) {
        Ok(regex) => Some(CompiledPattern { pattern: pattern.to_string(), regex }),
        Err(_) => None,
    }
}

/// Whether `Regex::is_match` of the compiled pattern finds a match in `text`.
#[verifier::external_body]
fn pattern_is_match(compiled: &CompiledPattern, text: &str) -> (r: bool)
    ensures
        r == regex_is_match(compiled.pattern(), text@),
{
    compiled.regex.is_match(text)
}

/// Names excluded one by one.
pub open spec fn fixed_exclusion(s: Seq<char>) -> bool {
    ||| s == "__libc_start_main"@
    ||| s == "main"@
    ||| s == "abort"@
    ||| s == "cachectl"@
    ||| s == "cacheflush"@
    ||| s == "puts"@
    ||| s == "atol"@
    ||| s == "malloc_trim"@
}

/// A pattern that compiles and matches the name.
pub open spec fn pattern_hit(pattern: Seq<char>, s: Seq<char>) -> bool {
    regex_compiles(pattern) && regex_is_match(pattern, s)
}

/// Names excluded by pattern: leading `_` or `.`, trailing `64`, leading
/// `str`, leading `mem`.
pub open spec fn pattern_exclusion(s: Seq<char>) -> bool {
    ||| pattern_hit("^[_\\.].*$"@, s)
    ||| pattern_hit("^.*64$"@, s)
    ||| pattern_hit("^str.*$"@, s)
    ||| pattern_hit("^mem.*$"@, s)
}

/// A symbol name that never takes part in a hash.
pub open spec fn excluded(s: Seq<char>) -> bool {
    fixed_exclusion(s) || pattern_exclusion(s)
}

/// The pattern compiles and matches the name.
fn hits(pattern: &str, symbol: &str) -> (r: bool)
    ensures
        r == pattern_hit(pattern@, symbol@),
{
    match compile_pattern(pattern) {
        Some(compiled) => pattern_is_match(&compiled, symbol),
        None => false,
    }
}

/// The symbol is excluded from hashing: one of the fixed names, or a name
/// that one of the exclusion patterns matches.
pub fn should_exclude(symbol: &str) -> (r: bool)
    ensures
        r == excluded(symbol@),
{
    let fixed = same_text(symbol, "__libc_start_main") || same_text(symbol, "main") || same_text(
        symbol,
        "abort",
    ) || same_text(symbol, "cachectl") || same_text(symbol, "cacheflush") || same_text(symbol, "puts")
        || same_text(symbol, "atol") || same_text(symbol, "malloc_trim");
    fixed || hits("^[_\\.].*$", symbol) || hits("^.*64$", symbol) || hits("^str.*$", symbol) || hits(
        "^mem.*$",
        symbol,
    )
}

/// The eight fixed names are always excluded, whatever the patterns say:
/// `__libc_start_main`, `main`, `abort`, `cachectl`, `cacheflush`, `puts`,
/// `atol` and `malloc_trim` never take part in a hash.
pub proof fn law_fixed_names_excluded()
    ensures
        excluded("__libc_start_main"@),
        excluded("main"@),
        excluded("abort"@),
        excluded("cachectl"@),
        excluded("cacheflush"@),
        excluded("puts"@),
        excluded("atol"@),
        excluded("malloc_trim"@),
{
}

} // verus!
