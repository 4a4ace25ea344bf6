//! The SARIF view of hash results: one result per file, under five rules.
use vstd::prelude::*;
use vstd::string::StringExecFns;
use crate::legacy::{msg_text, render_msg, render_telfhash, telfhash_text};
use crate::model::{portable_chars, portable_path_display, NoSymbolsReason, TelfhashOutcome, TelfhashResult};
use crate::order::same_text;

verus! {

broadcast use vstd::string::group_string_axioms;

/// The SARIF version written.
pub const SARIF_VERSION: &'static str = "2.1.0";

/// The schema of the SARIF version written.
pub const SARIF_SCHEMA: &'static str = "https://docs.oasis-open.org/sarif/sarif/v2.1.0/os/schemas/sarif-schema-2.1.0.json";

/// The tool's name in the log.
pub const TOOL_NAME: &'static str = "telfhash-rs";

/// The tool's full name in the log.
pub const TOOL_FULL_NAME: &'static str = "telfhash-rs ELF similarity hashing";

/// The tool's version in the log.
pub const TOOL_VERSION: &'static str = "0.1.0";

/// Where the tool is described.
pub const TOOL_INFORMATION_URI: &'static str = "https://github.com/seifreed/telfhash-rs";

/// A rule of the log.
#[derive(Debug, PartialEq, Eq)]
pub struct SarifRuleRecord {
    pub id: &'static str,
    pub name: &'static str,
    pub short_description: &'static str,
    pub full_description: &'static str,
}

/// The SARIF result of one file.
#[derive(Debug, PartialEq, Eq)]
pub struct SarifResultRecord {
    pub rule_id: &'static str,
    pub level: &'static str,
    pub message: String,
    pub uri: String,
    pub status: &'static str,
    pub telfhash: String,
    pub msg: String,
    pub fingerprint: Option<String>,
}

/// The rule, status and message of an outcome whose hash column is `hash`
/// and message column `msg`.
pub open spec fn sarif_classification(outcome: TelfhashOutcome, hash: Seq<char>, msg: Seq<char>) -> (
    Seq<char>,
    Seq<char>,
    Seq<char>,
) {
    match outcome {
        TelfhashOutcome::Hash(_) => if hash == "tnull"@ {
            ("TFL002"@, "tnull"@, "telfhash could not produce a stable TLSH digest"@)
        } else {
            ("TFL001"@, "digest"@, "telfhash digest computed: "@ + hash)
        },
        TelfhashOutcome::NoSymbols(NoSymbolsReason::FilteredOut) => (
            "TFL003"@,
            "no-symbols"@,
            "no eligible symbols remained after filtering"@,
        ),
        TelfhashOutcome::NoSymbols(NoSymbolsReason::NoCallDestinations) => (
            "TFL004"@,
            "no-call-destinations"@,
            "no callable destinations were recovered from executable code"@,
        ),
        TelfhashOutcome::Error(_) => ("TFL005"@, "error"@, "telfhash analysis failed: "@ + msg),
    }
}

/// The SARIF result of a file: classified by its outcome, located at its
/// portable path, with its hash and message columns, and fingerprinted by
/// its hash when it has a real one.
pub open spec fn sarif_row(result: TelfhashResult, record: SarifResultRecord) -> bool {
    let hash = telfhash_text(result.outcome);
    let msg = msg_text(result.outcome);
    let c = sarif_classification(result.outcome, hash, msg);
    &&& record.rule_id@ == c.0
    &&& record.status@ == c.1
    &&& record.message@ == c.2
    &&& record.level@ == "note"@
    &&& record.uri@ == portable_chars(result.file@)
    &&& record.telfhash@ == hash
    &&& record.msg@ == msg
    &&& if hash != "-"@ && hash != "tnull"@ {
        record.fingerprint matches Some(f) && f@ == hash
    } else {
        record.fingerprint is None
    }
}

/// `prefix` followed by `rest`.
fn joined_text(prefix: &str, rest: &str) -> (r: String)
    ensures
        r@ == prefix@ + rest@,
{
    String::from_str(prefix).concat(rest)
}

/// The SARIF result of a file, as `sarif_row` says.
pub fn sarif_result(result: &TelfhashResult) -> (r: SarifResultRecord)
    ensures
        sarif_row(*result, r),
{
    let rendered_hash = render_telfhash(result);
    let msg = render_msg(result);
    let is_tnull = same_text(rendered_hash.as_str(), "tnull");
    let (rule_id, status, message): (&'static str, &'static str, String) = match &result.outcome {
        TelfhashOutcome::Hash(_) => if is_tnull {
            ("TFL002", "tnull", String::from_str("telfhash could not produce a stable TLSH digest"))
        } else {
            ("TFL001", "digest", joined_text("telfhash digest computed: ", rendered_hash.as_str()))
        },
        TelfhashOutcome::NoSymbols(NoSymbolsReason::FilteredOut) => (
            "TFL003",
            "no-symbols",
            String::from_str("no eligible symbols remained after filtering"),
        ),
        TelfhashOutcome::NoSymbols(NoSymbolsReason::NoCallDestinations) => (
            "TFL004",
            "no-call-destinations",
            String::from_str("no callable destinations were recovered from executable code"),
        ),
        TelfhashOutcome::Error(_) => (
            "TFL005",
            "error",
            joined_text("telfhash analysis failed: ", msg.as_str()),
        ),
    };
    let fingerprint = if !same_text(rendered_hash.as_str(), "-") && !is_tnull {
        Some(rendered_hash.clone())
    } else {
        None
    };
    SarifResultRecord {
        rule_id,
        level: "note",
        message,
        uri: portable_path_display(result.file.as_str()),
        status,
        telfhash: rendered_hash,
        msg,
        fingerprint,
    }
}

/// The SARIF results of the files, in order.
pub fn sarif_results(results: &[TelfhashResult]) -> (r: Vec<SarifResultRecord>)
    ensures
        r@.len() == results@.len(),
        forall|i: int| 0 <= i < results@.len() ==> #[trigger] sarif_row(results@[i], r@[i]),
{
    let mut out: Vec<SarifResultRecord> = Vec::new();
    for i in 0..results.len()
        invariant
            out@.len() == i,
            forall|k: int| 0 <= k < i ==> #[trigger] sarif_row(results@[k], out@[k]),
    {
        out.push(sarif_result(&results[i]));
    }
    out
}

/// The five rules of the log, in order: a digest, `tnull`, no symbols, no
/// call destinations, and a failure.
pub fn rules() -> (r: Vec<SarifRuleRecord>)
    ensures
        r@.len() == 5,
        r@[0].id@ == "TFL001"@,
        r@[0].name@ == "telfhash-digest"@,
        r@[0].short_description@ == "telfhash digest generated"@,
        r@[0].full_description@ == "A telfhash TLSH digest was successfully generated for the ELF input."@,
        r@[1].id@ == "TFL002"@,
        r@[1].name@ == "telfhash-tnull"@,
        r@[1].short_description@ == "telfhash returned tnull"@,
        r@[1].full_description@ == "The input had insufficient information or variance to produce a stable TLSH digest."@,
        r@[2].id@ == "TFL003"@,
        r@[2].name@ == "telfhash-no-symbols"@,
        r@[2].short_description@ == "no eligible symbols remained"@,
        r@[2].full_description@ == "The ELF input did not expose any eligible function symbols after applying telfhash filters."@,
        r@[3].id@ == "TFL004"@,
        r@[3].name@ == "telfhash-no-call-destinations"@,
        r@[3].short_description@ == "no call destinations recovered"@,
        r@[3].full_description@ == "The fallback disassembly path did not recover any call destinations from executable code."@,
        r@[4].id@ == "TFL005"@,
        r@[4].name@ == "telfhash-error"@,
        r@[4].short_description@ == "telfhash analysis failed"@,
        r@[4].full_description@ == "The input could not be processed into a telfhash result."@,
{
    let mut out: Vec<SarifRuleRecord> = Vec::new();
    out.push(
        SarifRuleRecord {
            id: "TFL001",
            name: "telfhash-digest",
            short_description: "telfhash digest generated",
            full_description: "A telfhash TLSH digest was successfully generated for the ELF input.",
        },
    );
    out.push(
        SarifRuleRecord {
            id: "TFL002",
            name: "telfhash-tnull",
            short_description: "telfhash returned tnull",
            full_description: "The input had insufficient information or variance to produce a stable TLSH digest.",
        },
    );
    out.push(
        SarifRuleRecord {
            id: "TFL003",
            name: "telfhash-no-symbols",
            short_description: "no eligible symbols remained",
            full_description: "The ELF input did not expose any eligible function symbols after applying telfhash filters.",
        },
    );
    out.push(
        SarifRuleRecord {
            id: "TFL004",
            name: "telfhash-no-call-destinations",
            short_description: "no call destinations recovered",
            full_description: "The fallback disassembly path did not recover any call destinations from executable code.",
        },
    );
    out.push(
        SarifRuleRecord {
            id: "TFL005",
            name: "telfhash-error",
            short_description: "telfhash analysis failed",
            full_description: "The input could not be processed into a telfhash result.",
        },
    );
    out
}

} // verus!
