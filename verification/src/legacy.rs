//! The legacy telfhash output shape: a lower-case digest,
//! `tnull`, or `-`, with a message for failures.
use vstd::prelude::*;
use vstd::string::StringExecFns;
use crate::model::{
    portable_chars, FailureReason, HashValue, TelfhashOutcome, TelfhashResult,
};
use crate::text::{ascii_lower, to_ascii_lower};

verus! {

broadcast use vstd::string::group_string_axioms;

/// The message a failure is reported with.
pub open spec fn failure_text(reason: FailureReason) -> Seq<char> {
    match reason {
        FailureReason::InvalidElf => "Could not parse file as ELF"@,
        FailureReason::UnsupportedArchitecture => "Unsupported ELF architecture"@,
        FailureReason::Message(m) => m@,
    }
}

/// The hash column of an outcome: the digest in lower case, `tnull` for a
/// null digest, and `-` when there is no hash.
pub open spec fn telfhash_text(outcome: TelfhashOutcome) -> Seq<char> {
    match outcome {
        TelfhashOutcome::Hash(HashValue::Digest(d)) => ascii_lower(d@),
        TelfhashOutcome::Hash(HashValue::NullDigest(_)) => "tnull"@,
        TelfhashOutcome::NoSymbols(_) => "-"@,
        TelfhashOutcome::Error(_) => "-"@,
    }
}

/// The message column of an outcome: the failure's message, else empty.
pub open spec fn msg_text(outcome: TelfhashOutcome) -> Seq<char> {
    match outcome {
        TelfhashOutcome::Error(reason) => failure_text(reason),
        _ => Seq::empty(),
    }
}

/// One row of the legacy JSON output.
#[derive(Debug, PartialEq, Eq)]
pub struct LegacyTelfhashRecord {
    pub file: String,
    pub telfhash: String,
    pub msg: String,
}

/// The hash column of a result, as `telfhash_text` says.
pub fn render_telfhash(result: &TelfhashResult) -> (r: String)
    ensures
        r@ == telfhash_text(result.outcome),
{
    match &result.outcome {
        TelfhashOutcome::Hash(HashValue::Digest(value)) => to_ascii_lower(value.as_str()),
        TelfhashOutcome::Hash(HashValue::NullDigest(_)) => String::from_str("tnull"),
        TelfhashOutcome::NoSymbols(_) => String::from_str("-"),
        TelfhashOutcome::Error(_) => String::from_str("-"),
    }
}

/// The message column of a result, as `msg_text` says.
pub fn render_msg(result: &TelfhashResult) -> (r: String)
    ensures
        r@ == msg_text(result.outcome),
{
    match &result.outcome {
        TelfhashOutcome::Error(reason) => String::from_str(reason.message()),
        _ => String::new(),
    }
}

/// The row of a result: its portable path, hash column and message.
pub open spec fn legacy_row(result: TelfhashResult, record: LegacyTelfhashRecord) -> bool {
    &&& record.file@ == portable_chars(result.file@)
    &&& record.telfhash@ == telfhash_text(result.outcome)
    &&& record.msg@ == msg_text(result.outcome)
}

/// The rows of the legacy JSON output, one per result, in order.
pub fn legacy_records(results: &[TelfhashResult]) -> (r: Vec<LegacyTelfhashRecord>)
    ensures
        r@.len() == results@.len(),
        forall|i: int| 0 <= i < results@.len() ==> #[trigger] legacy_row(results@[i], r@[i]),
{
    let mut out: Vec<LegacyTelfhashRecord> = Vec::new();
    for i in 0..results.len()
        invariant
            out@.len() == i,
            forall|k: int| 0 <= k < i ==> #[trigger] legacy_row(results@[k], out@[k]),
    {
        let result = &results[i];
        out.push(
            LegacyTelfhashRecord {
                file: result.file_display(),
                telfhash: render_telfhash(result),
                msg: render_msg(result),
            },
        );
    }
    out
}

} // verus!
