//! The diagnostic lines reported for one file when debugging is asked for.
use vstd::prelude::*;
use vstd::string::StringExecFns;
use crate::legacy::failure_text;
use crate::model::{
    HashValue, NoSymbolsReason, SymbolExtraction, TelfhashOutcome, TelfhashResult,
};
use crate::text::{concat_text, decimal, decimal_text};

verus! {

broadcast use vstd::string::group_string_axioms;

/// The lines an extraction's diagnostics give: the ELF class and the
/// symbol table when known, the two counts, the fallback note when there is
/// one, and a line for a file without symbols.
pub open spec fn extraction_lines(path: Seq<char>, x: SymbolExtraction) -> Seq<Seq<char>> {
    let class = match x.debug.elf_class {
        Some(c) => seq![c@],
        None => Seq::empty(),
    };
    let table = match x.debug.symbol_table {
        Some(t) => seq!["symbol table: "@ + t@],
        None => Seq::empty(),
    };
    let counts = seq![
        decimal_text(x.debug.symbols_found as nat) + " symbols found"@,
        decimal_text(x.debug.symbols_considered as nat) + " symbols considered"@,
    ];
    let fallback = match x.debug.fallback_reason {
        Some(f) => seq![f@],
        None => Seq::empty(),
    };
    let empty = if x.symbols@.len() == 0 {
        seq![path + ": no symbols found"@]
    } else {
        Seq::empty()
    };
    class + table + counts + fallback + empty
}

/// The line an outcome gives: the `tnull` note, the reason there is no
/// hash, or nothing for a digest.
pub open spec fn outcome_lines(outcome: TelfhashOutcome) -> Seq<Seq<char>> {
    match outcome {
        TelfhashOutcome::Hash(HashValue::NullDigest(_)) => seq![
            "TLSH result: tnull (insufficient length or variance)"@,
        ],
        TelfhashOutcome::NoSymbols(NoSymbolsReason::FilteredOut) => seq!["result: - (no symbols)"@],
        TelfhashOutcome::NoSymbols(NoSymbolsReason::NoCallDestinations) => seq![
            "result: - (no call destinations)"@,
        ],
        TelfhashOutcome::Error(reason) => seq!["result: - ("@ + failure_text(reason) + ")"@],
        TelfhashOutcome::Hash(HashValue::Digest(_)) => Seq::empty(),
    }
}

/// The diagnostic lines of a file: those of its extraction, if any, then
/// that of its outcome.
pub open spec fn debug_lines_of(
    path: Seq<char>,
    extraction: Option<SymbolExtraction>,
    result: TelfhashResult,
) -> Seq<Seq<char>> {
    let head = match extraction {
        Some(x) => extraction_lines(path, x),
        None => Seq::empty(),
    };
    head + outcome_lines(result.outcome)
}

/// Appends a line.
fn push_line(lines: &mut Vec<String>, line: String)
    ensures
        final(lines).deep_view() == old(lines).deep_view().push(line@),
{
    let ghost before = lines.deep_view();
    lines.push(line);
    proof {
        assert(lines.deep_view() =~= before.push(line@));
    }
}

/// The diagnostic lines reported for the file at `path`, as
/// `debug_lines_of` says.
pub fn debug_report_lines(
    path: &str,
    extraction: Option<&SymbolExtraction>,
    result: &TelfhashResult,
) -> (r: Vec<String>)
    ensures
        r.deep_view() == debug_lines_of(
            path@,
            match extraction {
                Some(x) => Some(*x),
                None => None,
            },
            *result,
        ),
{
    let mut lines: Vec<String> = Vec::new();
    if let Some(x) = extraction {
        if let Some(class) = &x.debug.elf_class {
            push_line(&mut lines, class.clone());
        }
        if let Some(table) = &x.debug.symbol_table {
            push_line(&mut lines, concat_text("symbol table: ", table.as_str()));
        }
        let found = decimal(x.debug.symbols_found);
        push_line(&mut lines, concat_text(found.as_str(), " symbols found"));
        let considered = decimal(x.debug.symbols_considered);
        push_line(&mut lines, concat_text(considered.as_str(), " symbols considered"));
        if let Some(reason) = &x.debug.fallback_reason {
            push_line(&mut lines, reason.clone());
        }
        if x.symbols.len() == 0 {
            push_line(&mut lines, concat_text(path, ": no symbols found"));
        }
        proof {
            assert(lines.deep_view() =~= extraction_lines(path@, *x));
        }
    } else {
        proof {
            assert(lines.deep_view() =~= Seq::<Seq<char>>::empty());
        }
    }
    let ghost head = lines.deep_view();
    match &result.outcome {
        TelfhashOutcome::Hash(HashValue::NullDigest(_)) => {
            push_line(&mut lines, String::from_str("TLSH result: tnull (insufficient length or variance)"));
        },
        TelfhashOutcome::NoSymbols(NoSymbolsReason::FilteredOut) => {
            push_line(&mut lines, String::from_str("result: - (no symbols)"));
        },
        TelfhashOutcome::NoSymbols(NoSymbolsReason::NoCallDestinations) => {
            push_line(&mut lines, String::from_str("result: - (no call destinations)"));
        },
        TelfhashOutcome::Error(reason) => {
            let inner = concat_text("result: - (", reason.message());
            push_line(&mut lines, concat_text(inner.as_str(), ")"));
        },
        TelfhashOutcome::Hash(HashValue::Digest(_)) => {},
    }
    proof {
        assert(lines.deep_view() =~= head + outcome_lines(result.outcome));
    }
    lines
}

} // verus!
