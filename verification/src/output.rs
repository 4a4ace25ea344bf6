//! What a report is written as: the hash listing in one of four formats,
//! the diagnostics, and the groups.
use vstd::prelude::*;
use vstd::string::StringExecFns;
use vstd::utf8::encode_utf8;
use vstd::string::StrSliceExecFns;
use crate::analysis::AnalysisReport;
use crate::debug_report::{debug_lines_of, debug_report_lines};
use crate::legacy::{legacy_records, legacy_row, render_telfhash, telfhash_text, LegacyTelfhashRecord};
use crate::model::{portable_chars, GroupingResult, TelfhashResult};
use crate::sarif::{sarif_results, sarif_row, SarifResultRecord};
use crate::text::{concat_text, decimal, decimal_text, joined};

verus! {

broadcast use vstd::string::group_string_axioms;

/// The format of the hash listing.
#[derive(Debug, Clone, Copy, PartialEq, Eq, Structural)]
pub enum HashOutputFormat {
    Plain,
    Tsv,
    Json,
    Sarif,
}

/// Where the hash listing goes.
#[derive(Debug, PartialEq, Eq)]
pub enum OutputDestination {
    Stdout,
    File(String),
}

/// How and where a report is written.
#[derive(Debug, PartialEq, Eq)]
pub struct OutputRequest {
    pub format: HashOutputFormat,
    pub destination: OutputDestination,
    pub debug: bool,
}

impl OutputRequest {
    /// A listing in `format` on standard output.
    pub fn stdout(format: HashOutputFormat, debug: bool) -> (r: Self)
        ensures
            r.format == format,
            r.destination == OutputDestination::Stdout,
            r.debug == debug,
    {
        OutputRequest { format, destination: OutputDestination::Stdout, debug }
    }

    /// A listing in `format` written to the file at `path`.
    pub fn file(format: HashOutputFormat, path: String, debug: bool) -> (r: Self)
        ensures
            r.format == format,
            r.destination == OutputDestination::File(path),
            r.debug == debug,
    {
        OutputRequest { format, destination: OutputDestination::File(path), debug }
    }
}

/// `n` spaces.
pub open spec fn spaces(n: nat) -> Seq<char> {
    Seq::new(n, |i: int| ' ')
}

/// `text` padded with spaces to `width` characters, as `{:<width$}` pads.
pub open spec fn padded(text: Seq<char>, width: nat) -> Seq<char> {
    if text.len() < width {
        text + spaces((width - text.len()) as nat)
    } else {
        text
    }
}

/// The widest portable path of the results, in bytes.
pub open spec fn display_width(results: Seq<TelfhashResult>) -> nat
    decreases results.len(),
{
    if results.len() == 0 {
        0
    } else {
        let w = display_width(results.drop_last());
        let v = encode_utf8(portable_chars(results.last().file@)).len();
        if v > w {
            v
        } else {
            w
        }
    }
}

/// The lines of the plain listing, each path padded to `width`, two
/// spaces, and the hash column.
pub open spec fn plain_lines(results: Seq<TelfhashResult>, width: nat) -> Seq<char>
    decreases results.len(),
{
    if results.len() == 0 {
        Seq::empty()
    } else {
        plain_lines(results.drop_last(), width) + padded(portable_chars(results.last().file@), width)
            + "  "@ + telfhash_text(results.last().outcome) + "\n"@
    }
}

/// The plain listing: its lines and an empty line; an empty line alone
/// when there is no result.
pub open spec fn plain_text(results: Seq<TelfhashResult>) -> Seq<char> {
    if results.len() == 0 {
        "\n"@
    } else {
        plain_lines(results, display_width(results)) + "\n"@
    }
}

/// A TSV row: the portable path, a tab, and the hash column.
pub open spec fn tsv_row(result: TelfhashResult) -> Seq<char> {
    portable_chars(result.file@) + "\t"@ + telfhash_text(result.outcome)
}

/// The TSV listing: the rows joined by newlines, and a final newline.
pub open spec fn tsv_text(results: Seq<TelfhashResult>) -> Seq<char> {
    joined(results.map_values(|r: TelfhashResult| tsv_row(r)), '\n') + "\n"@
}

/// The widest portable path of the results, in bytes.
fn width_of(results: &[TelfhashResult]) -> (r: usize)
    ensures
        r == display_width(results@),
{
    let mut width: usize = 0;
    for i in 0..results.len()
        invariant
            width == display_width(results@.take(i as int)),
    {
        proof {
            assert(results@.take(i + 1).drop_last() =~= results@.take(i as int));
            assert(results@.take(i + 1).last() == results@[i as int]);
        }
        let display = results[i].file_display();
        let w = display.as_str().as_bytes().len();
        if w > width {
            width = w;
        }
    }
    proof {
        assert(results@.take(results@.len() as int) =~= results@);
    }
    width
}

/// Appends `text` padded with spaces to `width` characters.
fn push_padded(out: &mut String, text: &str, width: usize)
    ensures
        final(out)@ == old(out)@ + padded(text@, width as nat),
{
    out.append(text);
    let n = text.unicode_len();
    let mut k = n;
    while k < width
        invariant
            n == text@.len(),
            k >= n,
            n < width ==> k <= width,
            n >= width ==> k == n,
            out@ == old(out)@ + text@ + spaces((k - n) as nat),
        decreases width - k,
    {
        out.push(' ');
        proof {
            assert(spaces((k + 1 - n) as nat) =~= spaces((k - n) as nat).push(' '));
        }
        k = k + 1;
    }
    proof {
        if n < width {
            assert(k == width);
        } else {
            assert(spaces((k - n) as nat) =~= Seq::<char>::empty());
            assert(out@ =~= old(out)@ + text@);
        }
    }
}

/// The plain listing, as `plain_text` says.
pub fn render_plain_hashes(results: &[TelfhashResult]) -> (r: String)
    ensures
        r@ == plain_text(results@),
{
    if results.len() == 0 {
        return String::from_str("\n");
    }
    let width = width_of(results);
    let mut body = String::new();
    for i in 0..results.len()
        invariant
            width == display_width(results@),
            body@ == plain_lines(results@.take(i as int), width as nat),
    {
        proof {
            assert(results@.take(i + 1).drop_last() =~= results@.take(i as int));
            assert(results@.take(i + 1).last() == results@[i as int]);
        }
        let display = results[i].file_display();
        push_padded(&mut body, display.as_str(), width);
        body.append("  ");
        let hash = render_telfhash(&results[i]);
        body.append(hash.as_str());
        body.push('\n');
        proof {
            reveal_strlit("  ");
            reveal_strlit("\n");
            assert(body@ =~= plain_lines(results@.take(i as int), width as nat) + padded(
                portable_chars(results@[i as int].file@),
                width as nat,
            ) + "  "@ + telfhash_text(results@[i as int].outcome) + "\n"@);
        }
    }
    proof {
        assert(results@.take(results@.len() as int) =~= results@);
    }
    body.push('\n');
    proof {
        reveal_strlit("\n");
        assert(body@ =~= plain_lines(results@, width as nat) + "\n"@);
    }
    body
}

/// The TSV listing, as `tsv_text` says.
pub fn render_tsv_hashes(results: &[TelfhashResult]) -> (r: String)
    ensures
        r@ == tsv_text(results@),
{
    let ghost rows = results@.map_values(|r: TelfhashResult| tsv_row(r));
    let mut body = String::new();
    for i in 0..results.len()
        invariant
            rows == results@.map_values(|r: TelfhashResult| tsv_row(r)),
            body@ == joined(rows.take(i as int), '\n'),
    {
        let ghost prev = body@;
        if i > 0 {
            body.push('\n');
        }
        let display = results[i].file_display();
        body.append(display.as_str());
        body.push('\t');
        let hash = render_telfhash(&results[i]);
        body.append(hash.as_str());
        proof {
            reveal_strlit("\t");
            let next = rows.take(i + 1);
            assert(next.drop_last() =~= rows.take(i as int));
            assert(next.last() == tsv_row(results@[i as int]));
            if i == 0 {
                assert(next =~= seq![tsv_row(results@[0])]);
                assert(body@ =~= tsv_row(results@[0]));
            } else {
                assert(body@ =~= prev.push('\n') + tsv_row(results@[i as int]));
            }
        }
    }
    proof {
        assert(rows.take(results@.len() as int) =~= rows);
    }
    body.push('\n');
    proof {
        reveal_strlit("\n");
        assert(body@ =~= joined(rows, '\n') + "\n"@);
    }
    body
}

/// The lines that list one group or the ungrouped files: the files, each
/// indented by four spaces.
pub open spec fn file_lines(files: Seq<Seq<char>>) -> Seq<Seq<char>> {
    files.map_values(|f: Seq<char>| "    "@ + f)
}

/// The lines of the groups from the `k`-th on: a `Group n:` heading, with
/// `n` counted from 1, and the group's files.
pub open spec fn group_block(grouped: Seq<Seq<Seq<char>>>, k: nat) -> Seq<Seq<char>>
    decreases grouped.len(),
{
    if grouped.len() == 0 {
        Seq::empty()
    } else {
        group_block(grouped.drop_last(), k) + seq![
            "Group "@ + decimal_text(k + grouped.len()) + ":"@,
        ] + file_lines(grouped.last())
    }
}

/// The lines of a grouping: each group with its heading, the ungrouped
/// files under `Ungrouped:` when there are any, and an empty line.
pub open spec fn grouping_lines(grouped: Seq<Seq<Seq<char>>>, nogroup: Seq<Seq<char>>) -> Seq<
    Seq<char>,
> {
    let ungrouped = if nogroup.len() > 0 {
        seq!["Ungrouped:"@] + file_lines(nogroup)
    } else {
        Seq::empty()
    };
    group_block(grouped, 0) + ungrouped + seq![Seq::empty()]
}

/// Appends the indented files.
fn push_file_lines(lines: &mut Vec<String>, files: &Vec<String>)
    ensures
        final(lines).deep_view() == old(lines).deep_view() + file_lines(files.deep_view()),
{
    let ghost start = lines.deep_view();
    for j in 0..files.len()
        invariant
            lines.deep_view() == start + file_lines(files.deep_view().take(j as int)),
    {
        let ghost before = lines.deep_view();
        let line = concat_text("    ", files[j].as_str());
        lines.push(line);
        proof {
            assert(lines.deep_view() =~= before.push(line@));
            assert(file_lines(files.deep_view().take(j + 1)) =~= file_lines(
                files.deep_view().take(j as int),
            ).push("    "@ + files.deep_view()[j as int]));
        }
    }
    proof {
        assert(files.deep_view().take(files@.len() as int) =~= files.deep_view());
    }
}

/// The lines a grouping is printed as, as `grouping_lines` says.
pub fn group_lines(groups: &GroupingResult) -> (r: Vec<String>)
    ensures
        r.deep_view() == grouping_lines(groups.grouped.deep_view(), groups.nogroup.deep_view()),
{
    let mut lines: Vec<String> = Vec::new();
    let ghost all = groups.grouped.deep_view();
    for i in 0..groups.grouped.len()
        invariant
            all == groups.grouped.deep_view(),
            lines.deep_view() == group_block(all.take(i as int), 0),
    {
        let ghost before = lines.deep_view();
        let number = decimal(i + 1);
        let heading = concat_text("Group ", number.as_str());
        let heading = concat_text(heading.as_str(), ":");
        lines.push(heading);
        proof {
            assert(lines.deep_view() =~= before.push(heading@));
        }
        push_file_lines(&mut lines, &groups.grouped[i]);
        proof {
            let next = all.take(i + 1);
            assert(next.drop_last() =~= all.take(i as int));
            assert(next.last() == all[i as int]);
            assert(all[i as int] == groups.grouped[i as int].deep_view());
            assert(lines.deep_view() =~= group_block(all.take(i as int), 0) + seq![
                "Group "@ + decimal_text(0 + next.len()) + ":"@,
            ] + file_lines(next.last()));
        }
    }
    proof {
        assert(all.take(groups.grouped@.len() as int) =~= all);
    }
    let ghost head = lines.deep_view();
    if groups.nogroup.len() > 0 {
        lines.push(String::from_str("Ungrouped:"));
        push_file_lines(&mut lines, &groups.nogroup);
    }
    let ghost before_end = lines.deep_view();
    lines.push(String::new());
    proof {
        assert(lines.deep_view() =~= before_end.push(Seq::empty()));
        if groups.nogroup@.len() > 0 {
            assert(before_end =~= head + (seq!["Ungrouped:"@] + file_lines(groups.nogroup.deep_view())));
        } else {
            assert(before_end =~= head + Seq::<Seq<char>>::empty());
        }
    }
    lines
}

/// The hash listing's content: text for the plain and TSV formats, and the
/// records that the JSON and SARIF formats serialise.
#[derive(Debug)]
pub enum ReportBody {
    Text(String),
    Json(Vec<LegacyTelfhashRecord>),
    Sarif(Vec<SarifResultRecord>),
}

/// What writing a report emits: diagnostics for standard error, the hash
/// listing for the requested destination, and the grouping's lines for
/// standard output.
#[derive(Debug)]
pub struct ReportEmission {
    pub debug_lines: Vec<String>,
    pub body: ReportBody,
    pub group_lines: Vec<String>,
}

/// The listing a format gives for the results.
pub open spec fn body_answer(format: HashOutputFormat, results: Seq<TelfhashResult>, body: ReportBody) -> bool {
    match format {
        HashOutputFormat::Plain => body matches ReportBody::Text(t) && t@ == plain_text(results),
        HashOutputFormat::Tsv => body matches ReportBody::Text(t) && t@ == tsv_text(results),
        HashOutputFormat::Json => body matches ReportBody::Json(v) && v@.len() == results.len()
            && forall|i: int| 0 <= i < results.len() ==> #[trigger] legacy_row(results[i], v@[i]),
        HashOutputFormat::Sarif => body matches ReportBody::Sarif(v) && v@.len() == results.len()
            && forall|i: int| 0 <= i < results.len() ==> #[trigger] sarif_row(results[i], v@[i]),
    }
}

/// The diagnostic lines of the inspections from the first on, in order.
pub open spec fn report_debug_lines(report: AnalysisReport, n: int) -> Seq<Seq<char>>
    decreases n,
{
    if n <= 0 {
        Seq::empty()
    } else {
        let i = report.inspections@[n - 1];
        report_debug_lines(report, n - 1) + debug_lines_of(i.result.file@, i.extraction, i.result)
    }
}

/// Writes reports.
pub struct OutputEmitter;

impl OutputEmitter {
    /// What writing `report` as `request` asks emits: the diagnostics of each
    /// inspection when debugging is asked for, the hash listing in the
    /// requested format, and the grouping's lines when the report has one.
    pub fn emit_report(request: &OutputRequest, report: &AnalysisReport) -> (r: ReportEmission)
        ensures
            r.debug_lines.deep_view() == (if request.debug {
                report_debug_lines(*report, report.inspections@.len() as int)
            } else {
                Seq::empty()
            }),
            body_answer(
                request.format,
                report.inspections@.map_values(|i: crate::service::HashInspection| i.result),
                r.body,
            ),
            match report.grouping {
                Some(g) => r.group_lines.deep_view() == grouping_lines(
                    g.grouped.deep_view(),
                    g.nogroup.deep_view(),
                ),
                None => r.group_lines@.len() == 0,
            },
    {
        let mut debug_lines: Vec<String> = Vec::new();
        if request.debug {
            for i in 0..report.inspections.len()
                invariant
                    debug_lines.deep_view() == report_debug_lines(*report, i as int),
            {
                let inspection = &report.inspections[i];
                let extraction = match &inspection.extraction {
                    Some(x) => Some(x),
                    None => None,
                };
                let lines = debug_report_lines(inspection.result.file.as_str(), extraction, &inspection.result);
                let ghost before = debug_lines.deep_view();
                for j in 0..lines.len()
                    invariant
                        debug_lines.deep_view() == before + lines.deep_view().take(j as int),
                {
                    let ghost b = debug_lines.deep_view();
                    debug_lines.push(lines[j].clone());
                    proof {
                        assert(debug_lines.deep_view() =~= b.push(lines.deep_view()[j as int]));
                        assert(lines.deep_view().take(j + 1) =~= lines.deep_view().take(j as int).push(
                            lines.deep_view()[j as int],
                        ));
                    }
                }
                proof {
                    assert(lines.deep_view().take(lines@.len() as int) =~= lines.deep_view());
                }
            }
        }
        let results = report.owned_results();
        proof {
            assert(results@ =~= report.inspections@.map_values(
                |i: crate::service::HashInspection| i.result,
            ));
        }
        let body = match request.format {
            HashOutputFormat::Plain => ReportBody::Text(render_plain_hashes(results.as_slice())),
            HashOutputFormat::Tsv => ReportBody::Text(render_tsv_hashes(results.as_slice())),
            HashOutputFormat::Json => ReportBody::Json(legacy_records(results.as_slice())),
            HashOutputFormat::Sarif => ReportBody::Sarif(sarif_results(results.as_slice())),
        };
        let group_lines = match &report.grouping {
            Some(g) => group_lines(g),
            None => Vec::new(),
        };
        ReportEmission { debug_lines, body, group_lines }
    }
}

} // verus!
