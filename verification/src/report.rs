use crate::cli::{opt_bytes_view, opt_view};
use crate::iso::{decode_utf8_lossy, utf8_lossy};
use crate::extractor::{
    spec_is_failed, spec_status_str, ExtractionResult, ExtractionStatus, InputSummary,
    RunSummary,
};
use crate::text::{decimal, extend_chars, extend_str, join, str_chars, string_from_chars};
use vstd::prelude::*;

verus! {

/// The report lines for one image.
pub open spec fn spec_input_block(i: InputSummary, dry_run: bool) -> Seq<char> {
    "Input: "@ + utf8_lossy(i.source_iso@) + "\n"@ + (if dry_run {
        "Mode: dry run\n"@
    } else {
        Seq::empty()
    }) + "Scanned files: "@ + decimal(i.files_scanned as nat) + "\n"@
        + "Matching candidates: "@ + decimal(i.candidates_found as nat) + "\n"@ + (if dry_run {
        "Would extract: "@ + decimal(i.would_extract as nat) + "\n"@
    } else {
        "Extracted: "@ + decimal(i.extracted as nat) + "\n"@
    }) + "Skipped: "@ + decimal(i.skipped as nat) + "\n"@ + "Failed: "@ + decimal(
        i.failed as nat,
    ) + "\n"@
}

/// The totals, reported when there is more than one image.
pub open spec fn spec_totals_block(s: RunSummary) -> Seq<char> {
    "\n"@ + "Total scanned files: "@ + decimal(s.files_scanned as nat) + "\n"@
        + "Total matching candidates: "@ + decimal(s.candidates_found as nat) + "\n"@ + (if s.dry_run {
        "Total would extract: "@ + decimal(s.would_extract as nat) + "\n"@
    } else {
        "Total extracted: "@ + decimal(s.extracted as nat) + "\n"@
    }) + "Total skipped: "@ + decimal(s.skipped as nat) + "\n"@ + "Total failed: "@ + decimal(
        s.failed as nat,
    ) + "\n"@
}

/// One line per result that would be extracted.
pub open spec fn spec_would_lines(rs: Seq<ExtractionResult>) -> Seq<char>
    decreases rs.len(),
{
    if rs.len() == 0 {
        Seq::empty()
    } else {
        spec_would_lines(rs.drop_last()) + if rs.last().status == ExtractionStatus::WouldExtract {
            "- "@ + rs.last().internal_path@ + "\n"@
        } else {
            Seq::empty()
        }
    }
}

/// The error of a failure, or `unknown error`.
pub open spec fn error_text(r: ExtractionResult) -> Seq<char> {
    match opt_view(r.error) {
        Some(e) => e,
        None => "unknown error"@,
    }
}

/// One line per failed result.
pub open spec fn spec_failure_lines(rs: Seq<ExtractionResult>) -> Seq<char>
    decreases rs.len(),
{
    if rs.len() == 0 {
        Seq::empty()
    } else {
        spec_failure_lines(rs.drop_last()) + if spec_is_failed(rs.last().status) {
            "- "@ + rs.last().internal_path@ + ": "@ + error_text(rs.last()) + "\n"@
        } else {
            Seq::empty()
        }
    }
}

/// The verbose line of one result.
pub open spec fn spec_result_line(r: ExtractionResult) -> Seq<char> {
    match opt_bytes_view(r.output_path) {
        Some(p) => "- "@ + r.internal_path@ + " -> "@ + utf8_lossy(p) + " ("@ + spec_status_str(r.status)
            + ")\n"@,
        None => "- "@ + r.internal_path@ + " ("@ + spec_status_str(r.status) + ")\n"@,
    }
}

/// One verbose line per result other than `would_extract`.
pub open spec fn spec_notable_lines(rs: Seq<ExtractionResult>) -> Seq<char>
    decreases rs.len(),
{
    if rs.len() == 0 {
        Seq::empty()
    } else {
        spec_notable_lines(rs.drop_last()) + if rs.last().status != ExtractionStatus::WouldExtract {
            spec_result_line(rs.last())
        } else {
            Seq::empty()
        }
    }
}

pub open spec fn has_failure(rs: Seq<ExtractionResult>) -> bool {
    exists|i: int| 0 <= i < rs.len() && spec_is_failed(#[trigger] rs[i].status)
}

pub open spec fn has_notable(rs: Seq<ExtractionResult>) -> bool {
    exists|i: int| 0 <= i < rs.len() && #[trigger] rs[i].status != ExtractionStatus::WouldExtract
}

/// The human-readable report of a run: a block per image, totals when there
/// are several images, in a dry run the files that would be extracted, the
/// failures, and with `verbose` every result other than `would_extract`.
pub open spec fn spec_human_report(s: RunSummary, verbose: bool) -> Seq<char> {
    join(s.inputs@.map_values(|i: InputSummary| spec_input_block(i, s.dry_run)), "\n"@) + (if s.inputs@.len() > 1 {
        spec_totals_block(s)
    } else {
        Seq::empty()
    }) + (if s.dry_run && s.results@.len() > 0 {
        "\n"@ + "Would extract:\n"@ + spec_would_lines(s.results@)
    } else {
        Seq::empty()
    }) + (if has_failure(s.results@) {
        "\n"@ + "Failures:\n"@ + spec_failure_lines(s.results@)
    } else {
        Seq::empty()
    }) + (if verbose && has_notable(s.results@) {
        "\n"@ + "Results:\n"@ + spec_notable_lines(s.results@)
    } else {
        Seq::empty()
    })
}

fn push_decimal(out: &mut Vec<char>, n: u64)
    ensures
        final(out)@ == old(out)@ + decimal(n as nat),
{
    let d = crate::text::u64_to_decimal(n);
    extend_chars(out, &d);
}

fn input_block(i: &InputSummary, dry_run: bool) -> (out: Vec<char>)
    ensures
        out@ == spec_input_block(*i, dry_run),
{
    let mut out = str_chars("Input: ");
    let name = decode_utf8_lossy(i.source_iso.as_slice());
    extend_str(&mut out, name.as_str());
    extend_str(&mut out, "\n");
    if dry_run {
        extend_str(&mut out, "Mode: dry run\n");
    } else {
        let ghost o = out@;
        assert(o + Seq::<char>::empty() =~= o);
    }
    extend_str(&mut out, "Scanned files: ");
    push_decimal(&mut out, i.files_scanned);
    extend_str(&mut out, "\n");
    extend_str(&mut out, "Matching candidates: ");
    push_decimal(&mut out, i.candidates_found);
    extend_str(&mut out, "\n");
    let ghost before = out@;
    let mut part: Vec<char>;
    if dry_run {
        part = str_chars("Would extract: ");
        push_decimal(&mut part, i.would_extract);
        extend_str(&mut part, "\n");
    } else {
        part = str_chars("Extracted: ");
        push_decimal(&mut part, i.extracted);
        extend_str(&mut part, "\n");
    }
    extend_chars(&mut out, &part);
    extend_str(&mut out, "Skipped: ");
    push_decimal(&mut out, i.skipped);
    extend_str(&mut out, "\n");
    extend_str(&mut out, "Failed: ");
    push_decimal(&mut out, i.failed);
    extend_str(&mut out, "\n");
    out
}

fn totals_block(s: &RunSummary) -> (out: Vec<char>)
    ensures
        out@ == spec_totals_block(*s),
{
    let mut out = str_chars("\n");
    extend_str(&mut out, "Total scanned files: ");
    push_decimal(&mut out, s.files_scanned);
    extend_str(&mut out, "\n");
    extend_str(&mut out, "Total matching candidates: ");
    push_decimal(&mut out, s.candidates_found);
    extend_str(&mut out, "\n");
    let mut part: Vec<char>;
    if s.dry_run {
        part = str_chars("Total would extract: ");
        push_decimal(&mut part, s.would_extract);
        extend_str(&mut part, "\n");
    } else {
        part = str_chars("Total extracted: ");
        push_decimal(&mut part, s.extracted);
        extend_str(&mut part, "\n");
    }
    extend_chars(&mut out, &part);
    extend_str(&mut out, "Total skipped: ");
    push_decimal(&mut out, s.skipped);
    extend_str(&mut out, "\n");
    extend_str(&mut out, "Total failed: ");
    push_decimal(&mut out, s.failed);
    extend_str(&mut out, "\n");
    out
}

fn result_line(r: &ExtractionResult) -> (out: Vec<char>)
    ensures
        out@ == spec_result_line(*r),
{
    match &r.output_path {
        Some(p) => {
            let mut out = str_chars("- ");
            extend_str(&mut out, r.internal_path.as_str());
            extend_str(&mut out, " -> ");
            let shown = decode_utf8_lossy(p.as_slice());
            extend_str(&mut out, shown.as_str());
            extend_str(&mut out, " (");
            extend_str(&mut out, r.status.as_str());
            extend_str(&mut out, ")\n");
            out
        },
        None => {
            let mut out = str_chars("- ");
            extend_str(&mut out, r.internal_path.as_str());
            extend_str(&mut out, " (");
            extend_str(&mut out, r.status.as_str());
            extend_str(&mut out, ")\n");
            out
        },
    }
}

/// Which of the listings over the results to build.
enum Listing {
    WouldExtract,
    Failures,
    Notable,
}

spec fn listing_line(which: Listing, r: ExtractionResult) -> Seq<char> {
    match which {
        Listing::WouldExtract => if r.status == ExtractionStatus::WouldExtract {
            "- "@ + r.internal_path@ + "\n"@
        } else {
            Seq::empty()
        },
        Listing::Failures => if spec_is_failed(r.status) {
            "- "@ + r.internal_path@ + ": "@ + error_text(r) + "\n"@
        } else {
            Seq::empty()
        },
        Listing::Notable => if r.status != ExtractionStatus::WouldExtract {
            spec_result_line(r)
        } else {
            Seq::empty()
        },
    }
}

spec fn listing(which: Listing, rs: Seq<ExtractionResult>) -> Seq<char> {
    match which {
        Listing::WouldExtract => spec_would_lines(rs),
        Listing::Failures => spec_failure_lines(rs),
        Listing::Notable => spec_notable_lines(rs),
    }
}

spec fn listing_selects(which: Listing, r: ExtractionResult) -> bool {
    match which {
        Listing::WouldExtract => r.status == ExtractionStatus::WouldExtract,
        Listing::Failures => spec_is_failed(r.status),
        Listing::Notable => r.status != ExtractionStatus::WouldExtract,
    }
}

fn listing_line_exec(which: &Listing, r: &ExtractionResult) -> (out: Vec<char>)
    ensures
        out@ == listing_line(*which, *r),
{
    match which {
        Listing::WouldExtract => {
            if r.status == ExtractionStatus::WouldExtract {
                let mut out = str_chars("- ");
                extend_str(&mut out, r.internal_path.as_str());
                extend_str(&mut out, "\n");
                out
            } else {
                Vec::new()
            }
        },
        Listing::Failures => {
            if r.status.is_failed() {
                let mut out = str_chars("- ");
                extend_str(&mut out, r.internal_path.as_str());
                extend_str(&mut out, ": ");
                match &r.error {
                    Some(e) => extend_str(&mut out, e.as_str()),
                    None => extend_str(&mut out, "unknown error"),
                }
                extend_str(&mut out, "\n");
                out
            } else {
                Vec::new()
            }
        },
        Listing::Notable => {
            if r.status != ExtractionStatus::WouldExtract {
                result_line(r)
            } else {
                Vec::new()
            }
        },
    }
}

/// The listing of the results, and whether any result is in it.
fn listing_exec(which: &Listing, rs: &Vec<ExtractionResult>) -> (r: (Vec<char>, bool))
    ensures
        r.0@ == listing(*which, rs@),
        r.1 == exists|i: int| 0 <= i < rs@.len() && listing_selects(*which, #[trigger] rs@[i]),
{
    let mut out: Vec<char> = Vec::new();
    let mut any = false;
    let mut k: usize = 0;
    while k < rs.len()
        invariant
            k <= rs.len(),
            out@ == listing(*which, rs@.take(k as int)),
            any == exists|i: int| 0 <= i < k && listing_selects(*which, #[trigger] rs@[i]),
        decreases rs.len() - k,
    {
        let line = listing_line_exec(which, &rs[k]);
        extend_chars(&mut out, &line);
        if listing_selects_exec(which, &rs[k]) {
            any = true;
        }
        k = k + 1;
        proof {
            assert(rs@.take(k as int).drop_last() =~= rs@.take(k - 1));
            assert(rs@.take(k as int).last() == rs@[k - 1]);
        }
    }
    assert(rs@.take(rs.len() as int) =~= rs@);
    (out, any)
}

fn listing_selects_exec(which: &Listing, r: &ExtractionResult) -> (b: bool)
    ensures
        b == listing_selects(*which, *r),
{
    match which {
        Listing::WouldExtract => r.status == ExtractionStatus::WouldExtract,
        Listing::Failures => r.status.is_failed(),
        Listing::Notable => r.status != ExtractionStatus::WouldExtract,
    }
}

/// The text that the program prints after a run.
pub fn human_report(summary: &RunSummary, verbose: bool) -> (r: String)
    ensures
        r@ == spec_human_report(*summary, verbose),
{
    let ghost blocks = summary.inputs@.map_values(
        |i: InputSummary| spec_input_block(i, summary.dry_run),
    );
    let mut out: Vec<char> = Vec::new();
    let mut k: usize = 0;
    while k < summary.inputs.len()
        invariant
            k <= summary.inputs.len(),
            blocks == summary.inputs@.map_values(
                |i: InputSummary| spec_input_block(i, summary.dry_run),
            ),
            out@ == join(blocks.take(k as int), "\n"@),
        decreases summary.inputs.len() - k,
    {
        if k > 0 {
            extend_str(&mut out, "\n");
        }
        let block = input_block(&summary.inputs[k], summary.dry_run);
        extend_chars(&mut out, &block);
        k = k + 1;
        proof {
            assert(blocks.take(k as int).drop_last() =~= blocks.take(k - 1));
            assert(blocks.take(k as int).last() == spec_input_block(
                summary.inputs@[k - 1],
                summary.dry_run,
            ));
            if k == 1 {
                assert(blocks.take(0) =~= Seq::<Seq<char>>::empty());
                assert(out@ =~= join(blocks.take(k as int), "\n"@));
            } else {
                assert(out@ =~= join(blocks.take(k as int), "\n"@));
            }
        }
    }
    assert(blocks.take(summary.inputs.len() as int) =~= blocks);
    let ghost p0 = out@;
    let mut part: Vec<char> = Vec::new();
    if summary.inputs.len() > 1 {
        part = totals_block(summary);
    }
    extend_chars(&mut out, &part);
    let mut part: Vec<char> = Vec::new();
    if summary.dry_run && summary.results.len() > 0 {
        part = str_chars("\n");
        extend_str(&mut part, "Would extract:\n");
        let (lines, _) = listing_exec(&Listing::WouldExtract, &summary.results);
        extend_chars(&mut part, &lines);
    }
    extend_chars(&mut out, &part);
    let (failures, any_failure) = listing_exec(&Listing::Failures, &summary.results);
    let mut part: Vec<char> = Vec::new();
    if any_failure {
        part = str_chars("\n");
        extend_str(&mut part, "Failures:\n");
        extend_chars(&mut part, &failures);
    }
    extend_chars(&mut out, &part);
    let mut part: Vec<char> = Vec::new();
    if verbose {
        let (notable, any_notable) = listing_exec(&Listing::Notable, &summary.results);
        if any_notable {
            part = str_chars("\n");
            extend_str(&mut part, "Results:\n");
            extend_chars(&mut part, &notable);
        }
    }
    extend_chars(&mut out, &part);
    string_from_chars(&out)
}

} // verus!
