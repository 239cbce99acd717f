//! Size budgets for build output files: budget strings are parsed into exact
//! amounts, path specifications are resolved into sized files, each file is
//! classified against its budget, and the outcomes are counted and rendered.

pub mod analyze;
pub mod config;
pub mod files;
pub mod reporter;
pub mod units;

use vstd::prelude::*;
use crate::analyze::{AnalyzeReport, Analyzer, ReportView, reports_of, reports_view};
use crate::files::{CollectionError, File, FileCompression, Files, Found, Lookup, collected, entries_view, records_wf};
use crate::reporter::{Outcome, Report, count_outcome, lines_view, report_lines};

verus! {

/// What a caller asks of one run.
#[derive(Clone, Debug)]
pub struct CheckBundlerInput {
    pub config_path: String,
    pub compression: String,
    pub reporter: String,
    pub silent: Option<bool>,
}

/// The counts of one run.
#[derive(Clone, Copy, Debug, PartialEq, Eq, Structural)]
pub struct BundleOutputSummary {
    pub total: u32,
    pub success: u32,
    pub fail: u32,
    pub error: u32,
}

/// The counts and the verdict map of one run.
#[derive(Clone, Debug)]
pub struct CheckBundlerOutput {
    pub summary: BundleOutputSummary,
    pub result: Vec<(String, AnalyzeReport)>,
}

/// A count as it is reported, held at `u32::MAX` where it does not fit.
pub open spec fn reported_count(n: int) -> u32 {
    if n > u32::MAX {
        u32::MAX
    } else {
        n as u32
    }
}

fn to_reported(n: usize) -> (r: u32)
    ensures
        r == reported_count(n as int),
{
    if n > u32::MAX as usize {
        u32::MAX
    } else {
        n as u32
    }
}

/// What a run yields from its entries and what their lookups found: the
/// verdict map, or the error that stopped it.
pub open spec fn run_outcome(ls: Seq<Lookup>, fs: Seq<Found>, c: FileCompression) -> Result<
    Seq<(Seq<char>, ReportView)>,
    CollectionError,
> {
    match collected(ls, fs, c, ls.len() as int) {
        Ok(m) => Ok(reports_of(m)),
        Err(e) => Err(e),
    }
}

/// Running twice on the same entries, strategy and findings yields the same
/// verdict map, or the same error.
pub proof fn lemma_rerun_agrees(
    ls1: Seq<Lookup>,
    fs1: Seq<Found>,
    ls2: Seq<Lookup>,
    fs2: Seq<Found>,
    c: FileCompression,
)
    requires
        ls1 == ls2,
        fs1 == fs2,
    ensures
        run_outcome(ls1, fs1, c) == run_outcome(ls2, fs2, c),
{
}

/// Classifies and counts a collected file map. Unless `silent`, one line is
/// written per file, in the map's order.
pub fn summarize(files: Vec<(String, File)>, silent: bool) -> (r: (CheckBundlerOutput, Vec<String>))
    requires
        records_wf(entries_view(files@)),
    ensures
        reports_view(r.0.result@) == reports_of(entries_view(files@)),
        r.0.summary.total == reported_count(files@.len() as int),
        r.0.summary.success == reported_count(count_outcome(reports_of(entries_view(files@)), Outcome::Success) as int),
        r.0.summary.fail == reported_count(count_outcome(reports_of(entries_view(files@)), Outcome::Fail) as int),
        r.0.summary.error == reported_count(count_outcome(reports_of(entries_view(files@)), Outcome::Error) as int),
        files@.len() <= u32::MAX ==> r.0.summary.total == r.0.summary.success + r.0.summary.fail + r.0.summary.error,
        lines_view(r.1@) == if silent {
            Seq::<Seq<char>>::empty()
        } else {
            report_lines(reports_of(entries_view(files@)))
        },
{
    let ghost m = entries_view(files@);
    let mut analyzer = Analyzer::new(files);
    let result = analyzer.analyze();
    proof {
        let rv = reports_view(result@);
        assert(rv.len() == result@.len());
        assert(m.len() == files@.len());
        assert(rv == reports_of(m));
        assert forall|i: int| 0 <= i < result@.len() implies (#[trigger] result@[i]).1.actual_file_size.wf()
            && result@[i].1.budget_size.wf() by {
            assert(rv[i] == (result@[i].0@, result@[i].1@));
            assert(rv[i] == (m[i].0, crate::analyze::report_of(m[i].1)));
        }
    }
    let mut reporter = Report::new(silent);
    reporter.report(&result);
    let summary = BundleOutputSummary {
        total: to_reported(reporter.total),
        success: to_reported(reporter.success),
        fail: to_reported(reporter.fail),
        error: to_reported(reporter.error),
    };
    (CheckBundlerOutput { summary, result }, reporter.lines)
}

/// Resolves the entries of a run from what their lookups found, then
/// classifies and counts the files. A hard failure yields its error and no
/// verdicts. Output lines are written unless `silent`, which defaults to true.
pub fn check_bundle(files: &Files, lookups: &Vec<Lookup>, found: &Vec<Found>, silent: Option<bool>) -> (r: Result<
    (CheckBundlerOutput, Vec<String>),
    CollectionError,
>)
    requires
        lookups@.len() == found@.len(),
        forall|i: int| 0 <= i < lookups@.len() ==> (#[trigger] lookups@[i]).wf(),
    ensures
        match run_outcome(lookups@, found@, files.strategy()) {
            Ok(reports) => r is Ok && reports_view(r->Ok_0.0.result@) == reports && lines_view(r->Ok_0.1@) == if silent
                == Some(false) {
                report_lines(reports)
            } else {
                Seq::<Seq<char>>::empty()
            } && r->Ok_0.0.summary.total == reported_count(reports.len() as int) && r->Ok_0.0.summary.success
                == reported_count(count_outcome(reports, Outcome::Success) as int) && r->Ok_0.0.summary.fail
                == reported_count(count_outcome(reports, Outcome::Fail) as int) && r->Ok_0.0.summary.error
                == reported_count(count_outcome(reports, Outcome::Error) as int),
            Err(e) => r is Err && r->Err_0 == e,
        },
{
    let quiet = match silent {
        Some(s) => s,
        None => true,
    };
    match files.collect(lookups, found) {
        Err(e) => Err(e),
        Ok(map) => {
            proof {
                crate::files::lemma_collected_wf(lookups@, found@, files.strategy(), lookups@.len() as int);
            }
            Ok(summarize(map, quiet))
        },
    }
}

} // verus!
