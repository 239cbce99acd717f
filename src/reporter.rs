//! Counting the verdicts of a run and writing one line per file.

use vstd::prelude::*;
use crate::analyze::{AnalyzeReport, ReportView, reports_view};

verus! {

/// The one counter a verdict adds to.
#[derive(Clone, Copy, Debug, PartialEq, Eq, Structural)]
pub enum Outcome {
    Success,
    Fail,
    Error,
}

/// An error outranks the verdict; otherwise a passing file is a success and
/// any other a failure.
pub open spec fn outcome_of(r: ReportView) -> Outcome {
    if r.error is Some {
        Outcome::Error
    } else if r.pass {
        Outcome::Success
    } else {
        Outcome::Fail
    }
}

/// How many verdicts of `s` have outcome `o`.
pub open spec fn count_outcome(s: Seq<(Seq<char>, ReportView)>, o: Outcome) -> nat
    decreases s.len(),
{
    if s.len() == 0 {
        0
    } else {
        count_outcome(s.drop_last(), o) + if outcome_of(s.last().1) == o {
            1nat
        } else {
            0nat
        }
    }
}

/// The line written for the verdict on file `name`.
pub open spec fn report_line(name: Seq<char>, r: ReportView) -> Seq<char> {
    match r.error {
        Some(e) => "ERROR "@ + e,
        None => (if r.pass {
            "PASS "@
        } else {
            "FAIL "@
        }) + name + ": "@ + r.actual_file_size.text() + " "@ + r.size_unit + (if r.pass {
            " < maxSize "@
        } else {
            " > maxSize "@
        }) + r.budget_size.text() + " "@ + r.size_unit + " ("@ + r.compression + ")"@,
    }
}

/// The lines written for a verdict map, in its order.
pub open spec fn report_lines(s: Seq<(Seq<char>, ReportView)>) -> Seq<Seq<char>> {
    s.map_values(|p: (Seq<char>, ReportView)| report_line(p.0, p.1))
}

/// The texts of a list of lines.
pub open spec fn lines_view(v: Seq<String>) -> Seq<Seq<char>> {
    v.map_values(|s: String| s@)
}

/// Whether every size in a verdict map can be written.
pub open spec fn reports_wf(v: Seq<(String, AnalyzeReport)>) -> bool {
    forall|i: int| 0 <= i < v.len() ==> (#[trigger] v[i]).1.actual_file_size.wf() && v[i].1.budget_size.wf()
}

/// The counts of one run, and the lines written unless the run is silent.
pub struct Report {
    pub silent: bool,
    pub fail: usize,
    pub success: usize,
    pub error: usize,
    pub total: usize,
    pub lines: Vec<String>,
}

impl Report {
    /// An empty report.
    pub fn new(silent: bool) -> (r: Report)
        ensures
            r.silent == silent,
            r.fail == 0,
            r.success == 0,
            r.error == 0,
            r.total == 0,
            r.lines@.len() == 0,
    {
        Report { silent, fail: 0, success: 0, error: 0, total: 0, lines: Vec::new() }
    }

    /// Counts each verdict under exactly one outcome, so that the total is the
    /// sum of the three counts, and unless silent writes one line per verdict.
    pub fn report(&mut self, analyze_result: &Vec<(String, AnalyzeReport)>) -> (r: &Report)
        requires
            reports_wf(analyze_result@),
        ensures
            final(self).total == analyze_result@.len(),
            final(self).success == count_outcome(reports_view(analyze_result@), Outcome::Success),
            final(self).fail == count_outcome(reports_view(analyze_result@), Outcome::Fail),
            final(self).error == count_outcome(reports_view(analyze_result@), Outcome::Error),
            final(self).total == final(self).success + final(self).fail + final(self).error,
            final(self).silent == old(self).silent,
            lines_view(final(self).lines@) == if old(self).silent {
                Seq::<Seq<char>>::empty()
            } else {
                report_lines(reports_view(analyze_result@))
            },
            *r == *final(self),
    {
        let n = analyze_result.len();
        let ghost all = reports_view(analyze_result@);
        let mut success: usize = 0;
        let mut fail: usize = 0;
        let mut error: usize = 0;
        let mut lines: Vec<String> = Vec::new();
        let mut i: usize = 0;
        while i < n
            invariant
                n == analyze_result@.len(),
                all == reports_view(analyze_result@),
                reports_wf(analyze_result@),
                i <= n,
                success == count_outcome(all.subrange(0, i as int), Outcome::Success),
                fail == count_outcome(all.subrange(0, i as int), Outcome::Fail),
                error == count_outcome(all.subrange(0, i as int), Outcome::Error),
                success + fail + error == i,
                lines@.len() == if self.silent {
                    0
                } else {
                    i as int
                },
                lines_view(lines@) =~= if self.silent {
                    Seq::<Seq<char>>::empty()
                } else {
                    report_lines(all.subrange(0, i as int))
                },
            decreases n - i,
        {
            let (name, verdict) = &analyze_result[i];
            proof {
                assert(all.subrange(0, i + 1).drop_last() =~= all.subrange(0, i as int));
                assert(all[i as int] == (name@, verdict@));
            }
            match &verdict.error {
                Some(_) => {
                    error = error + 1;
                },
                None => {
                    if verdict.pass {
                        success = success + 1;
                    } else {
                        fail = fail + 1;
                    }
                },
            }
            if !self.silent {
                let ghost before = lines@;
                let line = verdict_line(name, verdict);
                lines.push(line);
                proof {
                    let want = report_lines(all.subrange(0, i + 1));
                    assert forall|k: int| 0 <= k < i + 1 implies lines_view(lines@)[k] == want[k] by {
                        if k < i {
                            assert(lines@[k] == before[k]);
                            assert(lines_view(before)[k] == report_lines(all.subrange(0, i as int))[k]);
                        }
                    }
                    assert(lines_view(lines@) =~= want);
                }
            }
            i = i + 1;
        }
        proof {
            assert(all.subrange(0, n as int) =~= all);
        }
        self.total = n;
        self.success = success;
        self.fail = fail;
        self.error = error;
        self.lines = lines;
        self
    }
}

/// Writes the line for the verdict on file `name`.
pub fn verdict_line(name: &String, r: &AnalyzeReport) -> (line: String)
    requires
        r.actual_file_size.wf(),
        r.budget_size.wf(),
    ensures
        line@ == report_line(name@, r@),
{
    match &r.error {
        Some(e) => {
            let mut s = String::from_str("ERROR ");
            s.append(e.as_str());
            s
        },
        None => {
            let mut s = if r.pass {
                String::from_str("PASS ")
            } else {
                String::from_str("FAIL ")
            };
            s.append(name.as_str());
            s.append(": ");
            let actual = r.actual_file_size.to_text();
            s.append(actual.as_str());
            s.append(" ");
            s.append(r.size_unit.as_str());
            if r.pass {
                s.append(" < maxSize ");
            } else {
                s.append(" > maxSize ");
            }
            let budget = r.budget_size.to_text();
            s.append(budget.as_str());
            s.append(" ");
            s.append(r.size_unit.as_str());
            s.append(" (");
            s.append(r.compression.as_str());
            s.append(")");
            s
        },
    }
}

} // verus!
