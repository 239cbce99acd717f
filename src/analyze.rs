//! Classification of each resolved file against its budget.

use vstd::prelude::*;
use crate::files::{File, FileView, entries_view};
use crate::units::Quantity;

verus! {

/// The verdict on one file.
#[derive(Clone, Debug)]
pub struct AnalyzeReport {
    pub pass: bool,
    pub actual_file_size: Quantity,
    pub size_unit: String,
    pub compression: String,
    pub budget_size: Quantity,
    pub error: Option<String>,
}

/// The value of an [`AnalyzeReport`], its texts as character sequences.
pub struct ReportView {
    pub pass: bool,
    pub actual_file_size: Quantity,
    pub size_unit: Seq<char>,
    pub compression: Seq<char>,
    pub budget_size: Quantity,
    pub error: Option<Seq<char>>,
}

impl View for AnalyzeReport {
    type V = ReportView;

    open spec fn view(&self) -> ReportView {
        ReportView {
            pass: self.pass,
            actual_file_size: self.actual_file_size,
            size_unit: self.size_unit@,
            compression: self.compression@,
            budget_size: self.budget_size,
            error: crate::files::text_option(self.error),
        }
    }
}

/// The verdict on a file: it passes when it carries no error and its size is
/// at most its budget.
pub open spec fn report_of(f: FileView) -> ReportView {
    ReportView {
        pass: f.error is None && f.actual_file_size.le(f.budget_size),
        actual_file_size: f.actual_file_size,
        size_unit: f.size_unit,
        compression: f.compression,
        budget_size: f.budget_size,
        error: f.error,
    }
}

/// The verdicts on a file map, name by name.
pub open spec fn reports_of(m: Seq<(Seq<char>, FileView)>) -> Seq<(Seq<char>, ReportView)> {
    m.map_values(|p: (Seq<char>, FileView)| (p.0, report_of(p.1)))
}

/// A verdict map with its texts as character sequences.
pub open spec fn reports_view(v: Seq<(String, AnalyzeReport)>) -> Seq<(Seq<char>, ReportView)> {
    v.map_values(|p: (String, AnalyzeReport)| (p.0@, p.1@))
}

/// Classifies the files of one run.
pub struct Analyzer {
    pub bundlefiles: Vec<(String, File)>,
}

impl Analyzer {
    pub fn new(bundlefiles: Vec<(String, File)>) -> (r: Analyzer)
        ensures
            r.bundlefiles == bundlefiles,
    {
        Analyzer { bundlefiles }
    }

    /// Whether `actual_file_size` is within `budget_file_size`; equal sizes pass.
    fn is_budget_pass(&self, actual_file_size: Quantity, budget_file_size: Quantity) -> (r: bool)
        ensures
            r == actual_file_size.le(budget_file_size),
    {
        let a = actual_file_size.num as u128;
        let b = budget_file_size.den as u128;
        let c = budget_file_size.num as u128;
        let d = actual_file_size.den as u128;
        proof {
            lemma_product_fits(a, b);
            lemma_product_fits(c, d);
        }
        !(a * b > c * d)
    }

    /// The verdict on every file, under the same names and in the same order.
    pub fn analyze(&mut self) -> (r: Vec<(String, AnalyzeReport)>)
        ensures
            reports_view(r@) == reports_of(entries_view(old(self).bundlefiles@)),
            *final(self) == *old(self),
    {
        let n = self.bundlefiles.len();
        let ghost want = reports_of(entries_view(self.bundlefiles@));
        let mut out: Vec<(String, AnalyzeReport)> = Vec::new();
        let mut i: usize = 0;
        while i < n
            invariant
                n == self.bundlefiles@.len(),
                want == reports_of(entries_view(self.bundlefiles@)),
                i <= n,
                out@.len() == i,
                reports_view(out@) =~= want.subrange(0, i as int),
            decreases n - i,
        {
            let (name, file) = &self.bundlefiles[i];
            let pass = match &file.error {
                Some(_) => false,
                None => self.is_budget_pass(file.actual_file_size, file.budget_size),
            };
            let report = AnalyzeReport {
                pass,
                actual_file_size: file.actual_file_size,
                size_unit: file.size_unit.clone(),
                compression: file.compression.clone(),
                budget_size: file.budget_size,
                error: match &file.error {
                    Some(e) => Some(e.clone()),
                    None => None,
                },
            };
            out.push((name.clone(), report));
            proof {
                let fv = entries_view(self.bundlefiles@)[i as int];
                assert(fv == (self.bundlefiles@[i as int].0@, self.bundlefiles@[i as int].1@));
                assert(out@.len() == i + 1);
                assert(out@[i as int].1@ == report_of(fv.1));
                assert(reports_view(out@)[i as int] == want[i as int]);
            }
            i = i + 1;
        }
        out
    }
}

proof fn lemma_product_fits(x: u128, y: u128)
    requires
        x <= u64::MAX,
        y <= u64::MAX,
    ensures
        x * y <= u128::MAX,
{
    assert(x * y <= (u64::MAX as int) * (u64::MAX as int)) by (nonlinear_arith)
        requires
            x <= u64::MAX,
            y <= u64::MAX,
    ;
}

/// Equal sizes pass, and a size one unit above the budget fails.
pub proof fn lemma_budget_boundary(actual: Quantity, budget: Quantity)
    requires
        actual.wf(),
        budget.wf(),
    ensures
        actual.same_value(budget) ==> actual.le(budget),
        actual.num * budget.den == (budget.num + budget.den) * actual.den ==> !actual.le(budget),
{
    if actual.num * budget.den == (budget.num + budget.den) * actual.den {
        assert(actual.num * budget.den > budget.num * actual.den) by (nonlinear_arith)
            requires
                actual.num * budget.den == (budget.num + budget.den) * actual.den,
                actual.den > 0,
                budget.den > 0,
        ;
    }
}

} // verus!
