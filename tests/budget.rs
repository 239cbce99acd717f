use bundlesize::analyze::Analyzer;
use bundlesize::config::BundleConfig;
use bundlesize::files::{
    billable_bytes, get_file_compression, insert_entry, CollectionError, File, FileCompression,
    FileProbe, Files, Found, Lookup,
};
use bundlesize::reporter::{verdict_line, Report};
use bundlesize::units::{get_file_unit, nat_to_text, FileUnit, ParseError, Quantity};
use bundlesize::{check_bundle, summarize, CheckBundlerOutput};

fn entry(path: &str, max_size: &str) -> BundleConfig {
    BundleConfig { path: path.to_string(), max_size: max_size.to_string() }
}

fn probe(name: &str, len: u64) -> FileProbe {
    FileProbe {
        name: name.to_string(),
        path: format!("dist/{}", name),
        is_file: true,
        len,
        content: None,
    }
}

fn lookups(files: &Files) -> Vec<Lookup> {
    match files.plan() {
        Ok(ls) => ls,
        Err(e) => panic!("plan failed: {}", e.message()),
    }
}

fn run(conf: Vec<BundleConfig>, found: Vec<Found>, silent: Option<bool>) -> (CheckBundlerOutput, Vec<String>) {
    let files = Files::new(conf, FileCompression::UnCompressed);
    let ls = lookups(&files);
    match check_bundle(&files, &ls, &found, silent) {
        Ok(r) => r,
        Err(e) => panic!("run failed: {}", e.message()),
    }
}

#[test]
fn parses_whole_kilobytes() {
    let u = get_file_unit("10 kB").unwrap();
    assert_eq!(u, FileUnit::Kb(Quantity { num: 10, den: 1 }));
    assert_eq!(u.budget_threshold(), Quantity { num: 10, den: 1 });
    assert_eq!(u.to_string(), "kB");
}

#[test]
fn parses_fractional_kilobytes() {
    let u = get_file_unit("10.25 kB").unwrap();
    assert_eq!(u.budget_threshold(), Quantity { num: 1025, den: 100 });
    assert_eq!(u.budget_threshold().to_text(), "10.25");
    let v = get_file_unit("0.50 kB").unwrap();
    assert_eq!(v.budget_threshold().to_text(), "0.5");
}

#[test]
fn refuses_unknown_unit() {
    assert_eq!(get_file_unit("10 megabytes"), Err(ParseError::UnsupportedUnit));
    assert_eq!(get_file_unit("10kB"), Err(ParseError::UnsupportedUnit));
    assert_eq!(get_file_unit("1 0 kB"), Err(ParseError::UnsupportedUnit));
    assert_eq!(get_file_unit(""), Err(ParseError::UnsupportedUnit));
}

#[test]
fn refuses_bad_number() {
    assert_eq!(get_file_unit("ten kB"), Err(ParseError::InvalidNumber));
    assert_eq!(get_file_unit(" kB"), Err(ParseError::InvalidNumber));
    assert_eq!(get_file_unit("1.2.3 kB"), Err(ParseError::InvalidNumber));
    assert_eq!(get_file_unit(". kB"), Err(ParseError::InvalidNumber));
    assert_eq!(get_file_unit("99999999999999999999 kB"), Err(ParseError::InvalidNumber));
    assert_eq!(get_file_unit("0.00000000000000000001 kB"), Err(ParseError::InvalidNumber));
}

#[test]
fn converts_bytes_to_kilobytes_exactly() {
    let u = get_file_unit("1 kB").unwrap();
    let q = u.get_converted_unit(1536);
    assert_eq!(q, Quantity { num: 1536, den: 1024 });
    assert_eq!(q.to_text(), "1.5");
    assert_eq!(u.get_converted_unit(1).to_text(), "0.0009765625");
    assert_eq!(u.get_converted_unit(0).to_text(), "0");
    assert_eq!(u.get_converted_unit(10240).to_text(), "10");
    assert_eq!(u.get_converted_unit(1025).to_text(), "1.0009765625");
}

#[test]
fn writes_integers() {
    assert_eq!(nat_to_text(0), "0");
    assert_eq!(nat_to_text(907), "907");
    assert_eq!(nat_to_text(u64::MAX), "18446744073709551615");
}

#[test]
fn selects_compression() {
    assert_eq!(get_file_compression("brotli"), FileCompression::Brotli);
    assert_eq!(get_file_compression("gzip"), FileCompression::UnCompressed);
    assert_eq!(get_file_compression(""), FileCompression::UnCompressed);
    assert_eq!(FileCompression::Brotli.to_string(), "Brotli");
    assert_eq!(FileCompression::UnCompressed.to_string(), "UnCompressed");
}

#[test]
fn plan_marks_patterns() {
    let files = Files::new(
        vec![entry("dist/*.js", "10 kB"), entry("dist/app.js", "2.5 kB")],
        FileCompression::UnCompressed,
    );
    let ls = lookups(&files);
    assert_eq!(ls.len(), 2);
    assert!(ls[0].glob);
    assert!(!ls[1].glob);
    assert_eq!(ls[1].path, "dist/app.js");
    assert_eq!(ls[1].unit.budget_threshold(), Quantity { num: 25, den: 10 });
}

#[test]
fn budget_parse_failure_stops_the_plan() {
    let files = Files::new(
        vec![entry("dist/a.js", "10 kB"), entry("dist/b.js", "10 megabytes")],
        FileCompression::UnCompressed,
    );
    match files.plan() {
        Err(e) => {
            assert!(matches!(e, CollectionError::BadBudget(ParseError::UnsupportedUnit)));
            assert_eq!(e.message(), "unit not supported");
        }
        Ok(_) => panic!("a bad budget must stop the run"),
    }
}

#[test]
fn equal_size_passes_and_one_unit_above_fails() {
    let (out, _) = run(
        vec![entry("dist/a.js", "10 kB"), entry("dist/b.js", "10 kB")],
        vec![Found::Single(probe("a.js", 10240)), Found::Single(probe("b.js", 11264))],
        None,
    );
    assert_eq!(out.result.len(), 2);
    assert_eq!(out.result[0].0, "a.js");
    assert!(out.result[0].1.pass);
    assert_eq!(out.result[1].0, "b.js");
    assert!(!out.result[1].1.pass);
    assert!(out.result[1].1.error.is_none());
    assert_eq!(out.summary.success, 1);
    assert_eq!(out.summary.fail, 1);
}

#[test]
fn counters_add_up_on_a_mix() {
    let (out, lines) = run(
        vec![entry("dist/a.js", "10 kB"), entry("dist/b.js", "1 kB"), entry("dist/*.nope", "10 kB")],
        vec![Found::Single(probe("a.js", 1536)), Found::Single(probe("b.js", 2048)), Found::Matches(vec![])],
        Some(false),
    );
    let s = out.summary;
    assert_eq!((s.total, s.success, s.fail, s.error), (3, 1, 1, 1));
    assert_eq!(s.total, s.success + s.fail + s.error);
    assert_eq!(lines.len(), 3);
    assert_eq!(lines[0], "PASS a.js: 1.5 kB < maxSize 10 kB (UnCompressed)");
    assert_eq!(lines[1], "FAIL b.js: 2 kB > maxSize 1 kB (UnCompressed)");
    assert_eq!(lines[2], "ERROR pattern dist/*.nope is not getting any match");
}

#[test]
fn counters_are_zero_without_files() {
    let (out, lines) = run(vec![], vec![], Some(false));
    let s = out.summary;
    assert_eq!((s.total, s.success, s.fail, s.error), (0, 0, 0, 0));
    assert!(out.result.is_empty());
    assert!(lines.is_empty());
}

#[test]
fn silent_by_default() {
    let (_, lines) = run(vec![entry("dist/a.js", "10 kB")], vec![Found::Single(probe("a.js", 1))], None);
    assert!(lines.is_empty());
    let (_, lines) = run(vec![entry("dist/a.js", "10 kB")], vec![Found::Single(probe("a.js", 1))], Some(true));
    assert!(lines.is_empty());
}

#[test]
fn empty_pattern_is_a_soft_failure() {
    let (out, _) = run(vec![entry("dist/*.nope", "10 kB")], vec![Found::Matches(vec![])], None);
    assert_eq!(out.result.len(), 1);
    let (name, report) = &out.result[0];
    assert_eq!(name, "dist/*.nope");
    assert!(!report.pass);
    let err = report.error.clone().unwrap();
    assert!(err.contains("dist/*.nope"));
    assert_eq!(err, "pattern dist/*.nope is not getting any match");
    assert_eq!(report.budget_size, Quantity { num: 10, den: 1 });
    assert_eq!(out.summary.error, 1);
    assert_eq!(out.summary.total, 1);
}

#[test]
fn missing_literal_file_is_a_hard_failure() {
    let conf = vec![entry("dist/*.js", "10 kB"), entry("dist/missing.js", "10 kB")];
    let files = Files::new(conf, FileCompression::UnCompressed);
    let ls = lookups(&files);
    let found = vec![Found::Matches(vec![probe("a.js", 5)]), Found::Missing];
    match check_bundle(&files, &ls, &found, Some(false)) {
        Err(e) => {
            assert!(matches!(&e, CollectionError::LiteralFileMissing(p) if p == "dist/missing.js"));
            assert_eq!(e.message(), "single file for dist/missing.js does not exist");
        }
        Ok(_) => panic!("a missing literal file must stop the run"),
    }
}

#[test]
fn other_hard_failures() {
    let files = Files::new(vec![entry("dist/", "10 kB")], FileCompression::UnCompressed);
    let ls = lookups(&files);
    match files.collect(&ls, &vec![Found::Unnamed]) {
        Err(e) => assert_eq!(e.message(), "dist/ cannot be converted to path"),
        Ok(_) => panic!("expected an error"),
    }
    match files.collect(&ls, &vec![Found::WalkFailed("walk broke".to_string())]) {
        Err(e) => assert_eq!(e.message(), "walk broke"),
        Ok(_) => panic!("expected an error"),
    }
    let brotli = Files::new(vec![entry("dist/*.js", "10 kB")], FileCompression::Brotli);
    let ls = lookups(&brotli);
    match brotli.collect(&ls, &vec![Found::Matches(vec![probe("a.js", 3)])]) {
        Err(e) => {
            assert!(matches!(&e, CollectionError::Unreadable(p) if p == "dist/a.js"));
            assert_eq!(e.message(), "dist/a.js is not found");
        }
        Ok(_) => panic!("an unreadable file must stop a compressed run"),
    }
}

#[test]
fn directories_are_skipped() {
    let mut dir = probe("assets", 4096);
    dir.is_file = false;
    let (out, _) = run(
        vec![entry("dist/*", "10 kB")],
        vec![Found::Matches(vec![dir, probe("a.js", 100)])],
        None,
    );
    assert_eq!(out.result.len(), 1);
    assert_eq!(out.result[0].0, "a.js");
    assert_eq!(out.summary.total, 1);
}

#[test]
fn only_directories_leave_no_record() {
    let mut dir = probe("assets", 4096);
    dir.is_file = false;
    let (out, _) = run(vec![entry("dist/*", "10 kB")], vec![Found::Matches(vec![dir])], None);
    assert!(out.result.is_empty());
}

#[test]
fn later_record_of_a_name_wins() {
    let (out, _) = run(
        vec![entry("dist/*.js", "10 kB"), entry("build/*.js", "1 kB")],
        vec![Found::Matches(vec![probe("app.js", 100)]), Found::Matches(vec![probe("app.js", 4096)])],
        None,
    );
    assert_eq!(out.result.len(), 1);
    assert_eq!(out.result[0].1.actual_file_size, Quantity { num: 4096, den: 1024 });
    assert_eq!(out.result[0].1.budget_size, Quantity { num: 1, den: 1 });
    assert!(!out.result[0].1.pass);
}

#[test]
fn insert_replaces_by_name() {
    let rec = |n: u64| File {
        budget_size: Quantity { num: 1, den: 1 },
        actual_file_size: Quantity { num: n, den: 1024 },
        compression: "UnCompressed".to_string(),
        size_unit: "kB".to_string(),
        error: None,
    };
    let mut m: Vec<(String, File)> = Vec::new();
    insert_entry(&mut m, "a".to_string(), rec(1));
    insert_entry(&mut m, "b".to_string(), rec(2));
    insert_entry(&mut m, "a".to_string(), rec(3));
    assert_eq!(m.len(), 2);
    assert_eq!(m[0].0, "a");
    assert_eq!(m[0].1.actual_file_size.num, 3);
    assert_eq!(m[1].1.actual_file_size.num, 2);
}

#[test]
fn rerun_gives_the_same_reports() {
    let conf = || vec![entry("dist/*.js", "1 kB"), entry("dist/app.css", "0.5 kB")];
    let found = || vec![Found::Matches(vec![probe("a.js", 900), probe("b.js", 2000)]), Found::Single(probe("app.css", 512))];
    let (a, la) = run(conf(), found(), Some(false));
    let (b, lb) = run(conf(), found(), Some(false));
    assert_eq!(la, lb);
    assert_eq!(a.summary, b.summary);
    assert_eq!(a.result.len(), b.result.len());
    for (x, y) in a.result.iter().zip(b.result.iter()) {
        assert_eq!(x.0, y.0);
        assert_eq!(x.1.pass, y.1.pass);
        assert_eq!(x.1.actual_file_size, y.1.actual_file_size);
        assert_eq!(x.1.budget_size, y.1.budget_size);
        assert_eq!(x.1.error, y.1.error);
    }
}

#[test]
fn brotli_shrinks_compressible_text() {
    let text = "the quick brown fox jumps over the lazy dog. ".repeat(200).into_bytes();
    let raw = text.len() as u64;
    let mut p = probe("a.txt", raw);
    p.content = Some(text);
    let b = billable_bytes(FileCompression::Brotli, &p).unwrap();
    let r = billable_bytes(FileCompression::UnCompressed, &p).unwrap();
    assert_eq!(r, raw);
    assert!(b < raw);
    assert!(b > 0);
}

#[test]
fn brotli_sizes_are_reported_in_kilobytes() {
    let text = "abcabcabc".repeat(1000).into_bytes();
    let mut p = probe("a.txt", text.len() as u64);
    p.content = Some(text);
    let b = billable_bytes(FileCompression::Brotli, &p).unwrap();
    let files = Files::new(vec![entry("dist/a.txt", "10 kB")], FileCompression::Brotli);
    let ls = lookups(&files);
    let (out, lines) = match check_bundle(&files, &ls, &vec![Found::Single(p)], Some(false)) {
        Ok(r) => r,
        Err(e) => panic!("{}", e.message()),
    };
    assert_eq!(out.result[0].1.actual_file_size, Quantity { num: b, den: 1024 });
    assert_eq!(out.result[0].1.compression, "Brotli");
    assert!(lines[0].ends_with("kB (Brotli)"));
}

#[test]
fn analyzer_keeps_errors() {
    let files = vec![(
        "x".to_string(),
        File {
            budget_size: Quantity { num: 10, den: 1 },
            actual_file_size: Quantity { num: 0, den: 1024 },
            compression: String::new(),
            size_unit: String::new(),
            error: Some("boom".to_string()),
        },
    )];
    let mut a = Analyzer::new(files);
    let r = a.analyze();
    assert!(!r[0].1.pass);
    assert_eq!(r[0].1.error.as_deref(), Some("boom"));
    let mut rep = Report::new(false);
    let counted = rep.report(&r);
    assert_eq!((counted.total, counted.error, counted.success, counted.fail), (1, 1, 0, 0));
    assert_eq!(verdict_line(&r[0].0, &r[0].1), "ERROR boom");
}

#[test]
fn summarize_counts_a_map() {
    let files = vec![(
        "a.js".to_string(),
        File {
            budget_size: Quantity { num: 1, den: 10 },
            actual_file_size: Quantity { num: 102, den: 1024 },
            compression: "UnCompressed".to_string(),
            size_unit: "kB".to_string(),
            error: None,
        },
    )];
    let (out, lines) = summarize(files, false);
    assert!(out.result[0].1.pass);
    assert_eq!(lines[0], "PASS a.js: 0.099609375 kB < maxSize 0.1 kB (UnCompressed)");
}
