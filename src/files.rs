//! Resolution of budget entries into sized files.
//!
//! A run has two halves around the file system. [`Files::plan`] parses every
//! budget and decides for each entry whether it is a glob pattern, before any
//! file is touched. The caller then looks the entries up and hands back what
//! it found ([`Found`]), which [`Files::collect`] turns into the file map.

use vstd::prelude::*;
use crate::config::BundleConfig;
use crate::units::{FileUnit, ParseError, Quantity, get_file_unit, budget_of};

verus! {

/// Whether a path specification is read as a glob pattern, as `is_glob` decides it.
pub uninterp spec fn glob_syntax(path: Seq<char>) -> bool;

/// The length of the Brotli stream of `data` at the default encoder
/// parameters, or `None` where the encoder reports a failure.
pub uninterp spec fn brotli_len(data: Seq<u8>) -> Option<u64>;

/// Relies on is_glob::is_glob: whether the path is a pattern depends on its text alone.
pub assume_specification[ is_glob::is_glob ](input: &String) -> (r: bool)
    ensures
        r == glob_syntax(input@),
;

/// Relies on brotli::CompressorReader with default `BrotliEncoderParams`:
/// read to the end, it yields the compressed stream of `data`, whose length
/// depends on the bytes alone; a failure of the encoder comes back as an error.
#[verifier::external_body]
fn brotli_compressed_len(data: &Vec<u8>) -> (r: Option<u64>)
    ensures
        r == brotli_len(data@),
{
    let params = brotli::enc::BrotliEncoderParams::default();
    let mut reader = brotli::CompressorReader::with_params(data.as_slice(), 4096, &params);
    let mut out: Vec<u8> = Vec::new();
    match std::io::Read::read_to_end(&mut reader, &mut out) {
        Ok(n) => Some(n as u64),
        Err(_) => None,
    }
}

/// How the billable size of a file is measured.
#[derive(Clone, Copy, Debug, PartialEq, Eq, Structural)]
pub enum FileCompression {
    Brotli,
    UnCompressed,
}

impl FileCompression {
    /// The name shown for the strategy.
    pub open spec fn name(self) -> Seq<char> {
        match self {
            FileCompression::UnCompressed => seq!['U', 'n', 'C', 'o', 'm', 'p', 'r', 'e', 's', 's', 'e', 'd'],
            FileCompression::Brotli => seq!['B', 'r', 'o', 't', 'l', 'i'],
        }
    }

    /// The name shown for the strategy.
    pub fn to_string(&self) -> (r: String)
        ensures
            r@ == self.name(),
    {
        proof {
            reveal_strlit("UnCompressed");
            reveal_strlit("Brotli");
        }
        match self {
            FileCompression::UnCompressed => String::from_str("UnCompressed"),
            FileCompression::Brotli => String::from_str("Brotli"),
        }
    }
}

/// Whether two strings hold the same characters.
fn same_text(a: &str, b: &str) -> (r: bool)
    ensures
        r == (a@ == b@),
{
    let n = a.unicode_len();
    if n != b.unicode_len() {
        return false;
    }
    let mut i: usize = 0;
    while i < n
        invariant
            n == a@.len() == b@.len(),
            i <= n,
            forall|k: int| 0 <= k < i ==> a@[k] == b@[k],
        decreases n - i,
    {
        if a.get_char(i) != b.get_char(i) {
            return false;
        }
        i = i + 1;
    }
    assert(a@ =~= b@);
    true
}

/// Selects the strategy of a run: `brotli` selects Brotli, anything else the raw size.
pub fn get_file_compression(compression: &str) -> (r: FileCompression)
    ensures
        r == (if compression@ == seq!['b', 'r', 'o', 't', 'l', 'i'] {
            FileCompression::Brotli
        } else {
            FileCompression::UnCompressed
        }),
{
    let name = "brotli";
    proof {
        reveal_strlit("brotli");
        assert(name@ =~= seq!['b', 'r', 'o', 't', 'l', 'i']);
    }
    if same_text(compression, name) {
        FileCompression::Brotli
    } else {
        FileCompression::UnCompressed
    }
}

/// One resolved file: its measured size and its budget, both in the budget's
/// unit, or the error that stands for an entry that matched nothing.
#[derive(Clone, Debug)]
pub struct File {
    pub budget_size: Quantity,
    pub actual_file_size: Quantity,
    pub compression: String,
    pub size_unit: String,
    pub error: Option<String>,
}

/// The value of a [`File`], its texts as character sequences.
pub struct FileView {
    pub budget_size: Quantity,
    pub actual_file_size: Quantity,
    pub compression: Seq<char>,
    pub size_unit: Seq<char>,
    pub error: Option<Seq<char>>,
}

pub open spec fn text_option(o: Option<String>) -> Option<Seq<char>> {
    match o {
        Some(s) => Some(s@),
        None => None,
    }
}

impl View for File {
    type V = FileView;

    open spec fn view(&self) -> FileView {
        FileView {
            budget_size: self.budget_size,
            actual_file_size: self.actual_file_size,
            compression: self.compression@,
            size_unit: self.size_unit@,
            error: text_option(self.error),
        }
    }
}

/// A file map: file names with their records, each name at most once.
pub open spec fn entries_view(m: Seq<(String, File)>) -> Seq<(Seq<char>, FileView)> {
    m.map_values(|p: (String, File)| (p.0@, p.1@))
}

/// The position of key `k` in `m`, or -1.
pub open spec fn key_index<V>(m: Seq<(Seq<char>, V)>, k: Seq<char>) -> int
    decreases m.len(),
{
    if m.len() == 0 {
        -1
    } else if m.last().0 == k {
        m.len() - 1
    } else {
        key_index(m.drop_last(), k)
    }
}

/// Writes `v` under `k`: a later write to a name replaces the earlier one.
pub open spec fn upsert<V>(m: Seq<(Seq<char>, V)>, k: Seq<char>, v: V) -> Seq<(Seq<char>, V)> {
    let i = key_index(m, k);
    if i >= 0 {
        m.update(i, (k, v))
    } else {
        m.push((k, v))
    }
}

/// Writes the records `recs` in order.
pub open spec fn upsert_all<V>(m: Seq<(Seq<char>, V)>, recs: Seq<(Seq<char>, V)>) -> Seq<(Seq<char>, V)>
    decreases recs.len(),
{
    if recs.len() == 0 {
        m
    } else {
        let last = recs.last();
        upsert(upsert_all(m, recs.drop_last()), last.0, last.1)
    }
}

/// Writes `val` under `key` in the file map, replacing an earlier record of that name.
pub fn insert_entry(out: &mut Vec<(String, File)>, key: String, val: File)
    ensures
        entries_view(final(out)@) == upsert(entries_view(old(out)@), key@, val@),
{
    let ghost m = entries_view(out@);
    let n = out.len();
    let mut found: Option<usize> = None;
    let mut i: usize = 0;
    while i < n
        invariant
            n == out@.len(),
            m == entries_view(out@),
            i <= n,
            match found {
                Some(j) => j < i && j as int == key_index(m.subrange(0, i as int), key@),
                None => key_index(m.subrange(0, i as int), key@) == -1,
            },
        decreases n - i,
    {
        proof {
            assert(m.subrange(0, i + 1).drop_last() == m.subrange(0, i as int));
        }
        if out[i].0 == key {
            found = Some(i);
        }
        i = i + 1;
    }
    proof {
        assert(m.subrange(0, n as int) == m);
    }
    match found {
        Some(j) => {
            out.set(j, (key, val));
            assert(entries_view(out@) =~= m.update(j as int, (key@, val@)));
        },
        None => {
            out.push((key, val));
            assert(entries_view(out@) =~= m.push((key@, val@)));
        },
    }
}


/// Why a run stopped before producing a file map.
#[derive(Clone, Debug)]
pub enum CollectionError {
    /// A budget string did not parse.
    BadBudget(ParseError),
    /// A literal path names no existing file.
    LiteralFileMissing(String),
    /// A literal path has no final component to name the file by.
    NotAPath(String),
    /// The file at this path could not be read for compression.
    Unreadable(String),
    /// The encoder failed on the file at this path.
    CompressionFailed(String),
    /// Walking the file system for a pattern failed, with this message.
    WalkFailed(String),
}


/// The text a stopped run reports.
pub open spec fn error_message(e: CollectionError) -> Seq<char> {
    match e {
        CollectionError::BadBudget(ParseError::UnsupportedUnit) => "unit not supported"@,
        CollectionError::BadBudget(ParseError::InvalidNumber) => "invalid budget number"@,
        CollectionError::LiteralFileMissing(p) => "single file for "@ + p@ + " does not exist"@,
        CollectionError::NotAPath(p) => p@ + " cannot be converted to path"@,
        CollectionError::Unreadable(p) => p@ + " is not found"@,
        CollectionError::CompressionFailed(p) => "cannot compress "@ + p@,
        CollectionError::WalkFailed(m) => m@,
    }
}

impl CollectionError {
    /// The text a stopped run reports.
    pub fn message(&self) -> (r: String)
        ensures
            r@ == error_message(*self),
    {
        match self {
            CollectionError::BadBudget(ParseError::UnsupportedUnit) => String::from_str("unit not supported"),
            CollectionError::BadBudget(ParseError::InvalidNumber) => String::from_str("invalid budget number"),
            CollectionError::LiteralFileMissing(p) => {
                let mut s = String::from_str("single file for ");
                s.append(p.as_str());
                s.append(" does not exist");
                s
            },
            CollectionError::NotAPath(p) => {
                let mut s = p.clone();
                s.append(" cannot be converted to path");
                s
            },
            CollectionError::Unreadable(p) => {
                let mut s = p.clone();
                s.append(" is not found");
                s
            },
            CollectionError::CompressionFailed(p) => {
                let mut s = String::from_str("cannot compress ");
                s.append(p.as_str());
                s
            },
            CollectionError::WalkFailed(m) => m.clone(),
        }
    }
}

/// What the file system shows of one matched or named file.
#[derive(Clone, Debug)]
pub struct FileProbe {
    /// The base name the file is recorded under.
    pub name: String,
    /// The path the file was found at.
    pub path: String,
    /// Whether the entry is a regular file (directories are skipped).
    pub is_file: bool,
    /// The byte length from the file's metadata.
    pub len: u64,
    /// The file's contents, where they were read; `None` where reading failed.
    pub content: Option<Vec<u8>>,
}

/// What looking up one entry found.
#[derive(Clone, Debug)]
pub enum Found {
    /// A literal path that exists.
    Single(FileProbe),
    /// A literal path whose metadata could not be read.
    Missing,
    /// A literal path with no final component.
    Unnamed,
    /// Everything a glob pattern matched, directories included.
    Matches(Vec<FileProbe>),
    /// Walking for a pattern failed, with this message.
    WalkFailed(String),
}

/// One entry of a run after its budget has been parsed.
#[derive(Clone, Debug)]
pub struct Lookup {
    /// The path specification of the entry.
    pub path: String,
    /// Whether the path is to be expanded as a glob pattern.
    pub glob: bool,
    /// The budget's unit and threshold.
    pub unit: FileUnit,
}

/// The entries of a run and the strategy that sizes their files.
pub struct Files {
    bundlesize_config: Vec<BundleConfig>,
    compression: FileCompression,
}

/// The lookups for the first `n` entries, or the first budget error among them.
pub open spec fn planned(conf: Seq<BundleConfig>, n: int) -> Result<Seq<Lookup>, CollectionError>
    decreases n,
{
    if n <= 0 {
        Ok(Seq::empty())
    } else {
        match planned(conf, n - 1) {
            Err(e) => Err(e),
            Ok(ls) => match budget_of(conf[n - 1].max_size@) {
                Err(e) => Err(CollectionError::BadBudget(e)),
                Ok(u) => Ok(ls.push(Lookup { path: conf[n - 1].path, glob: glob_syntax(conf[n - 1].path@), unit: u })),
            },
        }
    }
}

/// The error text recorded for a pattern that matched nothing.
pub open spec fn no_match_message(path: Seq<char>) -> Seq<char> {
    "pattern "@ + path + " is not getting any match"@
}

/// The record of a pattern that matched nothing.
pub open spec fn no_match_record(l: Lookup) -> FileView {
    FileView {
        budget_size: l.unit.threshold(),
        actual_file_size: l.unit.converted(0),
        compression: Seq::empty(),
        size_unit: Seq::empty(),
        error: Some(no_match_message(l.path@)),
    }
}

/// The record of a file of `bytes` billable bytes.
pub open spec fn sized_record(l: Lookup, c: FileCompression, bytes: u64) -> FileView {
    FileView {
        budget_size: l.unit.threshold(),
        actual_file_size: l.unit.converted(bytes),
        compression: c.name(),
        size_unit: l.unit.symbol(),
        error: None,
    }
}

/// The billable bytes of a probed file under strategy `c`.
pub open spec fn billable(p: FileProbe, c: FileCompression) -> Result<u64, CollectionError> {
    match c {
        FileCompression::UnCompressed => Ok(p.len),
        FileCompression::Brotli => match p.content {
            None => Err(CollectionError::Unreadable(p.path)),
            Some(bytes) => match brotli_len(bytes@) {
                None => Err(CollectionError::CompressionFailed(p.path)),
                Some(n) => Ok(n),
            },
        },
    }
}

/// The records of the first `n` matches of a pattern, directories skipped,
/// or the first error in sizing them.
pub open spec fn matches_outcome(l: Lookup, ps: Seq<FileProbe>, c: FileCompression, n: int) -> Result<
    Seq<(Seq<char>, FileView)>,
    CollectionError,
>
    decreases n,
{
    if n <= 0 {
        Ok(Seq::empty())
    } else {
        match matches_outcome(l, ps, c, n - 1) {
            Err(e) => Err(e),
            Ok(recs) => {
                let p = ps[n - 1];
                if !p.is_file {
                    Ok(recs)
                } else {
                    match billable(p, c) {
                        Err(e) => Err(e),
                        Ok(b) => Ok(recs.push((p.name@, sized_record(l, c, b)))),
                    }
                }
            },
        }
    }
}

/// The records a pattern contributes: a single error record where it matched
/// nothing, else one record per matched file.
pub open spec fn glob_outcome(l: Lookup, ps: Seq<FileProbe>, c: FileCompression) -> Result<
    Seq<(Seq<char>, FileView)>,
    CollectionError,
> {
    if ps.len() == 0 {
        Ok(seq![(l.path@, no_match_record(l))])
    } else {
        matches_outcome(l, ps, c, ps.len() as int)
    }
}

/// The records a literal path contributes.
pub open spec fn single_outcome(l: Lookup, p: FileProbe, c: FileCompression) -> Result<
    Seq<(Seq<char>, FileView)>,
    CollectionError,
> {
    match billable(p, c) {
        Err(e) => Err(e),
        Ok(b) => Ok(seq![(p.name@, sized_record(l, c, b))]),
    }
}

/// The records one entry contributes, or the error that stops the run.
pub open spec fn entry_outcome(l: Lookup, f: Found, c: FileCompression) -> Result<
    Seq<(Seq<char>, FileView)>,
    CollectionError,
> {
    match f {
        Found::Matches(ps) => glob_outcome(l, ps@, c),
        Found::WalkFailed(m) => Err(CollectionError::WalkFailed(m)),
        Found::Unnamed => Err(CollectionError::NotAPath(l.path)),
        Found::Missing => Err(CollectionError::LiteralFileMissing(l.path)),
        Found::Single(p) => single_outcome(l, p, c),
    }
}

/// The file map of the first `n` entries, or the first error that stops the run.
pub open spec fn collected(ls: Seq<Lookup>, fs: Seq<Found>, c: FileCompression, n: int) -> Result<
    Seq<(Seq<char>, FileView)>,
    CollectionError,
>
    decreases n,
{
    if n <= 0 {
        Ok(Seq::empty())
    } else {
        match collected(ls, fs, c, n - 1) {
            Err(e) => Err(e),
            Ok(m) => match entry_outcome(ls[n - 1], fs[n - 1], c) {
                Err(e) => Err(e),
                Ok(recs) => Ok(upsert_all(m, recs)),
            },
        }
    }
}


impl Lookup {
    /// A lookup is well formed when its threshold has a positive denominator.
    pub open spec fn wf(self) -> bool {
        self.unit.threshold().wf()
    }
}

/// Every quantity of a file map has a positive denominator.
pub open spec fn records_wf(m: Seq<(Seq<char>, FileView)>) -> bool {
    forall|i: int| 0 <= i < m.len() ==> (#[trigger] m[i]).1.actual_file_size.wf() && m[i].1.budget_size.wf()
}

proof fn lemma_key_index_range<V>(m: Seq<(Seq<char>, V)>, k: Seq<char>)
    ensures
        -1 <= key_index(m, k) < m.len(),
        key_index(m, k) >= 0 ==> m[key_index(m, k)].0 == k,
    decreases m.len(),
{
    if m.len() > 0 && m.last().0 != k {
        lemma_key_index_range(m.drop_last(), k);
    }
}

proof fn lemma_upsert_all_wf(m: Seq<(Seq<char>, FileView)>, recs: Seq<(Seq<char>, FileView)>)
    requires
        records_wf(m),
        records_wf(recs),
    ensures
        records_wf(upsert_all(m, recs)),
    decreases recs.len(),
{
    if recs.len() > 0 {
        let prev = recs.drop_last();
        assert(records_wf(prev)) by {
            assert forall|i: int| 0 <= i < prev.len() implies (#[trigger] prev[i]).1.actual_file_size.wf() && prev[i].1.budget_size.wf() by {
                assert(prev[i] == recs[i]);
            }
        }
        lemma_upsert_all_wf(m, prev);
        let inner = upsert_all(m, prev);
        let last = recs.last();
        assert(recs[recs.len() - 1] == last);
        let out = upsert(inner, last.0, last.1);
        lemma_key_index_range(inner, last.0);
        assert forall|i: int| 0 <= i < out.len() implies (#[trigger] out[i]).1.actual_file_size.wf() && out[i].1.budget_size.wf() by {
            if i < inner.len() && i != key_index(inner, last.0) {
                assert(out[i] == inner[i]);
            }
        }
    }
}

proof fn lemma_matches_wf(l: Lookup, ps: Seq<FileProbe>, c: FileCompression, n: int)
    requires
        l.wf(),
    ensures
        matches_outcome(l, ps, c, n) matches Ok(recs) ==> records_wf(recs),
    decreases n,
{
    if n > 0 {
        lemma_matches_wf(l, ps, c, n - 1);
    }
}

proof fn lemma_entry_wf(l: Lookup, f: Found, c: FileCompression)
    requires
        l.wf(),
    ensures
        entry_outcome(l, f, c) matches Ok(recs) ==> records_wf(recs),
{
    match f {
        Found::Matches(ps) => lemma_matches_wf(l, ps@, c, ps@.len() as int),
        _ => {},
    }
}

/// Every record of a collected file map has well-formed sizes.
pub proof fn lemma_collected_wf(ls: Seq<Lookup>, fs: Seq<Found>, c: FileCompression, n: int)
    requires
        n <= ls.len(),
        n <= fs.len(),
        forall|i: int| 0 <= i < ls.len() ==> (#[trigger] ls[i]).wf(),
    ensures
        collected(ls, fs, c, n) matches Ok(m) ==> records_wf(m),
    decreases n,
{
    if n > 0 {
        lemma_collected_wf(ls, fs, c, n - 1);
        lemma_entry_wf(ls[n - 1], fs[n - 1], c);
        match collected(ls, fs, c, n - 1) {
            Ok(m) => match entry_outcome(ls[n - 1], fs[n - 1], c) {
                Ok(recs) => lemma_upsert_all_wf(m, recs),
                Err(_) => {},
            },
            Err(_) => {},
        }
    }
}

proof fn lemma_budget_wf(s: Seq<char>)
    ensures
        budget_of(s) matches Ok(u) ==> u.threshold().wf(),
{
    if budget_of(s) is Ok {
        let t = s.subrange(0, crate::units::last_index_of(s, ' '));
        crate::units::lemma_decimal_wf(t);
    }
}

proof fn lemma_planned_wf(conf: Seq<BundleConfig>, n: int)
    ensures
        planned(conf, n) matches Ok(ls) ==> (forall|i: int| 0 <= i < ls.len() ==> (#[trigger] ls[i]).wf()),
        planned(conf, n) matches Ok(ls) ==> ls.len() == if n < 0 { 0 } else { n },
    decreases n,
{
    if n > 0 {
        lemma_planned_wf(conf, n - 1);
        lemma_budget_wf(conf[n - 1].max_size@);
        if let Ok(ls) = planned(conf, n) {
            let prev = planned(conf, n - 1)->Ok_0;
            assert forall|i: int| 0 <= i < ls.len() implies (#[trigger] ls[i]).wf() by {
                if i < ls.len() - 1 {
                    assert(ls[i] == prev[i]);
                }
            }
        }
    }
}


/// No name occurs twice in a file map.
pub open spec fn keys_unique<V>(m: Seq<(Seq<char>, V)>) -> bool {
    forall|i: int, j: int| 0 <= i < j < m.len() ==> (#[trigger] m[i]).0 != (#[trigger] m[j]).0
}

proof fn lemma_key_index_absent<V>(m: Seq<(Seq<char>, V)>, k: Seq<char>)
    requires
        key_index(m, k) == -1,
    ensures
        forall|i: int| 0 <= i < m.len() ==> (#[trigger] m[i]).0 != k,
    decreases m.len(),
{
    if m.len() > 0 {
        lemma_key_index_absent(m.drop_last(), k);
        assert forall|i: int| 0 <= i < m.len() implies (#[trigger] m[i]).0 != k by {
            if i < m.len() - 1 {
                assert(m[i] == m.drop_last()[i]);
            }
        }
    }
}

proof fn lemma_upsert_all_unique<V>(m: Seq<(Seq<char>, V)>, recs: Seq<(Seq<char>, V)>)
    requires
        keys_unique(m),
    ensures
        keys_unique(upsert_all(m, recs)),
    decreases recs.len(),
{
    if recs.len() > 0 {
        lemma_upsert_all_unique(m, recs.drop_last());
        let inner = upsert_all(m, recs.drop_last());
        let k = recs.last().0;
        lemma_key_index_range(inner, k);
        if key_index(inner, k) == -1 {
            lemma_key_index_absent(inner, k);
        }
        let out = upsert(inner, k, recs.last().1);
        assert forall|i: int, j: int| 0 <= i < j < out.len() implies (#[trigger] out[i]).0 != (#[trigger] out[j]).0 by {
            if j == inner.len() {
                assert(out[i] == inner[i]);
            } else {
                assert(out[i].0 == inner[i].0);
                assert(out[j].0 == inner[j].0);
            }
        }
    }
}

/// A collected file map holds each file name at most once: a later record of
/// a name replaces the earlier one.
pub proof fn lemma_collected_unique(ls: Seq<Lookup>, fs: Seq<Found>, c: FileCompression, n: int)
    ensures
        collected(ls, fs, c, n) matches Ok(m) ==> keys_unique(m),
    decreases n,
{
    if n > 0 {
        lemma_collected_unique(ls, fs, c, n - 1);
        match collected(ls, fs, c, n - 1) {
            Ok(m) => match entry_outcome(ls[n - 1], fs[n - 1], c) {
                Ok(recs) => lemma_upsert_all_unique(m, recs),
                Err(_) => {},
            },
            Err(_) => {},
        }
    }
}

impl Files {
    pub closed spec fn entries(&self) -> Seq<BundleConfig> {
        self.bundlesize_config@
    }

    pub closed spec fn strategy(&self) -> FileCompression {
        self.compression
    }

    /// The entries of a run and its sizing strategy.
    pub fn new(conf: Vec<BundleConfig>, compression: FileCompression) -> (r: Files)
        ensures
            r.entries() == conf@,
            r.strategy() == compression,
    {
        Files { bundlesize_config: conf, compression }
    }

    /// Parses each entry's budget and decides whether its path is a pattern.
    /// The first budget that does not parse stops the run, before any file
    /// is looked at.
    pub fn plan(&self) -> (r: Result<Vec<Lookup>, CollectionError>)
        ensures
            match planned(self.entries(), self.entries().len() as int) {
                Ok(ls) => r is Ok && r->Ok_0@ == ls,
                Err(e) => r is Err && r->Err_0 == e,
            },
            r matches Ok(ls) ==> ls@.len() == self.entries().len() && forall|i: int|
                0 <= i < ls@.len() ==> (#[trigger] ls@[i]).wf(),
    {
        proof {
            lemma_planned_wf(self.entries(), self.entries().len() as int);
        }
        let n = self.bundlesize_config.len();
        let mut out: Vec<Lookup> = Vec::new();
        let mut i: usize = 0;
        while i < n
            invariant
                n == self.entries().len(),
                i <= n,
                planned(self.entries(), i as int) == Ok::<Seq<Lookup>, CollectionError>(out@),
            decreases n - i,
        {
            let c = &self.bundlesize_config[i];
            match get_file_unit(c.max_size.as_str()) {
                Err(e) => {
                    proof {
                        lemma_planned_stays_err(self.entries(), i as int + 1, n as int);
                    }
                    return Err(CollectionError::BadBudget(e));
                },
                Ok(u) => {
                    let glob = is_glob::is_glob(&c.path);
                    out.push(Lookup { path: c.path.clone(), glob, unit: u });
                },
            }
            i = i + 1;
        }
        Ok(out)
    }

    fn collect_glob(&self, l: &Lookup, ps: &Vec<FileProbe>, out: &mut Vec<(String, File)>) -> (r: Result<(), CollectionError>)
        ensures
            match glob_outcome(*l, ps@, self.strategy()) {
                Ok(recs) => r is Ok && entries_view(final(out)@) == upsert_all(entries_view(old(out)@), recs),
                Err(e) => r == Err::<(), CollectionError>(e),
            },
    {
        let ghost start = entries_view(out@);
        let n = ps.len();
        if n == 0 {
            let f = no_match_file(l);
            insert_entry(out, l.path.clone(), f);
            proof {
                let recs = seq![(l.path@, no_match_record(*l))];
                assert(recs.drop_last() =~= Seq::<(Seq<char>, FileView)>::empty());
                assert(upsert_all(start, recs.drop_last()) == start);
                assert(upsert_all(start, recs) == upsert(start, l.path@, no_match_record(*l)));
            }
            return Ok(());
        }
        let ghost mut recs: Seq<(Seq<char>, FileView)> = Seq::empty();
        let mut i: usize = 0;
        while i < n
            invariant
                n == ps@.len(),
                i <= n,
                matches_outcome(*l, ps@, self.strategy(), i as int) == Ok::<Seq<(Seq<char>, FileView)>, CollectionError>(recs),
                entries_view(out@) == upsert_all(start, recs),
            decreases n - i,
        {
            let p = &ps[i];
            if p.is_file {
                match billable_bytes(self.compression, p) {
                    Err(e) => {
                        proof {
                            lemma_matches_stays_err(*l, ps@, self.strategy(), i as int + 1, n as int);
                        }
                        return Err(e);
                    },
                    Ok(b) => {
                        let f = sized_file(l, self.compression, b);
                        insert_entry(out, p.name.clone(), f);
                        proof {
                            let prev = recs;
                            recs = recs.push((p.name@, sized_record(*l, self.strategy(), b)));
                            assert(recs.drop_last() =~= prev);
                        }
                    },
                }
            }
            i = i + 1;
        }
        Ok(())
    }

    fn collect_single_file(&self, l: &Lookup, p: &FileProbe, out: &mut Vec<(String, File)>) -> (r: Result<(), CollectionError>)
        ensures
            match single_outcome(*l, *p, self.strategy()) {
                Ok(recs) => r is Ok && entries_view(final(out)@) == upsert_all(entries_view(old(out)@), recs),
                Err(e) => r == Err::<(), CollectionError>(e),
            },
    {
        let ghost start = entries_view(out@);
        match billable_bytes(self.compression, p) {
            Err(e) => Err(e),
            Ok(b) => {
                let f = sized_file(l, self.compression, b);
                insert_entry(out, p.name.clone(), f);
                proof {
                    let recs = seq![(p.name@, sized_record(*l, self.strategy(), b))];
                    assert(recs.drop_last() =~= Seq::<(Seq<char>, FileView)>::empty());
                    assert(upsert_all(start, recs.drop_last()) == start);
                    assert(upsert_all(start, recs) == upsert(start, p.name@, sized_record(*l, self.strategy(), b)));
                }
                Ok(())
            },
        }
    }

    /// Resolves every entry from what its lookup found, in order, into one map
    /// keyed by file name; a later record of a name replaces an earlier one.
    /// A pattern that matched nothing leaves an error record under the
    /// pattern itself; every other failure stops the run with its error.
    pub fn collect(&self, lookups: &Vec<Lookup>, found: &Vec<Found>) -> (r: Result<Vec<(String, File)>, CollectionError>)
        requires
            lookups@.len() == found@.len(),
        ensures
            match collected(lookups@, found@, self.strategy(), lookups@.len() as int) {
                Ok(m) => r is Ok && entries_view(r->Ok_0@) == m,
                Err(e) => r is Err && r->Err_0 == e,
            },
            r matches Ok(m) ==> keys_unique(entries_view(m@)),
    {
        proof {
            lemma_collected_unique(lookups@, found@, self.strategy(), lookups@.len() as int);
        }
        let n = lookups.len();
        let mut out: Vec<(String, File)> = Vec::new();
        assert(entries_view(out@) =~= Seq::<(Seq<char>, FileView)>::empty());
        let mut i: usize = 0;
        while i < n
            invariant
                n == lookups@.len() == found@.len(),
                i <= n,
                collected(lookups@, found@, self.strategy(), i as int) == Ok::<Seq<(Seq<char>, FileView)>, CollectionError>(entries_view(out@)),
            decreases n - i,
        {
            let l = &lookups[i];
            let step = match &found[i] {
                Found::Matches(ps) => self.collect_glob(l, ps, &mut out),
                Found::Single(p) => self.collect_single_file(l, p, &mut out),
                Found::WalkFailed(m) => Err(CollectionError::WalkFailed(m.clone())),
                Found::Unnamed => Err(CollectionError::NotAPath(l.path.clone())),
                Found::Missing => Err(CollectionError::LiteralFileMissing(l.path.clone())),
            };
            match step {
                Err(e) => {
                    proof {
                        lemma_collected_stays_err(lookups@, found@, self.strategy(), i as int + 1, n as int);
                    }
                    return Err(e);
                },
                Ok(()) => {},
            }
            i = i + 1;
        }
        Ok(out)
    }
}

/// The billable bytes of a probed file under strategy `compression`: its
/// byte length, or the length of its Brotli stream.
pub fn billable_bytes(compression: FileCompression, p: &FileProbe) -> (r: Result<u64, CollectionError>)
    ensures
        r == billable(*p, compression),
{
    match compression {
        FileCompression::UnCompressed => Ok(p.len),
        FileCompression::Brotli => match &p.content {
            None => Err(CollectionError::Unreadable(p.path.clone())),
            Some(bytes) => match brotli_compressed_len(bytes) {
                None => Err(CollectionError::CompressionFailed(p.path.clone())),
                Some(n) => Ok(n),
            },
        },
    }
}

fn no_match_file(l: &Lookup) -> (r: File)
    ensures
        r@ == no_match_record(*l),
{
    let mut message = String::from_str("pattern ");
    message.append(l.path.as_str());
    message.append(" is not getting any match");
    File {
        budget_size: l.unit.budget_threshold(),
        actual_file_size: l.unit.get_converted_unit(0),
        compression: String::new(),
        size_unit: String::new(),
        error: Some(message),
    }
}

fn sized_file(l: &Lookup, c: FileCompression, bytes: u64) -> (r: File)
    ensures
        r@ == sized_record(*l, c, bytes),
{
    File {
        budget_size: l.unit.budget_threshold(),
        actual_file_size: l.unit.get_converted_unit(bytes),
        compression: c.to_string(),
        size_unit: l.unit.to_string(),
        error: None,
    }
}

proof fn lemma_planned_stays_err(conf: Seq<BundleConfig>, k: int, n: int)
    requires
        0 < k <= n,
        planned(conf, k) is Err,
    ensures
        planned(conf, n) == planned(conf, k),
    decreases n - k,
{
    if n > k {
        lemma_planned_stays_err(conf, k, n - 1);
    }
}

proof fn lemma_matches_stays_err(l: Lookup, ps: Seq<FileProbe>, c: FileCompression, k: int, n: int)
    requires
        0 < k <= n,
        matches_outcome(l, ps, c, k) is Err,
    ensures
        matches_outcome(l, ps, c, n) == matches_outcome(l, ps, c, k),
    decreases n - k,
{
    if n > k {
        lemma_matches_stays_err(l, ps, c, k, n - 1);
    }
}

proof fn lemma_collected_stays_err(ls: Seq<Lookup>, fs: Seq<Found>, c: FileCompression, k: int, n: int)
    requires
        0 < k <= n,
        collected(ls, fs, c, k) is Err,
    ensures
        collected(ls, fs, c, n) == collected(ls, fs, c, k),
    decreases n - k,
{
    if n > k {
        lemma_collected_stays_err(ls, fs, c, k, n - 1);
    }
}

} // verus!
