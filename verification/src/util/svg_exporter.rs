//! Names and destinations of the SVG files exported while optimizing.
//!
//! `SvgExporter` decides, for each report, which files are written, under
//! which path and with which title, and counts the intermediate exports. The
//! drawing and the writing are done by the caller.
use vstd::prelude::*;
use vstd::string::StringExecFns;
use crate::util::listener::{spec_suffix, ReportType};

verus! {

/// Directory of all outputs.
pub const OUTPUT_DIR: &'static str = "output";

/// Directory of the live SVG.
pub const LIVE_DIR: &'static str = "data/live";

/// The character of decimal digit `d`.
pub open spec fn digit_char(d: nat) -> char {
    if d == 0 { '0' }
    else if d == 1 { '1' }
    else if d == 2 { '2' }
    else if d == 3 { '3' }
    else if d == 4 { '4' }
    else if d == 5 { '5' }
    else if d == 6 { '6' }
    else if d == 7 { '7' }
    else if d == 8 { '8' }
    else { '9' }
}

/// The decimal representation of `n`, without leading zeros.
pub open spec fn decimal(n: nat) -> Seq<char>
    decreases n,
{
    if n < 10 {
        seq![digit_char(n)]
    } else {
        decimal(n / 10) + seq![digit_char(n % 10)]
    }
}

/// The number a string of decimal digits denotes.
pub open spec fn digits_value(s: Seq<char>) -> int
    decreases s.len(),
{
    if s.len() == 0 {
        0
    } else {
        digits_value(s.drop_last()) * 10 + (s.last() as int - '0' as int)
    }
}

/// `decimal(n)` is a non-empty string of decimal digits, without a leading
/// zero unless it is `0`, that denotes `n`.
pub proof fn lemma_decimal_denotes(n: nat)
    ensures
        decimal(n).len() >= 1,
        forall|i: int| 0 <= i < decimal(n).len() ==> '0' <= #[trigger] decimal(n)[i] <= '9',
        digits_value(decimal(n)) == n,
        n > 0 ==> decimal(n)[0] != '0',
        n == 0 ==> decimal(n) == seq!['0'],
    decreases n,
{
    let d = (n % 10) as nat;
    assert(digit_char(d) as int - '0' as int == d);
    if n < 10 {
        assert(decimal(n) == seq![digit_char(n)]);
        assert(decimal(n).drop_last() =~= Seq::<char>::empty());
        assert(n % 10 == n);
        assert(digits_value(decimal(n)) == digits_value(Seq::<char>::empty()) * 10 + d);
    } else {
        lemma_decimal_denotes(n / 10);
        let s = decimal(n);
        assert(s.drop_last() =~= decimal(n / 10));
        assert(s.last() == digit_char(d));
        assert((n / 10) * 10 + d == n);
        assert(digits_value(s) == digits_value(decimal(n / 10)) * 10 + d);
        assert(s[0] == decimal(n / 10)[0]);
    }
}

fn digit_str(d: usize) -> (s: &'static str)
    requires
        d < 10,
    ensures
        s@ == seq![digit_char(d as nat)],
{
    if d == 0 {
        proof { reveal_strlit("0"); }
        "0"
    } else if d == 1 {
        proof { reveal_strlit("1"); }
        "1"
    } else if d == 2 {
        proof { reveal_strlit("2"); }
        "2"
    } else if d == 3 {
        proof { reveal_strlit("3"); }
        "3"
    } else if d == 4 {
        proof { reveal_strlit("4"); }
        "4"
    } else if d == 5 {
        proof { reveal_strlit("5"); }
        "5"
    } else if d == 6 {
        proof { reveal_strlit("6"); }
        "6"
    } else if d == 7 {
        proof { reveal_strlit("7"); }
        "7"
    } else if d == 8 {
        proof { reveal_strlit("8"); }
        "8"
    } else {
        proof { reveal_strlit("9"); }
        "9"
    }
}

/// Appends the decimal representation of `n` to `s`.
pub fn append_decimal(s: &mut String, n: usize)
    ensures
        final(s)@ == old(s)@ + decimal(n as nat),
    decreases n,
{
    if n >= 10 {
        append_decimal(s, n / 10);
    }
    s.append(digit_str(n % 10));
    assert(n < 10 ==> n % 10 == n);
}

/// The decimal representation of `n`.
pub fn decimal_string(n: usize) -> (s: String)
    ensures
        s@ == decimal(n as nat),
{
    let mut s = String::new();
    append_decimal(&mut s, n);
    assert(s@ =~= decimal(n as nat));
    s
}

/// `base`, then `_bin_` and the index of the bin: the name of one bin's file.
pub open spec fn spec_bin_file_name(base: Seq<char>, bin_idx: nat) -> Seq<char> {
    base + "_bin_"@ + decimal(bin_idx)
}

/// Name of the file of bin `bin_idx` of a solution exported under `base`.
pub fn bin_file_name(base: &str, bin_idx: usize) -> (s: String)
    ensures
        s@ == spec_bin_file_name(base@, bin_idx as nat),
        s@ == base@ + "_bin_"@ + decimal(bin_idx as nat),
{
    let mut s = String::from_str(base);
    s.append("_bin_");
    append_decimal(&mut s, bin_idx);
    s
}

/// One SVG file to write: where, and the title drawn in it.
pub struct SvgFile {
    pub path: String,
    pub title: String,
}

/// The files a strip-packing report writes.
pub struct SppSvgPlan {
    /// The live file, rewritten on every report.
    pub live: Option<SvgFile>,
    /// The numbered intermediate file.
    pub intermediate: Option<SvgFile>,
    /// The final file; its title is the file stem of this path.
    pub final_path: Option<String>,
}

/// The files a bin-packing report writes.
pub struct BppSvgPlan {
    /// The live file, showing the first bin.
    pub live: Option<SvgFile>,
    /// One intermediate file per bin, in bin order.
    pub intermediate: Vec<SvgFile>,
    /// Whether the final files are written: one per bin, each named by
    /// `bin_file_name` after the stem of the final path, beside it.
    pub write_final: bool,
}

/// Name of a strip-packing report's files: the export counter, the strip
/// width as the caller formatted it, and the report tag.
pub open spec fn spp_file_name(counter: nat, width_text: Seq<char>, report_type: ReportType) -> Seq<
    char,
> {
    decimal(counter) + "_"@ + width_text + "_"@ + spec_suffix(report_type)
}

/// Base name of a bin-packing report's files: the export counter, the
/// number of bins followed by `b`, and the report tag.
pub open spec fn bpp_base_name(counter: nat, n_bins: nat, report_type: ReportType) -> Seq<char> {
    decimal(counter) + "_"@ + decimal(n_bins) + "b_"@ + spec_suffix(report_type)
}

/// Path of an intermediate file named `name` in `dir`.
pub open spec fn intermediate_path(dir: Seq<char>, name: Seq<char>) -> Seq<char> {
    dir + "/"@ + name + ".svg"@
}

/// Whether a report writes intermediate files.
pub open spec fn writes_intermediate(e: SvgExporter, report_type: ReportType) -> bool {
    e.intermediate_dir_spec() is Some && report_type != ReportType::ExplImproving
}

/// Which reports leave an intermediate file: with an intermediate directory
/// set, every report but an improving one (feasible and infeasible
/// exploration reports, comparison reports and the final report); without
/// one, none.
pub proof fn lemma_exported_reports(e: SvgExporter, r: ReportType)
    ensures
        e.intermediate_dir_spec() is Some ==> (writes_intermediate(e, r) <==> r
            != ReportType::ExplImproving),
        e.intermediate_dir_spec() is None ==> !writes_intermediate(e, r),
        e.intermediate_dir_spec() is Some ==> {
            &&& writes_intermediate(e, ReportType::ExplFeas)
            &&& writes_intermediate(e, ReportType::ExplInfeas)
            &&& writes_intermediate(e, ReportType::CmprFeas)
            &&& writes_intermediate(e, ReportType::Final)
            &&& !writes_intermediate(e, ReportType::ExplImproving)
        },
{
}

/// A name that starts with the decimal representation of a number followed
/// by `_` tells that number.
proof fn lemma_number_before_underscore(s: Seq<char>, c1: nat, c2: nat)
    requires
        s.len() > decimal(c1).len(),
        s.len() > decimal(c2).len(),
        s.subrange(0, decimal(c1).len() as int) == decimal(c1),
        s.subrange(0, decimal(c2).len() as int) == decimal(c2),
        s[decimal(c1).len() as int] == '_',
        s[decimal(c2).len() as int] == '_',
    ensures
        c1 == c2,
{
    lemma_decimal_denotes(c1);
    lemma_decimal_denotes(c2);
    let l1 = decimal(c1).len() as int;
    let l2 = decimal(c2).len() as int;
    if l1 < l2 {
        assert(s.subrange(0, l2)[l1] == decimal(c2)[l1]);
        assert(false);
    }
    if l2 < l1 {
        assert(s.subrange(0, l1)[l2] == decimal(c1)[l2]);
        assert(false);
    }
    assert(decimal(c1) =~= decimal(c2));
}

/// Exports with different numbers never share a name, whatever the widths,
/// bin counts and report types: each intermediate export gets a file of its
/// own. Within one bin-packing export, the files of different bins are
/// distinct too.
pub proof fn lemma_export_names_distinct(
    c1: nat,
    c2: nat,
    w1: Seq<char>,
    w2: Seq<char>,
    n1: nat,
    n2: nat,
    r1: ReportType,
    r2: ReportType,
    base: Seq<char>,
    i: nat,
    j: nat,
)
    ensures
        c1 != c2 ==> spp_file_name(c1, w1, r1) != spp_file_name(c2, w2, r2),
        c1 != c2 ==> bpp_base_name(c1, n1, r1) != bpp_base_name(c2, n2, r2),
        i != j ==> spec_bin_file_name(base, i) != spec_bin_file_name(base, j),
{
    reveal_strlit("_");
    let l1 = decimal(c1).len() as int;
    let l2 = decimal(c2).len() as int;
    let s1 = spp_file_name(c1, w1, r1);
    let s2 = spp_file_name(c2, w2, r2);
    if s1 == s2 {
        assert(s1.subrange(0, l1) =~= decimal(c1));
        assert(s2.subrange(0, l2) =~= decimal(c2));
        assert(s1[l1] == '_');
        assert(s2[l2] == '_');
        lemma_number_before_underscore(s1, c1, c2);
    }
    let b1 = bpp_base_name(c1, n1, r1);
    let b2 = bpp_base_name(c2, n2, r2);
    if b1 == b2 {
        assert(b1.subrange(0, l1) =~= decimal(c1));
        assert(b2.subrange(0, l2) =~= decimal(c2));
        assert(b1[l1] == '_');
        assert(b2[l2] == '_');
        lemma_number_before_underscore(b1, c1, c2);
    }
    if spec_bin_file_name(base, i) == spec_bin_file_name(base, j) {
        lemma_decimal_denotes(i);
        lemma_decimal_denotes(j);
        let p = base + "_bin_"@;
        let fi = spec_bin_file_name(base, i);
        assert(fi.subrange(p.len() as int, fi.len() as int) =~= decimal(i));
        assert(fi.subrange(p.len() as int, fi.len() as int) =~= decimal(j));
    }
}

pub struct SvgExporter {
    svg_counter: usize,
    /// Path to write the final SVG file to, if provided
    pub final_path: Option<String>,
    /// Directory to write all intermedia solution SVG files to, if provided
    pub intermediate_dir: Option<String>,
    /// Path to write the live SVG file to, if provided
    pub live_path: Option<String>,
}

fn clone_string(s: &String) -> (r: String)
    ensures
        r@ == s@,
{
    s.clone()
}

fn join_file(dir: &String, name: &String) -> (r: String)
    ensures
        r@ == intermediate_path(dir@, name@),
{
    let mut r = String::from_str(dir.as_str());
    r.append("/");
    r.append(name.as_str());
    r.append(".svg");
    r
}

impl SvgExporter {
    /// Number of intermediate exports so far.
    pub closed spec fn counter(&self) -> nat {
        self.svg_counter as nat
    }

    pub closed spec fn final_path_spec(&self) -> Option<String> {
        self.final_path
    }

    pub closed spec fn intermediate_dir_spec(&self) -> Option<String> {
        self.intermediate_dir
    }

    pub closed spec fn live_path_spec(&self) -> Option<String> {
        self.live_path
    }

    /// Number of intermediate exports so far.
    pub fn exports(&self) -> (n: usize)
        ensures
            n == self.counter(),
    {
        self.svg_counter
    }

    /// An exporter with the given destinations and no export made yet. (The
    /// caller clears old SVG files from the intermediate directory.)
    pub fn new(final_path: Option<String>, intermediate_dir: Option<String>, live_path: Option<
        String,
    >) -> (e: Self)
        ensures
            e.counter() == 0,
            e.final_path_spec() == final_path,
            e.intermediate_dir_spec() == intermediate_dir,
            e.live_path_spec() == live_path,
    {
        SvgExporter { svg_counter: 0, final_path, intermediate_dir, live_path }
    }

    /// The files a strip-packing report writes, given its type and the strip
    /// width as formatted for the file name. The live file (if any) and the
    /// intermediate file (if a directory is set and the report is not an
    /// improving one, which then counts one export) carry the file name; the
    /// final file is written for the final report only.
    pub fn plan_spp_report(&mut self, report_type: ReportType, width_text: &str) -> (p: SppSvgPlan)
        requires
            writes_intermediate(*old(self), report_type) ==> old(self).counter() < usize::MAX,
        ensures
            final(self).final_path_spec() == old(self).final_path_spec(),
            final(self).intermediate_dir_spec() == old(self).intermediate_dir_spec(),
            final(self).live_path_spec() == old(self).live_path_spec(),
            old(self).live_path_spec() is None ==> p.live is None,
            old(self).live_path_spec() matches Some(lp) ==> (p.live matches Some(f) && f.path@ == lp@
                && f.title@ == spp_file_name(old(self).counter(), width_text@, report_type)),
            writes_intermediate(*old(self), report_type) ==> {
                &&& p.intermediate matches Some(f)
                &&& f.path@ == intermediate_path(
                    old(self).intermediate_dir_spec().unwrap()@,
                    spp_file_name(old(self).counter(), width_text@, report_type),
                )
                &&& f.title@ == spp_file_name(old(self).counter(), width_text@, report_type)
                &&& final(self).counter() == old(self).counter() + 1
            },
            !writes_intermediate(*old(self), report_type) ==> p.intermediate is None
                && final(self).counter() == old(self).counter(),
            (old(self).final_path_spec() is Some && report_type == ReportType::Final) ==> (p.final_path
                matches Some(fp) && fp@ == old(self).final_path_spec().unwrap()@),
            !(old(self).final_path_spec() is Some && report_type == ReportType::Final) ==> p.final_path is None,
            old(self).intermediate_dir_spec() matches Some(dir) ==> (report_type
                != ReportType::ExplImproving ==> (p.intermediate matches Some(f) && f.title@ == decimal(
                old(self).counter(),
            ) + "_"@ + width_text@ + "_"@ + spec_suffix(report_type) && f.path@ == dir@ + "/"@
                + f.title@ + ".svg"@ && final(self).counter() == old(self).counter() + 1)),
            (report_type == ReportType::ExplImproving || old(self).intermediate_dir_spec() is None)
                ==> p.intermediate is None && final(self).counter() == old(self).counter(),
    {
        let mut name = decimal_string(self.svg_counter);
        name.append("_");
        name.append(width_text);
        name.append("_");
        name.append(report_type.suffix());
        let live = match &self.live_path {
            Some(lp) => Some(SvgFile { path: clone_string(lp), title: clone_string(&name) }),
            None => None,
        };
        let intermediate = match &self.intermediate_dir {
            Some(dir) => {
                if report_type != ReportType::ExplImproving {
                    let f = SvgFile { path: join_file(dir, &name), title: clone_string(&name) };
                    self.svg_counter = self.svg_counter + 1;
                    Some(f)
                } else {
                    None
                }
            },
            None => None,
        };
        let final_path = match &self.final_path {
            Some(fp) => {
                if report_type == ReportType::Final {
                    Some(clone_string(fp))
                } else {
                    None
                }
            },
            None => None,
        };
        SppSvgPlan { live, intermediate, final_path }
    }
/// The files a bin-packing report writes, given its type and the number
    /// of bins of the solution. The live file (if any, and if there is a bin)
    /// shows the first bin under the base name; with an intermediate
    /// directory and a report that is not an improving one, one file per bin
    /// is written and one export counted; the final files are written for
    /// the final report only.
    pub fn plan_bpp_report(&mut self, report_type: ReportType, n_bins: usize) -> (p: BppSvgPlan)
        requires
            writes_intermediate(*old(self), report_type) ==> old(self).counter() < usize::MAX,
        ensures
            final(self).final_path_spec() == old(self).final_path_spec(),
            final(self).intermediate_dir_spec() == old(self).intermediate_dir_spec(),
            final(self).live_path_spec() == old(self).live_path_spec(),
            !(old(self).live_path_spec() is Some && n_bins > 0) ==> p.live is None,
            old(self).live_path_spec() matches Some(lp) ==> (n_bins > 0 ==> (p.live matches Some(f)
                && f.path@ == lp@ && f.title@ == bpp_base_name(
                old(self).counter(),
                n_bins as nat,
                report_type,
            ))),
            writes_intermediate(*old(self), report_type) ==> {
                &&& p.intermediate.len() == n_bins
                &&& forall|i: int|
                    0 <= i < n_bins ==> {
                        &&& (#[trigger] p.intermediate@[i]).title@ == spec_bin_file_name(
                            bpp_base_name(old(self).counter(), n_bins as nat, report_type),
                            i as nat,
                        )
                        &&& p.intermediate@[i].path@ == intermediate_path(
                            old(self).intermediate_dir_spec().unwrap()@,
                            p.intermediate@[i].title@,
                        )
                    }
                &&& final(self).counter() == old(self).counter() + 1
            },
            !writes_intermediate(*old(self), report_type) ==> p.intermediate.len() == 0
                && final(self).counter() == old(self).counter(),
            p.write_final == (old(self).final_path_spec() is Some && report_type == ReportType::Final),
            old(self).intermediate_dir_spec() matches Some(dir) ==> (report_type
                != ReportType::ExplImproving ==> {
                &&& p.intermediate.len() == n_bins
                &&& final(self).counter() == old(self).counter() + 1
                &&& forall|i: int|
                    0 <= i < n_bins ==> {
                        &&& (#[trigger] p.intermediate@[i]).title@ == decimal(old(self).counter())
                            + "_"@ + decimal(n_bins as nat) + "b_"@ + spec_suffix(report_type)
                            + "_bin_"@ + decimal(i as nat)
                        &&& p.intermediate@[i].path@ == dir@ + "/"@ + p.intermediate@[i].title@
                            + ".svg"@
                    }
            }),
            (report_type == ReportType::ExplImproving || old(self).intermediate_dir_spec() is None)
                ==> p.intermediate.len() == 0 && final(self).counter() == old(self).counter(),
    {
        let mut base = decimal_string(self.svg_counter);
        base.append("_");
        append_decimal(&mut base, n_bins);
        base.append("b_");
        base.append(report_type.suffix());
        let ghost base_view = bpp_base_name(self.svg_counter as nat, n_bins as nat, report_type);
        assert(base@ =~= base_view);
        let live = match &self.live_path {
            Some(lp) => {
                if n_bins > 0 {
                    Some(SvgFile { path: clone_string(lp), title: clone_string(&base) })
                } else {
                    None
                }
            },
            None => None,
        };
        let mut intermediate: Vec<SvgFile> = Vec::new();
        match &self.intermediate_dir {
            Some(dir) => {
                if report_type != ReportType::ExplImproving {
                    let mut i: usize = 0;
                    while i < n_bins
                        invariant
                            i <= n_bins,
                            base@ == base_view,
                            intermediate.len() == i,
                            forall|t: int|
                                0 <= t < i ==> {
                                    &&& (#[trigger] intermediate@[t]).title@ == spec_bin_file_name(
                                        base_view,
                                        t as nat,
                                    )
                                    &&& intermediate@[t].path@ == intermediate_path(
                                        dir@,
                                        intermediate@[t].title@,
                                    )
                                },
                        decreases n_bins - i,
                    {
                        let title = bin_file_name(base.as_str(), i);
                        let path = join_file(dir, &title);
                        intermediate.push(SvgFile { path, title });
                        i = i + 1;
                    }
                    self.svg_counter = self.svg_counter + 1;
                }
            },
            None => {},
        }
        let write_final = self.final_path.is_some() && report_type == ReportType::Final;
        BppSvgPlan { live, intermediate, write_final }
    }
}

/// Path of the final SVG of the instance `name`.
pub open spec fn final_svg_path(name: Seq<char>) -> Seq<char> {
    OUTPUT_DIR@ + "/final_"@ + name + ".svg"@
}

/// Directory of the intermediate SVGs of the instance `name`.
pub open spec fn intermediate_svg_dir(name: Seq<char>) -> Seq<char> {
    OUTPUT_DIR@ + "/sols_"@ + name
}

/// Path of the live SVG.
pub open spec fn live_svg_path() -> Seq<char> {
    LIVE_DIR@ + "/.live_solution.svg"@
}

/// The exporter of a run on the instance `name`: the final SVG always, the
/// intermediate SVGs unless only the final one is wanted, the live SVG when
/// asked for.
pub fn build_svg_exporter(name: &str, only_final_svg: bool, live_svg: bool) -> (e: SvgExporter)
    ensures
        e.counter() == 0,
        e.final_path_spec() matches Some(p) && p@ == final_svg_path(name@),
        only_final_svg ==> e.intermediate_dir_spec() is None,
        !only_final_svg ==> (e.intermediate_dir_spec() matches Some(d) && d@ == intermediate_svg_dir(
            name@,
        )),
        !live_svg ==> e.live_path_spec() is None,
        live_svg ==> (e.live_path_spec() matches Some(l) && l@ == live_svg_path()),
        e.final_path_spec() matches Some(p) && p@ == "output/final_"@ + name@ + ".svg"@,
        !only_final_svg ==> (e.intermediate_dir_spec() matches Some(d) && d@ == "output/sols_"@
            + name@),
        live_svg ==> (e.live_path_spec() matches Some(l) && l@ == "data/live/.live_solution.svg"@),
{
    proof {
        reveal_strlit("output");
        reveal_strlit("/final_");
        reveal_strlit("output/final_");
        reveal_strlit("/sols_");
        reveal_strlit("output/sols_");
        reveal_strlit("data/live");
        reveal_strlit("/.live_solution.svg");
        reveal_strlit("data/live/.live_solution.svg");
        assert(OUTPUT_DIR@ + "/final_"@ =~= "output/final_"@);
        assert(OUTPUT_DIR@ + "/sols_"@ =~= "output/sols_"@);
        assert(LIVE_DIR@ + "/.live_solution.svg"@ =~= "data/live/.live_solution.svg"@);
        assert(final_svg_path(name@) =~= "output/final_"@ + name@ + ".svg"@);
        assert(intermediate_svg_dir(name@) =~= "output/sols_"@ + name@);
    }
    let mut final_path = String::from_str(OUTPUT_DIR);
    final_path.append("/final_");
    final_path.append(name);
    final_path.append(".svg");
    let intermediate_dir = if only_final_svg {
        None
    } else {
        let mut d = String::from_str(OUTPUT_DIR);
        d.append("/sols_");
        d.append(name);
        Some(d)
    };
    let live_path = if live_svg {
        let mut l = String::from_str(LIVE_DIR);
        l.append("/.live_solution.svg");
        Some(l)
    } else {
        None
    };
    SvgExporter::new(Some(final_path), intermediate_dir, live_path)
}

} // verus!
