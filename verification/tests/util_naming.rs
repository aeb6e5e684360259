use sparrow::util::io::{
    classify_input_keys, elapsed_clock, final_json_file, log_file, resolve_time_budget, sniff_input,
    CliError, InputError, InputKind, TimeBudget,
};
use sparrow::util::listener::{DummySolListener, ReportType, SolutionListener};
use sparrow::util::svg_exporter::{bin_file_name, build_svg_exporter, decimal_string, SvgExporter};

#[test]
fn decimal_strings() {
    assert_eq!(decimal_string(0), "0");
    assert_eq!(decimal_string(7), "7");
    assert_eq!(decimal_string(10), "10");
    assert_eq!(decimal_string(9041), "9041");
    assert_eq!(decimal_string(usize::MAX), usize::MAX.to_string());
}

#[test]
fn report_suffixes() {
    assert_eq!(ReportType::CmprFeas.suffix(), "cmpr");
    assert_eq!(ReportType::ExplInfeas.suffix(), "expl_nf");
    assert_eq!(ReportType::ExplFeas.suffix(), "expl_f");
    assert_eq!(ReportType::Final.suffix(), "final");
    assert_eq!(ReportType::ExplImproving.suffix(), "expl_i");
}

#[test]
fn dummy_listener_accepts_reports() {
    let mut l = DummySolListener;
    SolutionListener::<u32, u32>::report(&mut l, ReportType::Final, &1, &2);
}

#[test]
fn exporter_paths() {
    let e = build_svg_exporter("swim", false, true);
    assert_eq!(e.final_path.as_deref(), Some("output/final_swim.svg"));
    assert_eq!(e.intermediate_dir.as_deref(), Some("output/sols_swim"));
    assert_eq!(e.live_path.as_deref(), Some("data/live/.live_solution.svg"));
    let f = build_svg_exporter("swim", true, false);
    assert_eq!(f.intermediate_dir, None);
    assert_eq!(f.live_path, None);
    assert_eq!(bin_file_name("final_swim", 3), "final_swim_bin_3");
}

#[test]
fn spp_report_plan() {
    let mut e = SvgExporter::new(Some("out/final.svg".to_string()), Some("out/sols".to_string()), None);
    let p = e.plan_spp_report(ReportType::ExplFeas, "12.500");
    assert!(p.live.is_none());
    let f = p.intermediate.unwrap();
    assert_eq!(f.title, "0_12.500_expl_f");
    assert_eq!(f.path, "out/sols/0_12.500_expl_f.svg");
    assert!(p.final_path.is_none());
    let q = e.plan_spp_report(ReportType::ExplImproving, "11.000");
    assert!(q.intermediate.is_none());
    let r = e.plan_spp_report(ReportType::Final, "10.000");
    assert_eq!(r.intermediate.unwrap().title, "1_10.000_final");
    assert_eq!(r.final_path.as_deref(), Some("out/final.svg"));
}

#[test]
fn bpp_report_plan() {
    let mut e = SvgExporter::new(None, Some("d".to_string()), Some("live.svg".to_string()));
    let p = e.plan_bpp_report(ReportType::ExplFeas, 2);
    let live = p.live.unwrap();
    assert_eq!(live.path, "live.svg");
    assert_eq!(live.title, "0_2b_expl_f");
    assert_eq!(p.intermediate.len(), 2);
    assert_eq!(p.intermediate[0].title, "0_2b_expl_f_bin_0");
    assert_eq!(p.intermediate[1].path, "d/0_2b_expl_f_bin_1.svg");
    assert!(!p.write_final);
    let q = e.plan_bpp_report(ReportType::ExplImproving, 2);
    assert!(q.intermediate.is_empty());
    assert_eq!(q.live.unwrap().title, "1_2b_expl_i");
    let mut g = SvgExporter::new(Some("f.svg".to_string()), None, None);
    assert!(g.plan_bpp_report(ReportType::Final, 1).write_final);
}

#[test]
fn input_kinds() {
    assert_eq!(sniff_input(r#"{"name": "x", "bins": []}"#), Ok(InputKind::Bpp));
    assert_eq!(sniff_input(r#"{"strip_height": 10, "items": []}"#), Ok(InputKind::Spp));
    assert_eq!(sniff_input(r#"{"strip_width": 10}"#), Err(InputError::UnknownShape));
    assert_eq!(sniff_input(r#"{"bins": [], "strip_height": 3}"#), Ok(InputKind::Bpp));
    assert_eq!(sniff_input(r#"{"items": []}"#), Err(InputError::UnknownShape));
    assert_eq!(sniff_input("[1, 2]"), Err(InputError::NotAnObject));
    assert_eq!(sniff_input("{not json"), Err(InputError::InvalidJson));
    assert_eq!(
        classify_input_keys(&vec!["a".to_string(), "bins".to_string()]),
        Ok(InputKind::Bpp)
    );
}

#[test]
fn output_files() {
    assert_eq!(final_json_file("swim"), "output/final_swim.json");
    assert_eq!(log_file(), "output/log.txt");
}

#[test]
fn time_budgets() {
    assert_eq!(resolve_time_budget(Some(60), None, None), Ok(TimeBudget::Global { secs: 60 }));
    assert_eq!(
        resolve_time_budget(None, Some(10), Some(5)),
        Ok(TimeBudget::Phases { exploration_secs: 10, compression_secs: 5 })
    );
    assert_eq!(resolve_time_budget(None, None, None), Ok(TimeBudget::Unspecified));
    assert_eq!(resolve_time_budget(Some(1), Some(2), None), Err(CliError::InvalidTimeLimits));
    assert_eq!(resolve_time_budget(None, Some(2), None), Err(CliError::InvalidTimeLimits));
}

#[test]
fn clock_parts() {
    assert_eq!(elapsed_clock(0), (0, 0, 0));
    assert_eq!(elapsed_clock(3725), (1, 2, 5));
    assert_eq!(elapsed_clock(59), (0, 0, 59));
    assert_eq!(elapsed_clock(86_400), (24, 0, 0));
}
