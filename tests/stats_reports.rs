use dirgrab::stats::{
    collect_reports, parse_decimal, parse_stats_report_spec, tokens_exclude_flags, StatsReport,
    StatsReportSpec,
};

#[test]
fn decimal_values() {
    assert_eq!(parse_decimal("0"), Some(0));
    assert_eq!(parse_decimal("42"), Some(42));
    assert_eq!(parse_decimal(&usize::MAX.to_string()), Some(usize::MAX));
    assert_eq!(parse_decimal("18446744073709551616"), None);
    assert_eq!(parse_decimal("99999999999999999999999"), None);
    assert_eq!(parse_decimal(""), None);
    assert_eq!(parse_decimal("4x"), None);
    assert_eq!(parse_decimal("+4"), None);
}

#[test]
fn report_values() {
    let reports = |s: &str| parse_stats_report_spec(s).map(|spec| spec.reports);
    assert_eq!(reports("overview"), Some(vec![StatsReport::Overview]));
    assert_eq!(reports(" top-files "), Some(vec![StatsReport::TopFiles { count: 5 }]));
    assert_eq!(reports("top-files=12"), Some(vec![StatsReport::TopFiles { count: 12 }]));
    assert_eq!(
        reports("__default__"),
        Some(vec![StatsReport::Overview, StatsReport::TopFiles { count: 5 }])
    );
    assert_eq!(reports("top-files=0"), None);
    assert_eq!(reports("top-files="), None);
    assert_eq!(reports("top-files=x"), None);
    assert_eq!(reports("overviews"), None);
    assert_eq!(reports(""), None);
}

#[test]
fn reports_merged_once_in_order() {
    let spec = |v: Vec<StatsReport>| StatsReportSpec { reports: v };
    let chosen = collect_reports(&vec![
        spec(vec![StatsReport::TopFiles { count: 3 }]),
        spec(vec![StatsReport::Overview, StatsReport::TopFiles { count: 3 }]),
    ]);
    assert_eq!(chosen, vec![StatsReport::TopFiles { count: 3 }, StatsReport::Overview]);
    assert_eq!(
        collect_reports(&Vec::new()),
        vec![StatsReport::Overview, StatsReport::TopFiles { count: 5 }]
    );
}

#[test]
fn tokens_exclude_entries() {
    let v = |xs: &[&str]| xs.iter().map(|x| x.to_string()).collect::<Vec<String>>();
    assert_eq!(tokens_exclude_flags(&v(&[" tree "])), (true, false));
    assert_eq!(tokens_exclude_flags(&v(&["headers", "bogus"])), (false, true));
    assert_eq!(tokens_exclude_flags(&v(&["tree", "headers"])), (true, true));
    assert_eq!(tokens_exclude_flags(&v(&[])), (false, false));
}
