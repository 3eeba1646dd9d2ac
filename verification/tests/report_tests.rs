use betterstack_report::percentage::Percentage;
use betterstack_report::report::{filter_by_search, first_below_hundred, name_column_width, report_le_exec, sort_for_report};
use betterstack_report::uptime::{calculate_uptime, range_seconds, SlaAttributes, UptimeCalc};

fn calc(id: &str, name: &str, pct: f64) -> UptimeCalc {
    UptimeCalc {
        id: id.to_string(),
        name: name.to_string(),
        percentage: Percentage { bits: pct.to_bits() },
        downtime: 0,
        downtime_mins: 0,
        uptime: 0,
        max_uptime: 0,
    }
}

fn ids(v: &[UptimeCalc]) -> Vec<&str> {
    v.iter().map(|u| u.id.as_str()).collect()
}

#[test]
fn sort_puts_full_uptime_first_by_name_then_best_to_worst() {
    let input = vec![
        calc("a", "Web", 99.5),
        calc("b", "Zeta", 100.0),
        calc("c", "Alpha", 100.0),
        calc("d", "Api", 97.25),
        calc("e", "Beta", 99.99),
        calc("f", "alpha", 100.0),
    ];
    let sorted = sort_for_report(input);
    assert_eq!(ids(&sorted), vec!["c", "b", "f", "e", "a", "d"]);
}

#[test]
fn sort_keeps_the_order_of_equal_entries() {
    let input = vec![
        calc("1", "Same", 100.0),
        calc("2", "Low", 50.0),
        calc("3", "Same", 100.0),
        calc("4", "Other low", 50.0),
        calc("5", "Mid", 75.0),
    ];
    let sorted = sort_for_report(input);
    assert_eq!(ids(&sorted), vec!["1", "3", "5", "2", "4"]);
}

#[test]
fn sort_matches_the_comparator_of_the_report() {
    let pcts = [100.0, 99.0, 0.0, 100.0, 12.5, 99.0, 100.0];
    let names = ["m", "b", "z", "a", "q", "c", "m"];
    let input: Vec<UptimeCalc> = (0..pcts.len()).map(|i| calc(&i.to_string(), names[i], pcts[i])).collect();
    let mut expected: Vec<(String, String, f64)> = (0..pcts.len()).map(|i| (i.to_string(), names[i].to_string(), pcts[i])).collect();
    expected.sort_by(|a, b| match (a.2 == 100.0, b.2 == 100.0) {
        (true, true) => a.1.cmp(&b.1),
        (true, false) => std::cmp::Ordering::Less,
        (false, true) => std::cmp::Ordering::Greater,
        (false, false) => b.2.partial_cmp(&a.2).unwrap_or(std::cmp::Ordering::Equal),
    });
    let sorted = sort_for_report(input);
    let expected_ids: Vec<&str> = expected.iter().map(|e| e.0.as_str()).collect();
    assert_eq!(ids(&sorted), expected_ids);
    for w in sorted.windows(2) {
        assert!(report_le_exec(&w[0], &w[1]));
    }
}

#[test]
fn sort_of_nothing_is_nothing() {
    assert!(sort_for_report(Vec::new()).is_empty());
}

#[test]
fn search_matches_any_term_ignoring_case() {
    let input = vec![calc("1", "Premium US 02", 99.0), calc("2", "API gateway", 100.0), calc("3", "Website", 98.0)];
    let search = vec!["premium us 02".to_string(), "API".to_string()];
    let kept = filter_by_search(input, &search);
    assert_eq!(ids(&kept), vec!["1", "2"]);
}

#[test]
fn search_without_terms_keeps_everything() {
    let input = vec![calc("1", "A", 99.0), calc("2", "B", 100.0)];
    let kept = filter_by_search(input, &Vec::new());
    assert_eq!(ids(&kept), vec!["1", "2"]);
}

#[test]
fn search_with_no_match_keeps_nothing() {
    let input = vec![calc("1", "A", 99.0)];
    let kept = filter_by_search(input, &vec!["zzz".to_string()]);
    assert!(kept.is_empty());
}

#[test]
fn search_lowercases_unicode_names() {
    let input = vec![calc("1", "ÉCOLE", 99.0), calc("2", "ecole", 99.0)];
    let kept = filter_by_search(input, &vec!["École".to_string()]);
    assert_eq!(ids(&kept), vec!["1"]);
}

#[test]
fn name_column_is_at_least_the_heading() {
    assert_eq!(name_column_width(&Vec::new()), "Monitor Name".len());
    assert_eq!(name_column_width(&vec![calc("1", "short", 1.0)]), 12);
    assert_eq!(name_column_width(&vec![calc("1", "a much longer monitor name", 1.0), calc("2", "x", 1.0)]), 26);
    assert_eq!(name_column_width(&vec![calc("1", "ééééééé", 1.0)]), 14);
}

#[test]
fn separator_goes_before_first_entry_below_hundred() {
    let sorted = vec![calc("1", "a", 100.0), calc("2", "b", 100.0), calc("3", "c", 99.9), calc("4", "d", 10.0)];
    assert_eq!(first_below_hundred(&sorted), Some(2));
    assert_eq!(first_below_hundred(&vec![calc("1", "a", 100.0)]), None);
    assert_eq!(first_below_hundred(&vec![calc("1", "a", 0.0)]), Some(0));
}

#[test]
fn uptime_figures_from_sla() {
    let sla = SlaAttributes { availability: Some(Percentage { bits: 99.5f64.to_bits() }), total_downtime: Some(125) };
    let u = calculate_uptime("42", "Web", 1_000, 87_400, &sla, 85_968);
    assert_eq!(u.id, "42");
    assert_eq!(u.name, "Web");
    assert_eq!(f64::from_bits(u.percentage.bits), 99.5);
    assert_eq!(u.downtime, 125);
    assert_eq!(u.downtime_mins, 2);
    assert_eq!(u.uptime, 85_968);
    assert_eq!(u.max_uptime, 86_400);
}

#[test]
fn missing_sla_figures_count_as_zero() {
    let sla = SlaAttributes { availability: None, total_downtime: None };
    let u = calculate_uptime("7", "Db", 5_000, 1_000, &sla, 0);
    assert_eq!(u.percentage.bits, 0);
    assert_eq!(u.downtime, 0);
    assert_eq!(u.downtime_mins, 0);
    assert_eq!(u.max_uptime, 0);
}

#[test]
fn range_seconds_is_never_negative() {
    assert_eq!(range_seconds(10, 70), 60);
    assert_eq!(range_seconds(70, 10), 0);
    assert_eq!(range_seconds(-31_536_000, 0), 31_536_000);
}

#[test]
fn sort_result_does_not_depend_on_input_order_of_distinct_entries() {
    let a = vec![calc("1", "b", 100.0), calc("2", "x", 90.0), calc("3", "a", 100.0), calc("4", "y", 95.0)];
    let b = vec![calc("4", "y", 95.0), calc("3", "a", 100.0), calc("2", "x", 90.0), calc("1", "b", 100.0)];
    let sa = sort_for_report(a);
    let sb = sort_for_report(b);
    assert_eq!(ids(&sa), ids(&sb));
    assert_eq!(ids(&sa), vec!["3", "1", "4", "2"]);
    let again = sort_for_report(sa);
    assert_eq!(ids(&again), vec!["3", "1", "4", "2"]);
}
