use drill::actions::{Assign, Runnable};
use drill::interpolator::{Context, ContextValue, InterpolationError, Interpolator, ResponseStore};
use drill::runner::{collect_reports, run_benchmark, run_iteration, run_playbook};
use drill::store::VarMap;

fn assign(name: &str, key: &str, value: &str) -> Assign {
    Assign::new(String::from(name), String::from(key), String::from(value))
}

fn text_of(context: &Context, key: &str) -> Option<String> {
    match context.get(&String::from(key)) {
        Some(ContextValue::Text(s)) => Some(s.clone()),
        _ => None,
    }
}

#[test]
fn sequential_assigns_keep_last_value() {
    let playbook = vec![assign("first", "a", "1"), assign("second", "a", "2")];
    let mut context: Context = VarMap::new();
    let mut responses: ResponseStore = VarMap::new();
    let mut reports = Vec::new();
    let r = run_playbook(&playbook, &mut context, &mut responses, &mut reports);
    assert!(r.is_ok());
    assert_eq!(text_of(&context, "a").unwrap(), "2");
    assert_eq!(reports.len(), 2);
    assert_eq!(reports[0].name, "first");
    assert_eq!(reports[1].name, "second");
    assert_eq!(reports[0].status, 0);
}

#[test]
fn assign_resolves_templated_value() {
    let playbook = vec![
        assign("base", "host", "example.com"),
        assign("url", "url", "http://{{ host }}/users"),
    ];
    let it = run_iteration(&playbook);
    assert!(it.error.is_none());
    assert_eq!(text_of(&it.context, "url").unwrap(), "http://example.com/users");
}

#[test]
fn failing_action_stops_the_run() {
    let playbook = vec![
        assign("one", "a", "1"),
        assign("broken", "b", "{{ missing }}"),
        assign("three", "c", "3"),
    ];
    let mut context: Context = VarMap::new();
    let mut responses: ResponseStore = VarMap::new();
    let mut reports = Vec::new();
    let err = run_playbook(&playbook, &mut context, &mut responses, &mut reports).unwrap_err();
    assert_eq!(err.action, "broken");
    assert!(matches!(err.error, InterpolationError::UnknownVariable));
    assert_eq!(reports.len(), 1);
    assert!(text_of(&context, "c").is_none());
    assert_eq!(text_of(&context, "a").unwrap(), "1");
}

#[test]
fn assign_describes_and_detects_templates() {
    let a = assign("show {{ x }}", "k", "v");
    assert_eq!(a.describe(), "show {{ x }}");
    assert!(a.has_interpolations());
    assert!(!assign("plain", "k", "v").has_interpolations());
    assert!(assign("plain", "k", "{{ v }}").has_interpolations());
}

#[test]
fn assign_execute_appends_one_report() {
    let a = assign("set", "k", "v");
    let mut context: Context = VarMap::new();
    let mut responses: ResponseStore = VarMap::new();
    let mut reports = Vec::new();
    assert!(a.execute(&mut context, &mut responses, &mut reports).is_ok());
    assert_eq!(reports.len(), 1);
    let interpolator = Interpolator::new(&context, &responses);
    assert_eq!(interpolator.resolve(&String::from("{{ k }}")).unwrap(), "v");
}

#[test]
fn benchmark_iterations_are_isolated() {
    let playbook = vec![assign("first", "a", "1"), assign("second", "a", "{{ a }}2")];
    let its = run_benchmark(&playbook, 50);
    assert_eq!(its.len(), 50);
    for it in &its {
        assert!(it.error.is_none());
        assert_eq!(text_of(&it.context, "a").unwrap(), "12");
        assert_eq!(it.reports.len(), 2);
    }
    let all = collect_reports(its);
    assert_eq!(all.len(), 100);
}

#[test]
fn benchmark_failure_is_kept_per_iteration() {
    let playbook = vec![assign("bad", "a", "{{ nope }}")];
    let its = run_benchmark(&playbook, 3);
    assert_eq!(its.len(), 3);
    for it in &its {
        assert_eq!(it.error.as_ref().unwrap().action, "bad");
        assert!(it.reports.is_empty());
    }
    assert!(collect_reports(run_benchmark(&playbook, 0)).is_empty());
}
