use betterstack_report::monitor::{
    add_monitor_ids, display_name, filter_monitors_by_ids, Monitor, MonitorAttributes, Resource, ResourceId,
    StatusPage, StatusPageSweep,
};
use betterstack_report::pagination::{pause_before, PageAction, Paginated, Pagination, Paginator, REQUEST_PAUSE_MS};

fn monitor(id: &str) -> Monitor {
    Monitor { id: id.to_string(), attributes: MonitorAttributes { pronounceable_name: None, url: None } }
}

fn resource(kind: Option<&str>, id: ResourceId) -> Resource {
    Resource { resource_type: kind.map(|k| k.to_string()), resource_id: id }
}

#[test]
fn display_name_prefers_pronounceable_name_then_url() {
    let both = MonitorAttributes { pronounceable_name: Some("Web".to_string()), url: Some("https://x".to_string()) };
    let url_only = MonitorAttributes { pronounceable_name: None, url: Some("https://x".to_string()) };
    let none = MonitorAttributes { pronounceable_name: None, url: None };
    assert_eq!(display_name(&both), "Web");
    assert_eq!(display_name(&url_only), "https://x");
    assert_eq!(display_name(&none), "Unknown");
}

#[test]
fn monitors_are_kept_when_their_id_is_listed() {
    let monitors = vec![monitor("1"), monitor("2"), monitor("3"), monitor("4")];
    let ids = vec!["3".to_string(), "1".to_string(), "9".to_string()];
    let kept = filter_monitors_by_ids(monitors, &ids);
    let kept_ids: Vec<&str> = kept.iter().map(|m| m.id.as_str()).collect();
    assert_eq!(kept_ids, vec!["1", "3"]);
}

#[test]
fn monitor_ids_come_from_monitor_resources_once_each() {
    let resources = vec![
        resource(Some("Monitor"), ResourceId::Text("10".to_string())),
        resource(Some("Monitor"), ResourceId::Number("11".to_string())),
        resource(Some("Heartbeat"), ResourceId::Text("12".to_string())),
        resource(None, ResourceId::Text("13".to_string())),
        resource(Some("Monitor"), ResourceId::Other),
        resource(Some("monitor"), ResourceId::Text("14".to_string())),
        resource(Some("Monitor"), ResourceId::Text("10".to_string())),
    ];
    let mut ids = vec!["11".to_string()];
    add_monitor_ids(&mut ids, &resources);
    assert_eq!(ids, vec!["11".to_string(), "10".to_string()]);
}

#[test]
fn sweep_visits_each_status_page_and_merges_ids() {
    let pages = vec![StatusPage { id: "p1".to_string() }, StatusPage { id: "p2".to_string() }];
    let mut sweep = StatusPageSweep::new(pages);
    assert_eq!(sweep.next_page(), Some("p1".to_string()));
    sweep.record(&vec![resource(Some("Monitor"), ResourceId::Text("1".to_string()))]);
    assert_eq!(sweep.next_page(), Some("p2".to_string()));
    sweep.record(&vec![
        resource(Some("Monitor"), ResourceId::Number("2".to_string())),
        resource(Some("Monitor"), ResourceId::Text("1".to_string())),
    ]);
    assert_eq!(sweep.next_page(), None);
    let mut ids = sweep.finish();
    ids.sort();
    assert_eq!(ids, vec!["1".to_string(), "2".to_string()]);
}

#[test]
fn sweep_over_no_pages_finds_nothing() {
    let sweep = StatusPageSweep::new(Vec::new());
    assert_eq!(sweep.next_page(), None);
    assert!(sweep.finish().is_empty());
}

fn page(items: &[u32], next: bool) -> Paginated<u32> {
    Paginated {
        data: items.to_vec(),
        pagination: Some(Pagination { next: if next { Some("more".to_string()) } else { None } }),
    }
}

#[test]
fn paginator_collects_pages_until_no_next() {
    let mut p = Paginator::new();
    assert_eq!(p.page(), 1);
    assert!(!p.is_done());
    p.record(page(&[1, 2], true));
    assert_eq!(p.page(), 2);
    p.record(page(&[], true));
    assert_eq!(p.page(), 3);
    p.record(page(&[3], false));
    assert!(p.is_done());
    assert_eq!(p.page(), 3);
    assert_eq!(p.into_items(), vec![1, 2, 3]);
}

#[test]
fn paginator_stops_without_pagination_block() {
    let mut p = Paginator::new();
    p.record(Paginated { data: vec![7u32], pagination: None });
    assert!(p.is_done());
    assert_eq!(p.into_items(), vec![7]);
}

#[test]
fn paginator_pauses_between_requests() {
    assert_eq!(REQUEST_PAUSE_MS, 200);
    assert_eq!(pause_before(false), 0);
    assert_eq!(pause_before(true), 200);
    let mut p = Paginator::new();
    assert_eq!(p.next_action(false), PageAction::Fetch { page: 1, pause_ms: 0 });
    assert_eq!(p.next_action(true), PageAction::Fetch { page: 1, pause_ms: 200 });
    p.record(page(&[1], true));
    assert_eq!(p.next_action(false), PageAction::Fetch { page: 2, pause_ms: 200 });
    p.record(page(&[2], false));
    assert_eq!(p.next_action(false), PageAction::Done);
}
