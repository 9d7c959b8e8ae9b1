use timetagger_shortcuts::engine::{plan_create, plan_stop, toggle_create, toggle_stop};
use timetagger_shortcuts::records::Record;
use timetagger_shortcuts::tags::matches_filter;

fn rec(key: &str, t1: u64, t2: u64, ds: &str) -> Record {
    Record {
        key: key.to_string(),
        t1,
        t2,
        ds: Some(ds.to_string()),
        mt: t1,
        st: Some(0),
    }
}

#[test]
fn empty_filter_matches_every_tag_set() {
    let none: Vec<String> = vec![];
    let some = vec!["#a".to_string(), "#b".to_string()];
    assert!(matches_filter(&none, &none));
    assert!(matches_filter(&some, &none));
    assert!(!matches_filter(&none, &some));
}

#[test]
fn create_with_matching_filter_is_noop() {
    let running = vec![rec("a1", 1000, 1000, "work #proj1")];
    let filter = Some("#proj1".to_string());
    let batch = plan_create(&running, "code #proj2".to_string(), &filter, 2000, "newkey01".to_string());
    assert!(batch.is_empty());
    assert_eq!(running[0].t2, 1000);
}

#[test]
fn create_with_unmatched_filter_stops_and_creates() {
    let running = vec![rec("a1", 1000, 1000, "work #proj1")];
    let filter = Some("#proj2".to_string());
    let batch = plan_create(&running, "code #proj2".to_string(), &filter, 2000, "newkey01".to_string());
    assert_eq!(batch.len(), 2);
    assert_eq!(batch[0].key, "a1");
    assert_eq!(batch[0].t1, 1000);
    assert_eq!(batch[0].t2, 2000);
    assert_eq!(batch[0].mt, 2000);
    assert_eq!(batch[0].ds.as_deref(), Some("work #proj1"));
    assert_eq!(batch[1].key, "newkey01");
    assert_eq!(batch[1].t1, 2000);
    assert_eq!(batch[1].t2, 2000);
    assert_eq!(batch[1].mt, 2000);
    assert_eq!(batch[1].ds.as_deref(), Some("code #proj2"));
    assert_eq!(batch[1].st, Some(0));
}

#[test]
fn create_without_filter_stops_only_running_entries() {
    let running = vec![rec("a1", 1000, 1000, "work #proj1"), rec("a2", 900, 950, "old #proj9")];
    let batch = plan_create(&running, "next".to_string(), &None, 2000, "newkey02".to_string());
    assert_eq!(batch.len(), 2);
    assert_eq!(batch[0].key, "a1");
    assert_eq!(batch[0].t2, 2000);
    assert_eq!(batch[1].key, "newkey02");
    assert_eq!(batch[1].ds.as_deref(), Some("next"));
}

#[test]
fn stop_with_filter_keeps_unmatched_entries_out() {
    let running = vec![rec("a1", 1000, 1000, "work #proj1"), rec("a2", 1100, 1100, "code #proj2")];
    let filter = Some("#proj1".to_string());
    let batch = plan_stop(&running, &filter, 2000);
    assert_eq!(batch.len(), 1);
    assert_eq!(batch[0].key, "a1");
    assert_eq!(batch[0].t1, 1000);
    assert_eq!(batch[0].t2, 2000);
    assert_eq!(batch[0].mt, 2000);
    assert_eq!(batch[0].ds.as_deref(), Some("work #proj1"));
    assert_eq!(running[1].t2, 1100);
    assert_eq!(running[1].mt, 1100);
}

#[test]
fn stop_without_filter_stops_all_running_entries() {
    let running = vec![
        rec("a1", 1000, 1000, "work #proj1"),
        rec("a2", 1100, 1100, "code #proj2"),
        rec("a3", 1200, 1200, "misc"),
    ];
    let batch = plan_stop(&running, &None, 2000);
    assert_eq!(batch.len(), 3);
    for (orig, stopped) in running.iter().zip(batch.iter()) {
        assert_eq!(stopped.key, orig.key);
        assert_eq!(stopped.t1, orig.t1);
        assert_eq!(stopped.t2, 2000);
        assert_eq!(stopped.mt, 2000);
        assert_eq!(stopped.ds, orig.ds);
        assert_eq!(stopped.st, orig.st);
    }
}

#[test]
fn stop_skips_entries_already_stopped() {
    let running = vec![rec("a1", 1000, 1500, "done #proj1"), rec("a2", 1100, 1100, "live #proj1")];
    let filter = Some("#proj1".to_string());
    let batch = plan_stop(&running, &filter, 2000);
    assert_eq!(batch.len(), 1);
    assert_eq!(batch[0].key, "a2");
}

#[test]
fn create_filter_without_tags_matches_any_entry() {
    let running = vec![rec("a1", 1000, 1000, "plain text")];
    let filter = Some("no tags here".to_string());
    let batch = plan_create(&running, "new".to_string(), &filter, 2000, "newkey03".to_string());
    assert!(batch.is_empty());
}

#[test]
fn toggle_stop_over_empty_snapshot_is_empty() {
    let running: Vec<Record> = vec![];
    let batch = toggle_stop(&running, &None);
    assert!(batch.is_empty());
}

#[test]
fn toggle_create_over_empty_snapshot_creates_one() {
    let running: Vec<Record> = vec![];
    let batch = toggle_create(&running, "fresh #t".to_string(), &None);
    assert_eq!(batch.len(), 1);
    assert_eq!(batch[0].ds.as_deref(), Some("fresh #t"));
    assert_eq!(batch[0].t1, batch[0].t2);
    assert_eq!(batch[0].key.chars().count(), 8);
}
