use timetagger_shortcuts::records::{Record, KEY_LENGTH};

fn tag_views(tags: &[String]) -> Vec<&str> {
    tags.iter().map(|t| t.as_str()).collect()
}

#[test]
fn tags_of_empty_description_is_empty() {
    assert!(Record::str_to_tags("").is_empty());
}

#[test]
fn tags_are_hash_prefixed_tokens_deduplicated() {
    let tags = Record::str_to_tags("work #proj1 on x#y #proj2 and #proj1 again");
    let views = tag_views(&tags);
    assert_eq!(views.len(), 2);
    assert!(views.contains(&"#proj1"));
    assert!(views.contains(&"#proj2"));
}

#[test]
fn tags_ignore_bare_hash_free_text() {
    let tags = Record::str_to_tags("plain words only");
    assert!(tags.is_empty());
    let tags = Record::str_to_tags("#");
    let views = tag_views(&tags);
    assert_eq!(views, vec!["#"]);
}

#[test]
fn tags_split_on_whitespace_variants() {
    let tags = Record::str_to_tags("#a\t#b\n#c\r #a");
    let views = tag_views(&tags);
    assert_eq!(views.len(), 3);
    assert!(views.contains(&"#a"));
    assert!(views.contains(&"#b"));
    assert!(views.contains(&"#c"));
}

#[test]
fn entry_tags_empty_when_description_absent() {
    let e = Record { key: "k".to_string(), t1: 5, t2: 5, ds: None, mt: 5, st: None };
    assert!(e.tags().is_empty());
}

#[test]
fn new_entry_is_running_with_fresh_key() {
    let e = Record::new("code #proj2".to_string());
    assert_eq!(e.t1, e.t2);
    assert_eq!(e.t1, e.mt);
    assert_eq!(e.ds.as_deref(), Some("code #proj2"));
    assert_eq!(e.st, Some(0));
    assert_eq!(e.key.chars().count(), KEY_LENGTH);
    assert!(e.key.chars().all(|c| c.is_ascii_alphanumeric()));
}

#[test]
fn stop_within_start_second_still_reads_running() {
    let e = Record {
        key: "a1".to_string(),
        t1: 1000,
        t2: 1000,
        ds: Some("work #proj1".to_string()),
        mt: 1000,
        st: Some(0),
    };
    let stopped_same_second = e.clone().stop(1000);
    assert!(stopped_same_second.is_running());
    let stopped_later = e.stop(1001);
    assert!(!stopped_later.is_running());
}

#[test]
fn stop_updates_only_end_and_modified() {
    let e = Record {
        key: "a1".to_string(),
        t1: 1000,
        t2: 1000,
        ds: Some("work #proj1".to_string()),
        mt: 1000,
        st: Some(42),
    };
    let s = e.stop(2000);
    assert_eq!(s.key, "a1");
    assert_eq!(s.t1, 1000);
    assert_eq!(s.t2, 2000);
    assert_eq!(s.mt, 2000);
    assert_eq!(s.ds.as_deref(), Some("work #proj1"));
    assert_eq!(s.st, Some(42));
}
