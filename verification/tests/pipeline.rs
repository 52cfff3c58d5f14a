use toot::categories::CategoryMap;
use toot::feed::Item;
use toot::ledger::Ledger;
use toot::pipeline::Pipeline;

fn item(id: &str, title: &str, tags: &[&str]) -> Item {
    Item {
        id: id.to_string(),
        title: title.to_string(),
        author_name: "A".to_string(),
        url: format!("http://example.net/{}", id),
        tags: tags.iter().map(|t| t.to_string()).collect(),
    }
}

fn async_map() -> CategoryMap {
    let mut cats = CategoryMap::new();
    assert!(cats.insert("async".to_string(), "AsyncRust".to_string()));
    cats
}

#[test]
fn example_run_announces_and_records_the_new_item() {
    let feed = vec![Item {
        id: "1".to_string(),
        title: "T1".to_string(),
        author_name: "A".to_string(),
        url: "http://x".to_string(),
        tags: vec!["async".to_string()],
    }];
    let mut p = Pipeline::new(Ledger::new(), feed, async_map(), false);
    let text = p.next_announcement().unwrap();
    assert_eq!(text, "T1 by A: http://x #Rust #AsyncRust");
    p.mark_announced();
    assert!(p.is_complete());
    assert!(p.next_announcement().is_none());
    let saved = p.persist_payload().unwrap();
    let after = Ledger::load(Some(saved.as_str())).unwrap();
    assert_eq!(after.len(), 1);
    assert!(after.contains(&"1".to_string()));
}

#[test]
fn rerun_with_fully_seen_feed_selects_nothing() {
    let mut before = Ledger::new();
    before.add("1".to_string());
    before.add("2".to_string());
    let prior_text = before.save_text();
    let feed = vec![item("1", "T1", &[]), item("2", "T2", &[])];
    let mut p = Pipeline::new(before, feed, CategoryMap::new(), false);
    assert!(p.next_announcement().is_none());
    assert!(p.is_complete());
    // the completed live run persists the ledger unchanged
    assert_eq!(p.persist_payload().unwrap(), prior_text);
}

#[test]
fn only_unseen_items_are_selected_in_feed_order() {
    let mut before = Ledger::new();
    before.add("2".to_string());
    let feed = vec![item("1", "T1", &[]), item("2", "T2", &[]), item("3", "T3", &[])];
    let mut p = Pipeline::new(before, feed, CategoryMap::new(), false);
    let first = p.next_announcement().unwrap();
    assert!(first.starts_with("T1 "));
    p.mark_announced();
    let second = p.next_announcement().unwrap();
    assert!(second.starts_with("T3 "));
    p.mark_announced();
    assert!(p.is_complete());
}

#[test]
fn aborted_run_offers_no_ledger_to_persist() {
    let feed = vec![item("1", "T1", &[]), item("2", "T2", &[])];
    let mut p = Pipeline::new(Ledger::new(), feed, CategoryMap::new(), false);
    let _first = p.next_announcement().unwrap();
    p.mark_announced();
    // posting the second item fails: the run stops here, incomplete
    assert!(!p.is_complete());
    assert!(p.persist_payload().is_none());
}

#[test]
fn dry_run_shows_items_but_never_persists() {
    let mut before = Ledger::new();
    before.add("0".to_string());
    let on_disk = before.save_text();
    let feed = vec![item("1", "T1", &[]), item("1b", "T1b", &[])];
    let mut p = Pipeline::new(before, feed, CategoryMap::new(), true);
    assert!(p.dry_run());
    let mut shown = 0;
    while let Some(_text) = p.next_announcement() {
        p.mark_announced();
        shown += 1;
    }
    assert_eq!(shown, 2);
    assert!(p.is_complete());
    // even the complete dry run hands out nothing to write
    assert!(p.persist_payload().is_none());
    // so the file's text stays what it was before the run
    assert_eq!(on_disk, "0;");
}

#[test]
fn completed_live_run_persists_the_full_batch() {
    let feed = vec![item("x", "TX", &[]), item("y", "TY", &[])];
    let mut p = Pipeline::new(Ledger::new(), feed, CategoryMap::new(), false);
    while let Some(_text) = p.next_announcement() {
        p.mark_announced();
    }
    let saved = p.persist_payload().unwrap();
    let after = Ledger::load(Some(saved.as_str())).unwrap();
    assert_eq!(after.len(), 2);
    assert!(after.contains(&"x".to_string()));
    assert!(after.contains(&"y".to_string()));
}

#[test]
fn duplicate_feed_ids_are_detected() {
    let feed = vec![item("1", "T1", &[]), item("1", "T1again", &[])];
    assert!(!toot::feed::check_feed_ids_unique(&feed));
    let ok_feed = vec![item("1", "T1", &[]), item("2", "T2", &[])];
    assert!(toot::feed::check_feed_ids_unique(&ok_feed));
}

#[test]
fn dry_run_still_advances_the_in_memory_state() {
    let feed = vec![item("1", "T1", &[])];
    let mut p = Pipeline::new(Ledger::new(), feed, CategoryMap::new(), true);
    assert!(p.next_announcement().is_some());
    p.mark_announced();
    // the one selected item was shown once; nothing is owed any more
    assert!(p.next_announcement().is_none());
}
