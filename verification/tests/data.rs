use sigi::data::{
    duplicate_stack, list_json_from, sigi_file, v1_to_modern, DataFormat, DataStore, Found, Item,
    Timestamp, Unreadable, V1Item, WorkingDir,
};

fn at(secs: i64) -> Timestamp {
    Timestamp { secs, nanos: 0 }
}

fn event(kind: &str, secs: i64) -> (String, Timestamp) {
    (kind.to_string(), at(secs))
}

fn empty_store() -> DataStore {
    DataStore::new(WorkingDir::HomeDir, DataFormat::SigiJson)
}

fn v1(name: &str, created: i64, succeeded: Option<i64>, failed: Option<i64>) -> V1Item {
    V1Item {
        name: name.to_string(),
        created: at(created),
        succeeded: succeeded.map(at),
        failed: failed.map(at),
    }
}

#[test]
fn timestamps_are_ordered_by_seconds_then_nanoseconds() {
    let early = Timestamp { secs: 5, nanos: 999_999_999 };
    let late = Timestamp { secs: 6, nanos: 0 };
    assert!(early.not_after(late));
    assert!(!late.not_after(early));
    assert!(early.not_after(early));
    assert!(Timestamp { secs: 5, nanos: 1 }.not_after(Timestamp { secs: 5, nanos: 2 }));
    assert!(!Timestamp { secs: 5, nanos: 2 }.not_after(Timestamp { secs: 5, nanos: 1 }));
    assert!(Timestamp { secs: -3, nanos: 7 }.not_after(Timestamp { secs: 0, nanos: 0 }));
}

#[test]
fn a_new_item_has_its_text_and_one_created_event() {
    let item = Item::new("buy milk");
    assert_eq!(item.contents, "buy milk");
    assert_eq!(item.history.len(), 1);
    assert_eq!(item.history[0].0, "created");
    assert!(item.history[0].1.secs > 1_600_000_000);
    assert!(item.history[0].1.nanos < 2_000_000_000);
}

#[test]
fn an_item_created_at_a_moment() {
    let item = Item::created_at("x", Timestamp { secs: 12, nanos: 34 });
    assert_eq!(
        item,
        Item {
            contents: "x".to_string(),
            history: vec![("created".to_string(), Timestamp { secs: 12, nanos: 34 })],
        }
    );
}

#[test]
fn marking_appends_an_event_and_keeps_the_text() {
    let mut item = Item::created_at("x", at(1));
    item.mark_completed();
    item.mark_deleted();
    item.mark_restored();
    item.record("custom", at(2));
    assert_eq!(item.contents, "x");
    let kinds: Vec<&str> = item.history.iter().map(|(kind, _)| kind.as_str()).collect();
    assert_eq!(kinds, vec!["created", "completed", "deleted", "restored", "custom"]);
    assert_eq!(item.history[0].1, at(1));
    assert_eq!(item.history[4].1, at(2));
}

#[test]
fn copies_are_equal_to_what_they_copy() {
    let mut item = Item::created_at("x", at(1));
    item.record("completed", at(2));
    assert_eq!(item.clone(), item);
    let stack = vec![item, Item::created_at("y", at(3))];
    assert_eq!(duplicate_stack(&stack), stack);
    assert_eq!(duplicate_stack(&vec![]), vec![]);
}

#[test]
fn a_store_that_holds_nothing_loads_empty_stacks() {
    let store = empty_store();
    assert_eq!(store.load("anything"), Ok(vec![]));
    assert_eq!(store.list_stacks(), Vec::<String>::new());
    assert_eq!(store.journal(), Vec::<String>::new());
    assert_eq!(store.data_format(), DataFormat::SigiJson);
}

#[test]
fn save_then_load_gives_back_the_stack() {
    let mut store = empty_store();
    let mut done = Item::created_at("done", at(1));
    done.record("completed", at(2));
    let stack = vec![Item::created_at("a", at(3)), done, Item::created_at("", at(4))];
    store.save("work", duplicate_stack(&stack));
    assert_eq!(store.load("work"), Ok(duplicate_stack(&stack)));
    assert_eq!(store.load("work"), Ok(stack));
    assert_eq!(store.load("other"), Ok(vec![]));
}

#[test]
fn save_replaces_what_was_kept_and_notes_the_name() {
    let mut store = empty_store();
    store.hold("work", vec![Item::created_at("old", at(1))]);
    store.hold_unreadable("broken");
    assert!(store.journal().is_empty());
    store.save("work", vec![Item::created_at("new", at(2))]);
    store.save("broken", vec![]);
    store.save("work", vec![]);
    assert_eq!(store.load("work"), Ok(vec![]));
    assert_eq!(store.load("broken"), Ok(vec![]));
    assert_eq!(store.journal(), vec!["work", "broken", "work"]);
    let mut names = store.list_stacks();
    names.sort();
    assert_eq!(names, vec!["broken", "work"]);
    store.settle();
    assert!(store.journal().is_empty());
    assert_eq!(store.list_stacks().len(), 2);
}

#[test]
fn an_unreadable_stack_fails_to_load() {
    let mut store = empty_store();
    store.hold("work", vec![Item::created_at("a", at(1))]);
    store.hold_unreadable("work");
    assert_eq!(store.load("work"), Err(Unreadable { stack: "work".to_string() }));
    assert_eq!(store.list_stacks(), vec!["work"]);
    store.hold("work", vec![]);
    assert_eq!(store.load("work"), Ok(vec![]));
}

#[test]
fn the_directory_of_a_store() {
    let home = empty_store();
    assert_eq!(home.dir("/home/me/.local/share/sigi"), "/home/me/.local/share/sigi");
    let other = DataStore::new(WorkingDir::Dir("/tmp/x".to_string()), DataFormat::SigiJson);
    assert_eq!(other.dir("/home/me/.local/share/sigi"), "/tmp/x");
}

#[test]
fn the_file_of_a_stack() {
    assert_eq!(sigi_file("/tmp/x", "work"), "/tmp/x/work.json");
    assert_eq!(sigi_file("", ""), "/.json");
    assert_eq!(sigi_file("data", "work_history"), "data/work_history.json");
}

#[test]
fn stacks_are_the_json_files_of_a_directory() {
    let files: Vec<String> =
        ["work.json", "notes.txt", "home.json", ".json", "json", "a.json.bak", "b.JSON", "c.json.json"]
            .iter()
            .map(|f| f.to_string())
            .collect();
    assert_eq!(list_json_from(&files), vec!["work", "home", "", "c.json"]);
    assert_eq!(list_json_from(&vec![]), Vec::<String>::new());
}

#[test]
fn a_legacy_item_that_succeeded_becomes_a_completed_item() {
    let modern = v1_to_modern(vec![v1("x", 10, Some(20), None)]);
    assert_eq!(
        modern,
        vec![Item {
            contents: "x".to_string(),
            history: vec![event("created", 10), event("completed", 20)],
        }]
    );
}

#[test]
fn a_legacy_item_that_failed_becomes_a_deleted_item() {
    let modern = v1_to_modern(vec![v1("x", 10, None, Some(30))]);
    assert_eq!(modern[0].history, vec![event("created", 10), event("deleted", 30)]);
}

#[test]
fn a_legacy_item_that_is_open_has_only_its_creation() {
    let modern = v1_to_modern(vec![v1("x", 10, None, None), v1("y", 11, None, None)]);
    assert_eq!(modern.len(), 2);
    assert_eq!(modern[0], Item::created_at("x", at(10)));
    assert_eq!(modern[1], Item::created_at("y", at(11)));
    assert_eq!(v1_to_modern(vec![]), vec![]);
}

#[test]
fn legacy_events_are_sorted_by_time() {
    let both = v1_to_modern(vec![v1("x", 10, Some(30), Some(20))]);
    assert_eq!(
        both[0].history,
        vec![event("created", 10), event("deleted", 20), event("completed", 30)]
    );
    let before = v1_to_modern(vec![v1("x", 10, Some(5), Some(7))]);
    assert_eq!(
        before[0].history,
        vec![event("completed", 5), event("deleted", 7), event("created", 10)]
    );
    let between = v1_to_modern(vec![v1("x", 10, Some(20), Some(15))]);
    assert_eq!(
        between[0].history,
        vec![event("created", 10), event("deleted", 15), event("completed", 20)]
    );
    let first = v1_to_modern(vec![v1("x", 10, Some(20), Some(5))]);
    assert_eq!(
        first[0].history,
        vec![event("deleted", 5), event("created", 10), event("completed", 20)]
    );
}

#[test]
fn legacy_events_of_one_moment_keep_their_order() {
    let same = v1_to_modern(vec![v1("x", 10, Some(10), Some(10))]);
    assert_eq!(
        same[0].history,
        vec![event("created", 10), event("completed", 10), event("deleted", 10)]
    );
}

#[test]
fn items_of_today_come_before_earlier_ones() {
    let modern = vec![Item::created_at("m", at(1))];
    let legacy = || vec![v1("x", 10, None, None)];
    assert_eq!(Found::decoded(Some(modern.clone()), Some(legacy())), Found::Modern(modern.clone()));
    assert_eq!(Found::decoded(Some(modern.clone()), None), Found::Modern(modern));
    assert_eq!(Found::decoded(None, Some(legacy())), Found::Legacy(legacy()));
    assert_eq!(Found::decoded(None, None), Found::Neither);
    assert_eq!(Found::decoded(Some(vec![]), Some(vec![])), Found::Modern(vec![]));
}

#[test]
fn receiving_what_was_found() {
    let mut store = empty_store();
    store.receive("absent", Found::Absent);
    assert!(store.list_stacks().is_empty());
    store.receive("modern", Found::Modern(vec![Item::created_at("m", at(1))]));
    assert_eq!(store.load("modern"), Ok(vec![Item::created_at("m", at(1))]));
    store.receive("legacy", Found::Legacy(vec![v1("x", 10, Some(20), None)]));
    assert_eq!(
        store.load("legacy").unwrap()[0].history,
        vec![event("created", 10), event("completed", 20)]
    );
    store.receive("broken", Found::Neither);
    assert_eq!(store.load("broken"), Err(Unreadable { stack: "broken".to_string() }));
    assert!(store.journal().is_empty());
    store.receive("modern", Found::Absent);
    assert_eq!(store.load("modern").unwrap().len(), 1);
}
