use wikimem::{
    list_memories, memory_detail, plan_save, resolve_title, search_memories, MemoryChangedPayload,
    MemoryFile, SaveMemoryPayload,
};

fn file(id: &str, body: &str, updated_at: i64) -> MemoryFile {
    MemoryFile { id: id.to_string(), body: body.to_string(), updated_at }
}

fn payload(id: Option<&str>, title: &str, body: &str) -> SaveMemoryPayload {
    SaveMemoryPayload {
        id: id.map(|s| s.to_string()),
        title: title.to_string(),
        body: body.to_string(),
    }
}

#[test]
fn save_blank_body_gets_heading() {
    let (id, body) = plan_save(payload(None, "Shopping List", ""), &Vec::new());
    assert_eq!(id, "shopping-list");
    assert_eq!(body, "# Shopping List\n\n");
    let detail = memory_detail(id, body, 10);
    assert_eq!(detail.title, "Shopping List");
    assert_eq!(detail.body, "# Shopping List\n\n");
    assert_eq!(detail.updated_at, 10);
}

#[test]
fn save_two_with_same_title_gets_distinct_ids() {
    let mut existing = Vec::new();
    let (first, _) = plan_save(payload(None, "Notes", "a"), &existing);
    existing.push(first.clone());
    let (second, _) = plan_save(payload(None, "Notes", "b"), &existing);
    assert_eq!(first, "notes");
    assert_eq!(second, "notes-1");
}

#[test]
fn save_then_load_round_trip() {
    let (id, body) = plan_save(payload(None, "T", "B"), &Vec::new());
    let saved = memory_detail(id.clone(), body.clone(), 1);
    let loaded = memory_detail(id, body, 2);
    assert_eq!(saved.id, loaded.id);
    assert_eq!(saved.title, loaded.title);
    assert_eq!(saved.body, loaded.body);
    assert_eq!(saved.id, "t");
    assert_eq!(saved.body, "B");
    assert_eq!(saved.title, "B");
}

#[test]
fn save_with_id_overwrites_in_place() {
    let existing = vec!["keep-me".to_string()];
    let (id, body) = plan_save(payload(Some("keep-me"), "Other", "text"), &existing);
    assert_eq!(id, "keep-me");
    assert_eq!(body, "text");
}

#[test]
fn save_blank_title_and_body() {
    let (id, body) = plan_save(payload(None, "   ", " \n "), &Vec::new());
    assert_eq!(id, "untitled-memory");
    assert_eq!(body, "# Untitled memory\n\n");
}

#[test]
fn resolve_title_trims_or_falls_back() {
    assert_eq!(resolve_title("  Notes "), "Notes");
    assert_eq!(resolve_title("\t"), "Untitled memory");
}

#[test]
fn list_is_newest_first() {
    let files = vec![
        file("one", "# One\n", 100),
        file("three", "# Three\n", 300),
        file("two", "second\n", 200),
    ];
    let listed = list_memories(&files);
    let ids: Vec<&str> = listed.iter().map(|s| s.id.as_str()).collect();
    assert_eq!(ids, vec!["three", "two", "one"]);
    assert_eq!(listed[0].title, "Three");
    assert_eq!(listed[1].title, "second");
    assert_eq!(listed[2].updated_at, 100);
}

#[test]
fn list_of_empty_store() {
    assert!(list_memories(&Vec::new()).is_empty());
}

#[test]
fn search_blank_query_is_empty() {
    let files = vec![file("a", "anything", 1), file("b", "   ", 2)];
    assert!(search_memories("", &files).is_empty());
    assert!(search_memories("   ", &files).is_empty());
}

#[test]
fn search_body_match_shows_line() {
    let files = vec![
        file("shopping", "# Shopping\n\nbuy milk and eggs\nbread", 5),
        file("other", "# Other\nnothing", 6),
    ];
    let found = search_memories("milk", &files);
    assert_eq!(found.len(), 1);
    assert_eq!(found[0].id, "shopping");
    assert_eq!(found[0].title, "Shopping");
    assert_eq!(found[0].snippet, "buy milk and eggs");
}

#[test]
fn search_title_match_shows_title() {
    let files = vec![file("milk", "# Milk Run\n\nstore list", 5)];
    let found = search_memories("  MILK ", &files);
    assert_eq!(found.len(), 1);
    assert_eq!(found[0].snippet, "Milk Run");
}

#[test]
fn search_results_are_newest_first() {
    let files = vec![
        file("t1", "milk one", 1),
        file("t3", "milk three", 3),
        file("none", "water", 4),
        file("t2", "milk two", 2),
    ];
    let found = search_memories("milk", &files);
    let ids: Vec<&str> = found.iter().map(|r| r.id.as_str()).collect();
    assert_eq!(ids, vec!["t3", "t2", "t1"]);
}

#[test]
fn change_payloads() {
    let saved = MemoryChangedPayload::saved("a".to_string());
    assert_eq!(saved.action, "saved");
    assert_eq!(saved.id, Some("a".to_string()));
    let deleted = MemoryChangedPayload::deleted("b".to_string());
    assert_eq!(deleted.action, "deleted");
    assert_eq!(deleted.id, Some("b".to_string()));
}

#[test]
fn update_keeps_fields_left_out() {
    let existing = memory_detail("groceries".to_string(), "# Groceries\n\nmilk".to_string(), 7);
    let p = wikimem::update_payload(existing, None, Some("bread".to_string()));
    assert_eq!(p.id, Some("groceries".to_string()));
    assert_eq!(p.title, "Groceries");
    assert_eq!(p.body, "bread");
}

#[test]
fn update_replaces_given_fields() {
    let existing = memory_detail("a".to_string(), "old".to_string(), 7);
    let p = wikimem::update_payload(existing, Some("New".to_string()), None);
    assert_eq!(p.id, Some("a".to_string()));
    assert_eq!(p.title, "New");
    assert_eq!(p.body, "old");
}
