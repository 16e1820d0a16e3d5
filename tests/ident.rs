use wikimem::{file_name, generate_timestamp_id, id_from_file_name, slugify, uniquify};

fn ids(list: &[&str]) -> Vec<String> {
    list.iter().map(|s| s.to_string()).collect()
}

#[test]
fn slug_of_plain_title() {
    assert_eq!(slugify("Shopping List"), "shopping-list");
    assert_eq!(slugify("Notes"), "notes");
}

#[test]
fn slug_collapses_and_trims_separators() {
    assert_eq!(slugify("  Hello,  World!! "), "hello-world");
    assert_eq!(slugify("a--b__c"), "a-b-c");
    assert_eq!(slugify("-x-"), "x");
}

#[test]
fn slug_treats_non_ascii_as_separator() {
    assert_eq!(slugify("Café au lait"), "caf-au-lait");
}

#[test]
fn slug_of_nothing_usable_is_memory() {
    assert_eq!(slugify(""), "memory");
    assert_eq!(slugify("日本語"), "memory");
    assert_eq!(slugify("!!! ---"), "memory");
}

#[test]
fn slugify_is_idempotent() {
    for x in ["Shopping List", "  Hello,  World!! ", "日本語", "a--b", "ABC123", "memory", ""] {
        let once = slugify(x);
        assert_eq!(slugify(&once), once);
    }
}

#[test]
fn uniquify_keeps_free_base() {
    assert_eq!(uniquify(&ids(&[]), "notes"), "notes");
    assert_eq!(uniquify(&ids(&["other"]), "notes"), "notes");
}

#[test]
fn uniquify_probes_suffixes() {
    assert_eq!(uniquify(&ids(&["notes"]), "notes"), "notes-1");
    assert_eq!(uniquify(&ids(&["notes-1", "notes"]), "notes"), "notes-2");
    assert_eq!(uniquify(&ids(&["notes", "notes-2"]), "notes"), "notes-1");
}

#[test]
fn uniquify_never_returns_taken_id() {
    let mut existing = Vec::new();
    for _ in 0..15 {
        let id = uniquify(&existing, "a");
        assert!(!existing.contains(&id));
        existing.push(id);
    }
    assert_eq!(existing[0], "a");
    assert_eq!(existing[14], "a-14");
}

#[test]
fn timestamp_id_uses_decimal_millis() {
    assert_eq!(generate_timestamp_id(&ids(&[]), 1700000000123), "1700000000123");
    assert_eq!(generate_timestamp_id(&ids(&[]), 0), "0");
    assert_eq!(
        generate_timestamp_id(&ids(&["1700000000123"]), 1700000000123),
        "1700000000123-1"
    );
}

#[test]
fn file_names_round_trip() {
    assert_eq!(file_name("abc"), "abc.md");
    assert_eq!(id_from_file_name("abc.md"), Some("abc".to_string()));
    assert_eq!(id_from_file_name(&file_name("notes-1")), Some("notes-1".to_string()));
}

#[test]
fn non_memory_file_names() {
    assert_eq!(id_from_file_name("notes.txt"), None);
    assert_eq!(id_from_file_name(".md"), None);
    assert_eq!(id_from_file_name("md"), None);
    assert_eq!(id_from_file_name("a.MD"), None);
    assert_eq!(id_from_file_name("a.b.md"), Some("a.b".to_string()));
}
