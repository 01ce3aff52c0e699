use udever::errors::IoError;
use udever::rule::build;
use udever::rule::PermissionPolicy;
use udever::store::RuleStore;

#[test]
fn written_record_reads_back_byte_identical() {
    let rec = build("046d", "c52b", None, PermissionPolicy::CurrentUserOnly).unwrap();
    let text = rec.render();
    let mut store = RuleStore::new();
    store.write(&rec.filename, &text);
    let back = store.read(&rec.filename).unwrap();
    assert_eq!(back, text);
}

#[test]
fn writing_twice_overwrites_in_place() {
    let rec = build(
        "046d",
        "c52b",
        Some("mouse".to_string()),
        PermissionPolicy::WorldReadWrite,
    )
    .unwrap();
    let text = rec.render();
    let mut store = RuleStore::new();
    store.write(&rec.filename, &text);
    store.write(&rec.filename, &text);
    let listing = store.list_rule_files();
    let hits = listing.iter().filter(|n| n.as_str() == rec.filename).count();
    assert_eq!(hits, 1);
    assert_eq!(listing.len(), 1);
    assert_eq!(store.read(&rec.filename).unwrap(), text);
}

#[test]
fn overwrite_replaces_contents() {
    let mut store = RuleStore::new();
    store.write("99-a.rules", "first\n");
    store.write("99-a.rules", "second\n");
    assert_eq!(store.read("99-a.rules").unwrap(), "second\n");
}

#[test]
fn listing_filters_and_sorts() {
    let mut store = RuleStore::new();
    store.write("99-zebra.rules", "z\n");
    store.write("50-printer.rules", "p\n");
    store.write("notes.txt", "not a rule\n");
    store.write("99-mouse.rules", "m\n");
    let listing = store.list_rule_files();
    assert_eq!(listing, vec!["50-printer.rules", "99-mouse.rules", "99-zebra.rules"]);
}

#[test]
fn delete_removes_the_file() {
    let mut store = RuleStore::new();
    store.write("99-a.rules", "a\n");
    store.delete("99-a.rules").unwrap();
    assert!(store.read("99-a.rules").is_none());
    assert!(store.list_rule_files().is_empty());
}

#[test]
fn delete_of_missing_file_fails() {
    let mut store = RuleStore::new();
    let r = store.delete("99-missing.rules");
    assert_eq!(r.unwrap_err(), IoError::NotFound);
}

#[test]
fn read_of_missing_file_is_none() {
    let store = RuleStore::new();
    assert!(store.read("99-a.rules").is_none());
}
