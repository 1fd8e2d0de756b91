use brainbase::Database;
use brainbase::FileInfo;

fn entry(path: &str, name: &str, is_dir: bool) -> FileInfo {
    FileInfo { path: path.to_string(), name: name.to_string(), is_dir }
}

fn listing() -> (Vec<FileInfo>, Vec<String>) {
    let entries = vec![
        entry("/vault", "vault", true),
        entry("/vault/a.md", "a.md", false),
        entry("/vault/b.txt", "b.txt", false),
    ];
    let contents = vec![String::new(), "x".to_string(), "ignored".to_string()];
    (entries, contents)
}

#[test]
fn scan_directory_with_note_and_file() {
    let mut db = Database::init("/vault".to_string());
    let (entries, contents) = listing();
    let count = db.scan_vault(&entries, &contents).unwrap();
    assert_eq!(count, 2);
    let all = db.get_all_resources();
    assert_eq!(all.len(), 2);
    let note = all.iter().find(|r| r.title == "a.md").unwrap();
    let file = all.iter().find(|r| r.title == "b.txt").unwrap();
    assert_eq!(note.resource_type, "note");
    assert_eq!(file.resource_type, "file");
    assert_eq!(note.path.as_deref(), Some("/vault/a.md"));
    assert_eq!(file.path.as_deref(), Some("/vault/b.txt"));

    let note_id = db.find_resource_id_by_path(&"/vault/a.md".to_string()).unwrap();
    let body = db.get_note_content(&note_id).unwrap();
    assert_eq!(body.content, "x");
    let file_id = db.find_resource_id_by_path(&"/vault/b.txt".to_string()).unwrap();
    let file_body = db.get_note_content(&file_id).unwrap();
    assert_eq!(file_body.content, "");
}

#[test]
fn rescan_is_idempotent() {
    let mut db = Database::init("/vault".to_string());
    let (entries, contents) = listing();
    db.scan_vault(&entries, &contents).unwrap();
    let n1 = db.resource_count();
    let mut ids1: Vec<String> = db.get_all_resources().iter().map(|r| r.id.clone()).collect();
    db.scan_vault(&entries, &contents).unwrap();
    let n2 = db.resource_count();
    let mut ids2: Vec<String> = db.get_all_resources().iter().map(|r| r.id.clone()).collect();
    assert_eq!(n1, n2);
    ids1.sort();
    ids2.sort();
    assert_eq!(ids1, ids2);
}

#[test]
fn rescan_preserves_identity_across_retitle() {
    let mut db = Database::init("/vault".to_string());
    let (entries, contents) = listing();
    db.scan_vault(&entries, &contents).unwrap();
    let id = db.find_resource_id_by_path(&"/vault/a.md".to_string()).unwrap();
    db.update_note(&id, &"My custom title".to_string(), &"x".to_string()).unwrap();
    db.scan_vault(&entries, &contents).unwrap();
    let id_after = db.find_resource_id_by_path(&"/vault/a.md".to_string()).unwrap();
    assert_eq!(id, id_after);
    // the custom title survives the rescan: upserts refresh content only
    let body = db.get_note_content(&id).unwrap();
    assert_eq!(body.title, "My custom title");
}

#[test]
fn rescan_updates_content_and_keeps_type_and_path() {
    let mut db = Database::init("/vault".to_string());
    let (entries, mut contents) = listing();
    db.scan_vault(&entries, &contents).unwrap();
    let id = db.find_resource_id_by_path(&"/vault/a.md".to_string()).unwrap();
    contents[1] = "fresh body".to_string();
    db.scan_vault(&entries, &contents).unwrap();
    let body = db.get_note_content(&id).unwrap();
    assert_eq!(body.content, "fresh body");
    let all = db.get_all_resources();
    let note = all.iter().find(|r| r.id == id).unwrap();
    assert_eq!(note.resource_type, "note");
    assert_eq!(note.path.as_deref(), Some("/vault/a.md"));
}

#[test]
fn scan_with_given_identifiers_uses_them_for_new_entries() {
    let mut db = Database::init("/vault".to_string());
    let entries = vec![entry("/vault/n.md", "n.md", false)];
    let contents = vec!["hello".to_string()];
    let ids = vec!["fixed-id".to_string()];
    let now = "2024-01-01T00:00:00+00:00".to_string();
    let count = db.scan_vault_with(&entries, &contents, &ids, &now);
    assert_eq!(count, 1);
    let id = db.find_resource_id_by_path(&"/vault/n.md".to_string()).unwrap();
    assert_eq!(id, "fixed-id");
}

#[test]
fn directories_are_skipped() {
    let mut db = Database::init("/vault".to_string());
    let entries = vec![entry("/vault/sub", "sub", true)];
    let contents = vec![String::new()];
    let count = db.scan_vault(&entries, &contents).unwrap();
    assert_eq!(count, 0);
    assert_eq!(db.resource_count(), 0);
}

#[test]
fn note_classification_is_case_sensitive_suffix() {
    let mut db = Database::init("/vault".to_string());
    let entries = vec![
        entry("/vault/a.MD", "a.MD", false),
        entry("/vault/b.md", "b.md", false),
        entry("/vault/md", "md", false),
    ];
    let contents = vec!["1".to_string(), "2".to_string(), "3".to_string()];
    db.scan_vault(&entries, &contents).unwrap();
    let all = db.get_all_resources();
    assert_eq!(all.iter().find(|r| r.title == "a.MD").unwrap().resource_type, "file");
    assert_eq!(all.iter().find(|r| r.title == "b.md").unwrap().resource_type, "note");
    assert_eq!(all.iter().find(|r| r.title == "md").unwrap().resource_type, "file");
}
