use brainbase::Database;
use brainbase::Error;
use brainbase::is_note_file;
use brainbase::sanitize_file_name;

#[test]
fn note_round_trip() {
    let mut db = Database::init("/vault".to_string());
    let id = db.create_note(&"Hello World".to_string(), &"body".to_string()).unwrap();
    let got = db.get_note_content(&id).unwrap();
    assert_eq!(got.id, id);
    assert_eq!(got.title, "Hello World");
    assert_eq!(got.content, "body");
    assert_eq!(db.note_path(&"Hello World".to_string()), "/vault/Hello World.md");
    assert_eq!(db.get_resource_path(&id).unwrap().as_deref(), Some("/vault/Hello World.md"));
}

#[test]
fn note_deletion_tolerates_missing_backing_file() {
    // no file is ever written here, as when the backing file was
    // removed externally: the row must still go away cleanly
    let mut db = Database::init("/vault".to_string());
    let id = db.create_note(&"gone".to_string(), &"body".to_string()).unwrap();
    let r = db.delete_note(&id);
    assert!(r.is_ok());
    assert_eq!(db.get_note_content(&id).unwrap_err(), Error::NotFound);
    assert_eq!(db.resource_count(), 0);
}

#[test]
fn update_note_replaces_title_and_content() {
    let mut db = Database::init("/vault".to_string());
    let id = db.create_note(&"old title".to_string(), &"old body".to_string()).unwrap();
    db.update_note(&id, &"new title".to_string(), &"new body".to_string()).unwrap();
    let got = db.get_note_content(&id).unwrap();
    assert_eq!(got.title, "new title");
    assert_eq!(got.content, "new body");
}

#[test]
fn update_note_of_absent_identifier_is_not_found() {
    let mut db = Database::init("/vault".to_string());
    let r = db.update_note(&"ghost".to_string(), &"t".to_string(), &"c".to_string());
    assert_eq!(r.unwrap_err(), Error::NotFound);
}

#[test]
fn title_sanitization_keeps_alphanumerics_and_spaces() {
    assert_eq!(sanitize_file_name("Hello World"), "Hello World.md");
    assert_eq!(sanitize_file_name("  a!b c*  "), "ab c.md");
    assert_eq!(sanitize_file_name("slash/dot.колон:"), "slashdotколон.md");
    assert_eq!(sanitize_file_name("***"), ".md");
    assert_eq!(sanitize_file_name(""), ".md");
}

#[test]
fn note_name_classification() {
    assert!(is_note_file("a.md"));
    assert!(is_note_file(".md"));
    assert!(!is_note_file("md"));
    assert!(!is_note_file("a.MD"));
    assert!(!is_note_file("amd"));
    assert!(is_note_file("weird.name.md"));
}

#[test]
fn link_metadata_holds_the_json_encoded_url() {
    let mut db = Database::init("/vault".to_string());
    let id = db.create_link(&"site".to_string(), &"https://example.org".to_string()).unwrap();
    let all = db.get_all_resources();
    let row = all.iter().find(|r| r.id == id).unwrap();
    assert_eq!(row.extra_metadata.as_deref(), Some("{\"url\":\"https://example.org\"}"));
    assert_eq!(row.resource_type, "link");
    assert_eq!(row.path, None);
}

#[test]
fn link_metadata_escapes_the_url() {
    let mut db = Database::init("/vault".to_string());
    let id = db.create_link(&"q".to_string(), &"a\"b\\c".to_string()).unwrap();
    let all = db.get_all_resources();
    let row = all.iter().find(|r| r.id == id).unwrap();
    assert_eq!(row.extra_metadata.as_deref(), Some("{\"url\":\"a\\\"b\\\\c\"}"));
}

#[test]
fn task_metadata_holds_the_initial_status() {
    let mut db = Database::init("/vault".to_string());
    let id = db.create_task(&"chore".to_string()).unwrap();
    let all = db.get_all_resources();
    let row = all.iter().find(|r| r.id == id).unwrap();
    assert_eq!(row.extra_metadata.as_deref(), Some("{\"status\":\"todo\"}"));
    assert_eq!(row.resource_type, "task");
}

#[test]
fn created_identifiers_are_distinct() {
    let mut db = Database::init("/vault".to_string());
    let a = db.create_note(&"one".to_string(), &"".to_string()).unwrap();
    let b = db.create_note(&"two".to_string(), &"".to_string()).unwrap();
    assert_ne!(a, b);
    assert_eq!(db.resource_count(), 2);
}
