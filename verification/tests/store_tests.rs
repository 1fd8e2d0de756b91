use brainbase::Database;
use brainbase::Error;
use brainbase::Kind;

#[test]
fn upsert_inserts_then_updates_content_only() {
    let mut db = Database::init("/vault".to_string());
    let t1 = "2024-01-01T00:00:00+00:00".to_string();
    db.upsert_resource(
        "r1".to_string(),
        Kind::Note,
        Some("/vault/a.md".to_string()),
        "a.md".to_string(),
        "first".to_string(),
        None,
        &t1,
    );
    assert_eq!(db.resource_count(), 1);
    let t2 = "2024-02-02T00:00:00+00:00".to_string();
    db.upsert_resource(
        "r1".to_string(),
        Kind::File,
        Some("/elsewhere".to_string()),
        "other title".to_string(),
        "second".to_string(),
        Some("{}".to_string()),
        &t2,
    );
    assert_eq!(db.resource_count(), 1);
    let all = db.get_all_resources();
    assert_eq!(all[0].id, "r1");
    assert_eq!(all[0].title, "a.md");
    assert_eq!(all[0].resource_type, "note");
    assert_eq!(all[0].path.as_deref(), Some("/vault/a.md"));
    assert_eq!(all[0].extra_metadata, None);
    let body = db.get_note_content(&"r1".to_string()).unwrap();
    assert_eq!(body.content, "second");
}

#[test]
fn find_by_path_absent_is_none_not_error() {
    let db = Database::init("/vault".to_string());
    assert!(db.find_resource_id_by_path(&"/nowhere".to_string()).is_none());
}

#[test]
fn get_note_content_missing_is_not_found() {
    let db = Database::init("/vault".to_string());
    assert_eq!(db.get_note_content(&"ghost".to_string()).unwrap_err(), Error::NotFound);
}

#[test]
fn listing_is_most_recently_touched_first() {
    let mut db = Database::init("/vault".to_string());
    let a = db.create_note(&"a".to_string(), &"".to_string()).unwrap();
    let b = db.create_note(&"b".to_string(), &"".to_string()).unwrap();
    let all = db.get_all_resources();
    assert_eq!(all[0].id, b);
    assert_eq!(all[1].id, a);
    db.update_note(&a, &"a".to_string(), &"touched".to_string()).unwrap();
    let all = db.get_all_resources();
    assert_eq!(all[0].id, a);
    assert_eq!(all[1].id, b);
}

#[test]
fn delete_cascades_exactly_the_touching_links() {
    let mut db = Database::init("/vault".to_string());
    let a = db.create_task(&"a".to_string()).unwrap();
    let b = db.create_task(&"b".to_string()).unwrap();
    let c = db.create_task(&"c".to_string()).unwrap();
    db.insert_link(a.clone(), b.clone(), "wikilink".to_string()).unwrap();
    db.insert_link(b.clone(), c.clone(), "wikilink".to_string()).unwrap();
    db.insert_link(a.clone(), c.clone(), "reference".to_string()).unwrap();
    db.delete_resource(&b);
    assert_eq!(db.resource_count(), 2);
    let g = db.get_graph_data();
    assert_eq!(g.edges.len(), 1);
    assert_eq!(g.edges[0].source, a);
    assert_eq!(g.edges[0].target, c);
}

#[test]
fn delete_of_absent_identifier_is_tolerated() {
    let mut db = Database::init("/vault".to_string());
    let a = db.create_task(&"a".to_string()).unwrap();
    db.delete_resource(&"ghost".to_string());
    assert_eq!(db.resource_count(), 1);
    assert_eq!(db.get_note_content(&a).unwrap().title, "a");
}

#[test]
fn link_endpoints_must_exist() {
    let mut db = Database::init("/vault".to_string());
    let a = db.create_task(&"a".to_string()).unwrap();
    let r = db.insert_link(a.clone(), "ghost".to_string(), "wikilink".to_string());
    assert_eq!(r.unwrap_err(), Error::StorageFailure);
    assert_eq!(db.get_graph_data().edges.len(), 0);
}

#[test]
fn duplicate_link_pair_is_a_constraint_violation() {
    let mut db = Database::init("/vault".to_string());
    let a = db.create_task(&"a".to_string()).unwrap();
    let b = db.create_task(&"b".to_string()).unwrap();
    db.insert_link(a.clone(), b.clone(), "wikilink".to_string()).unwrap();
    let r = db.insert_link(a.clone(), b.clone(), "reference".to_string());
    assert_eq!(r.unwrap_err(), Error::StorageFailure);
    // the reverse direction is a different ordered pair
    db.insert_link(b.clone(), a.clone(), "wikilink".to_string()).unwrap();
    assert_eq!(db.get_graph_data().edges.len(), 2);
}

#[test]
fn graph_mirrors_resources_and_links_exactly() {
    let mut db = Database::init("/vault".to_string());
    let n = db.create_note(&"note one".to_string(), &"body".to_string()).unwrap();
    let l = db.create_link(&"link one".to_string(), &"https://example.org".to_string()).unwrap();
    let t = db.create_task(&"task one".to_string()).unwrap();
    db.insert_link(n.clone(), l.clone(), "reference".to_string()).unwrap();
    db.insert_link(t.clone(), n.clone(), "parent".to_string()).unwrap();
    let g = db.get_graph_data();
    assert_eq!(g.nodes.len(), 3);
    let gn = g.nodes.iter().find(|x| x.id == n).unwrap();
    assert_eq!(gn.label, "note one");
    assert_eq!(gn.node_type, "note");
    let gl = g.nodes.iter().find(|x| x.id == l).unwrap();
    assert_eq!(gl.label, "link one");
    assert_eq!(gl.node_type, "link");
    let gt = g.nodes.iter().find(|x| x.id == t).unwrap();
    assert_eq!(gt.label, "task one");
    assert_eq!(gt.node_type, "task");
    assert_eq!(g.edges.len(), 2);
    assert!(g.edges.iter().any(|e| e.source == n && e.target == l));
    assert!(g.edges.iter().any(|e| e.source == t && e.target == n));
}

#[test]
fn get_resource_path_distinguishes_absent_row_from_absent_path() {
    let mut db = Database::init("/vault".to_string());
    let t = db.create_task(&"t".to_string()).unwrap();
    let n = db.create_note(&"n".to_string(), &"".to_string()).unwrap();
    assert_eq!(db.get_resource_path(&t).unwrap(), None);
    assert_eq!(db.get_resource_path(&n).unwrap().as_deref(), Some("/vault/n.md"));
    assert_eq!(db.get_resource_path(&"ghost".to_string()).unwrap_err(), Error::NotFound);
}
