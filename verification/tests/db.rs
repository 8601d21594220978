use codegraph::db::{Db, SCHEMA_VERSION};
use codegraph::kinds::{EdgeKind, NodeKind};
use codegraph::model::{EdgeDraft, FileRow, NodeDraft};

fn tmp_db() -> Db {
    Db::new()
}

fn mk_file(path: &str) -> FileRow {
    FileRow {
        id: None,
        path: path.into(),
        language: "typescript".into(),
        sha256: "deadbeef".into(),
        size: 100,
        mtime: 0,
        indexed_at: 0,
    }
}

fn mk_node(name: &str, kind: NodeKind) -> NodeDraft {
    NodeDraft {
        kind,
        name: name.into(),
        qualified_name: Some(format!("mod::{name}")),
        start_line: 1,
        end_line: 10,
        signature: Some(format!("fn {name}()")),
        docstring: None,
        language: "typescript".into(),
    }
}

#[test]
fn schema_version_set() {
    let db = tmp_db();
    assert_eq!(db.schema_version().unwrap(), SCHEMA_VERSION);
}

#[test]
fn upsert_file_idempotent() {
    let mut db = tmp_db();
    let id1 = db.upsert_file(&mk_file("src/foo.ts")).unwrap();
    let id2 = db.upsert_file(&mk_file("src/foo.ts")).unwrap();
    assert_eq!(id1, id2);
    assert_eq!(db.stats().unwrap().files, 1);
}

#[test]
fn nodes_edges_roundtrip() {
    let mut db = tmp_db();
    let fid = db.upsert_file(&mk_file("src/a.ts")).unwrap();
    let ids = db
        .insert_nodes(
            fid,
            &[
                mk_node("foo", NodeKind::Function),
                mk_node("bar", NodeKind::Function),
            ],
        )
        .unwrap();
    assert_eq!(ids.len(), 2);

    db.insert_edges(&[EdgeDraft {
        from_id: ids[0],
        to_id: ids[1],
        kind: EdgeKind::Calls,
        file_id: Some(fid),
        line: Some(5),
        source: None,
    }])
    .unwrap();

    let callees = db.callees_of(ids[0]).unwrap();
    assert_eq!(callees.len(), 1);
    assert_eq!(callees[0].to, ids[1]);

    let callers = db.callers_of(ids[1]).unwrap();
    assert_eq!(callers.len(), 1);

    let stats = db.stats().unwrap();
    assert_eq!(stats.files, 1);
    assert_eq!(stats.nodes, 2);
    assert_eq!(stats.edges, 1);
}

#[test]
fn fts_search() {
    let mut db = tmp_db();
    let fid = db.upsert_file(&mk_file("src/a.ts")).unwrap();
    db.insert_nodes(
        fid,
        &[
            mk_node("processUser", NodeKind::Function),
            mk_node("formatEmail", NodeKind::Function),
            mk_node("randomThing", NodeKind::Variable),
        ],
    )
    .unwrap();

    let hits = db.search_nodes("process", 10).unwrap();
    assert_eq!(hits.len(), 1);
    assert_eq!(hits[0].name, "processUser");

    let hits = db.search_nodes("format", 10).unwrap();
    assert_eq!(hits.len(), 1);
    assert_eq!(hits[0].name, "formatEmail");
}

#[test]
fn delete_cascade() {
    let mut db = tmp_db();
    let fid = db.upsert_file(&mk_file("src/a.ts")).unwrap();
    let ids = db
        .insert_nodes(fid, &[mk_node("foo", NodeKind::Function)])
        .unwrap();
    db.insert_edges(&[EdgeDraft {
        from_id: ids[0],
        to_id: ids[0],
        kind: EdgeKind::Calls,
        file_id: Some(fid),
        line: None,
        source: None,
    }])
    .unwrap();

    db.delete_file_cascade(fid).unwrap();
    let s = db.stats().unwrap();
    assert_eq!(s.files, 0);
    assert_eq!(s.nodes, 0);
    assert_eq!(s.edges, 0);
}

#[test]
fn nodes_by_name_returns_all() {
    let mut db = tmp_db();
    let fid = db.upsert_file(&mk_file("src/a.ts")).unwrap();
    db.insert_nodes(
        fid,
        &[
            mk_node("foo", NodeKind::Function),
            mk_node("foo", NodeKind::Variable),
        ],
    )
    .unwrap();
    assert_eq!(db.nodes_by_name("foo").unwrap().len(), 2);
}

#[test]
fn search_is_case_insensitive_and_limited() {
    let mut db = tmp_db();
    let fid = db.upsert_file(&mk_file("src/a.ts")).unwrap();
    db.insert_nodes(
        fid,
        &[
            mk_node("ProcessUser", NodeKind::Function),
            mk_node("processOrder", NodeKind::Function),
            mk_node("other", NodeKind::Function),
        ],
    )
    .unwrap();
    assert_eq!(db.search_nodes("PROCESS", 10).unwrap().len(), 2);
    let one = db.search_nodes("process", 1).unwrap();
    assert_eq!(one.len(), 1);
    assert_eq!(one[0].name, "ProcessUser");
    assert_eq!(db.search_nodes("", 10).unwrap().len(), 0);
    // the signature is searched too
    assert_eq!(db.search_nodes("fn other", 10).unwrap().len(), 1);
}

#[test]
fn insert_nodes_unknown_file_fails() {
    let mut db = tmp_db();
    assert!(db.insert_nodes(42, &[mk_node("foo", NodeKind::Function)]).is_err());
    assert_eq!(db.node_count(), 0);
}

#[test]
fn insert_edges_unknown_file_fails_and_stores_nothing() {
    let mut db = tmp_db();
    let fid = db.upsert_file(&mk_file("src/a.ts")).unwrap();
    let ids = db.insert_nodes(fid, &[mk_node("foo", NodeKind::Function)]).unwrap();
    let r = db.insert_edges(&[
        EdgeDraft { from_id: ids[0], to_id: ids[0], kind: EdgeKind::Calls, file_id: Some(fid), line: None, source: None },
        EdgeDraft { from_id: ids[0], to_id: ids[0], kind: EdgeKind::Calls, file_id: Some(fid + 7), line: None, source: None },
    ]);
    assert!(r.is_err());
    assert_eq!(db.stats().unwrap().edges, 0);
}

#[test]
fn upsert_replaces_row_and_keeps_id() {
    let mut db = tmp_db();
    let id1 = db.upsert_file(&mk_file("src/a.ts")).unwrap();
    let id2 = db.upsert_file(&mk_file("src/b.ts")).unwrap();
    assert_ne!(id1, id2);
    let mut f = mk_file("src/a.ts");
    f.sha256 = "cafe".into();
    assert_eq!(db.upsert_file(&f).unwrap(), id1);
    let row = db.file_by_path("src/a.ts").unwrap();
    assert_eq!(row.sha256, "cafe");
    assert_eq!(row.id, Some(id1));
    assert!(db.file_by_path("src/c.ts").is_none());
}

#[test]
fn node_lookup_and_metadata_update() {
    let mut db = tmp_db();
    let fid = db.upsert_file(&mk_file("src/a.ts")).unwrap();
    let ids = db.insert_nodes(fid, &[mk_node("foo", NodeKind::Function)]).unwrap();
    let n = db.node_by_id(ids[0]).unwrap().unwrap();
    assert_eq!(n.name, "foo");
    assert_eq!(n.file, "src/a.ts");
    assert!(db.node_by_id(ids[0] + 100).unwrap().is_none());
    db.update_file_metadata("src/a.ts", 77, 5).unwrap();
    let row = db.file_by_path("src/a.ts").unwrap();
    assert_eq!((row.mtime, row.size), (77, 5));
    db.purge().unwrap();
    assert_eq!(db.stats().unwrap().files, 0);
}

#[test]
fn file_paths_in_storage_order() {
    let mut db = tmp_db();
    db.upsert_file(&mk_file("src/b.ts")).unwrap();
    db.upsert_file(&mk_file("src/a.ts")).unwrap();
    db.upsert_file(&mk_file("src/b.ts")).unwrap();
    assert_eq!(db.file_paths(), vec!["src/b.ts".to_string(), "src/a.ts".to_string()]);
}

const ROOT: &str = "/tmp/workspace";

fn file_at(path: &str, sha: &str) -> FileRow {
    FileRow {
        id: None,
        path: path.into(),
        language: "typescript".into(),
        sha256: sha.into(),
        size: 100,
        mtime: 0,
        indexed_at: 0,
    }
}

#[test]
fn files_under_resolves_relative_prefix_against_workspace_root() {
    let mut db = Db::new_in(ROOT);
    let file_path = format!("{ROOT}/src/foo.ts");
    db.upsert_file(&file_at(&file_path, "deadbeef")).unwrap();
    db.upsert_file(&file_at(&format!("{ROOT}/lib/bar.ts"), "cafebabe")).unwrap();

    assert_eq!(db.files_under("./src/").unwrap().len(), 1);
    assert_eq!(db.files_under("src").unwrap().len(), 1);
    assert_eq!(db.files_under(&file_path).unwrap()[0].path, file_path);
    assert_eq!(db.files_under("lib").unwrap().len(), 1);
    assert_eq!(db.files_under("").unwrap().len(), 2);
}

#[test]
fn files_under_matches_backslash_stored_paths() {
    let mut db = Db::new_in(ROOT);
    let stored = format!("{}\\src\\foo.ts", ROOT);
    db.upsert_file(&file_at(&stored, "deadbeef")).unwrap();

    assert_eq!(db.files_under("src").unwrap().len(), 1);
    assert_eq!(db.files_under("./src/").unwrap().len(), 1);
    assert_eq!(db.files_under("src/foo.ts").unwrap()[0].path.as_str(), stored);
}

#[test]
fn nodes_under_prefix_and_edges_between() {
    let mut db = Db::new_in(ROOT);
    let fid_a = db.upsert_file(&file_at(&format!("{ROOT}/src/a.ts"), "a")).unwrap();
    let fid_b = db.upsert_file(&file_at(&format!("{ROOT}/lib/b.ts"), "b")).unwrap();
    let ids_a = db
        .insert_nodes(fid_a, &[mk_node("foo", NodeKind::Function), mk_node("bar", NodeKind::Function)])
        .unwrap();
    let ids_b = db.insert_nodes(fid_b, &[mk_node("baz", NodeKind::Function)]).unwrap();
    db.insert_edges(&[
        EdgeDraft {
            from_id: ids_a[0],
            to_id: ids_a[1],
            kind: EdgeKind::Calls,
            file_id: Some(fid_a),
            line: Some(1),
            source: None,
        },
        EdgeDraft {
            from_id: ids_a[0],
            to_id: ids_b[0],
            kind: EdgeKind::Calls,
            file_id: Some(fid_a),
            line: Some(2),
            source: None,
        },
    ])
    .unwrap();

    let under_src = db.nodes_under_prefix("src", 100).unwrap();
    assert_eq!(under_src.len(), 2);

    let by_files = db.nodes_by_file_ids(&[fid_a], 100).unwrap();
    assert_eq!(by_files.len(), 2);

    let node_ids: Vec<i64> = under_src.iter().map(|n| n.id).collect();
    let internal = db.edges_between(&node_ids, &[EdgeKind::Calls], 100).unwrap();
    assert_eq!(internal.len(), 1);
    assert_eq!(internal[0].from, ids_a[0]);
    assert_eq!(internal[0].to, ids_a[1]);
}

#[test]
fn prefixes_match_whole_components_and_limits_apply() {
    let mut db = Db::new_in("C:\\ws\\");
    let fid = db.upsert_file(&file_at("C:\\ws\\src\\a.ts", "a")).unwrap();
    db.upsert_file(&file_at("C:\\ws\\srcx\\b.ts", "b")).unwrap();
    assert_eq!(db.files_under("src").unwrap().len(), 1);
    assert_eq!(db.files_under("C:/ws/srcx").unwrap().len(), 1);
    assert_eq!(db.files_under("./").unwrap().len(), 2);
    db.insert_nodes(fid, &[mk_node("a", NodeKind::Function), mk_node("b", NodeKind::Function)]).unwrap();
    assert_eq!(db.nodes_under_prefix("src/", 1).unwrap().len(), 1);
    assert_eq!(db.nodes_by_file_ids(&[fid], 1).unwrap().len(), 1);
    assert_eq!(db.nodes_by_file_ids(&[], 10).unwrap().len(), 0);
}
