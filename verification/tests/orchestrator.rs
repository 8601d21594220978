use codegraph::db::Db;
use codegraph::kinds::{EdgeKind, NodeKind};
use codegraph::model::{FileRow, NodeDraft};
use codegraph::orchestrator::{
    apply, apply_one, content_decision, content_sha256, finish_sync, forget_file, gather_parsed,
    metadata_unchanged, ContentDecision, ExtractResult, ExtractStats, LocalEdge, Parsed, PendingCall,
};
use codegraph::error::Error;

fn draft(name: &str, kind: NodeKind) -> NodeDraft {
    NodeDraft {
        kind,
        name: name.into(),
        qualified_name: None,
        start_line: 1,
        end_line: 2,
        signature: None,
        docstring: None,
        language: "rust".into(),
    }
}

fn row(path: &str, sha: &str) -> FileRow {
    FileRow {
        id: None,
        path: path.into(),
        language: "rust".into(),
        sha256: sha.into(),
        size: 10,
        mtime: 5,
        indexed_at: 0,
    }
}

fn parsed(path: &str, sha: &str) -> Parsed {
    Parsed {
        row: row(path, sha),
        result: ExtractResult {
            nodes: vec![draft("main", NodeKind::Function), draft("helper", NodeKind::Function)],
            edges: vec![
                LocalEdge { from_idx: 0, to_idx: 1, kind: EdgeKind::Contains, line: None },
                LocalEdge { from_idx: 0, to_idx: 9, kind: EdgeKind::Contains, line: None },
            ],
            pending_calls: vec![
                PendingCall { from_idx: 0, target_name: "helper".into(), line: 3 },
                PendingCall { from_idx: 7, target_name: "helper".into(), line: 4 },
                PendingCall { from_idx: 1, target_name: "nowhere".into(), line: 5 },
            ],
            imports: Vec::new(),
        },
    }
}

#[test]
fn content_hash_is_lowercase_sha256_hex() {
    assert_eq!(
        content_sha256(b""),
        "e3b0c44298fc1c149afbf4c8996fb92427ae41e4649b934ca495991b7852b855"
    );
    assert_eq!(
        content_sha256(b"abc"),
        "ba7816bf8f01cfea414140de5dae2223b00361a396177a9cb410ff61f20015ad"
    );
}

#[test]
fn apply_skips_unchanged_content() {
    let mut db = Db::new();
    let first = apply(&mut db, vec![parsed("src/main.rs", "aa")]).unwrap();
    assert_eq!(first.files, 1);
    let again = apply(&mut db, vec![parsed("src/main.rs", "aa")]).unwrap();
    assert_eq!(again.files, 0, "no new files should be indexed");
    assert_eq!(again.skipped, 1);
    assert_eq!(db.stats().unwrap().nodes, 2);
}

#[test]
fn apply_stores_nodes_edges_and_resolves_calls() {
    let mut db = Db::new();
    let stats = apply(&mut db, vec![parsed("src/main.rs", "aa")]).unwrap();
    assert_eq!(
        stats,
        ExtractStats { files: 1, nodes: 2, edges: 2, skipped: 0, resolved_calls: 1 }
    );
    let s = db.stats().unwrap();
    assert_eq!((s.files, s.nodes, s.edges), (1, 2, 2));
    let main = &db.nodes_by_name("main").unwrap()[0];
    let helper = &db.nodes_by_name("helper").unwrap()[0];
    let callees = db.callees_of(main.id).unwrap();
    assert_eq!(callees.len(), 1);
    assert_eq!(callees[0].to, helper.id);
    assert_eq!(callees[0].line, Some(3));
}

#[test]
fn changed_file_replaces_its_symbols() {
    let mut db = Db::new();
    apply(&mut db, vec![parsed("src/main.rs", "aa")]).unwrap();
    let mut p = parsed("src/main.rs", "bb");
    p.result.nodes.truncate(1);
    p.result.edges.clear();
    p.result.pending_calls.clear();
    let stats = apply(&mut db, vec![p]).unwrap();
    assert_eq!(stats.files, 1);
    let s = db.stats().unwrap();
    assert_eq!((s.files, s.nodes, s.edges), (1, 1, 0));
    assert_eq!(db.file_by_path("src/main.rs").unwrap().sha256, "bb");
}

#[test]
fn apply_one_skips_same_content() {
    let mut db = Db::new();
    let mut pending = Vec::new();
    let mut stats = ExtractStats::default();
    apply_one(&mut db, parsed("a.rs", "x"), &mut pending, &mut stats).unwrap();
    assert_eq!(pending.len(), 2);
    assert_eq!(stats.files, 1);
    apply_one(&mut db, parsed("a.rs", "x"), &mut pending, &mut stats).unwrap();
    assert_eq!(pending.len(), 2);
    assert_eq!(stats.skipped, 1);
}

#[test]
fn content_decisions() {
    let mut db = Db::new();
    db.upsert_file(&FileRow { sha256: content_sha256(b"fn main() {}"), ..row("a.rs", "") })
        .unwrap();
    assert!(metadata_unchanged(&db, "a.rs", 5, 10));
    assert!(!metadata_unchanged(&db, "a.rs", 6, 10));
    assert!(!metadata_unchanged(&db, "b.rs", 5, 10));
    // same bytes, new mtime: skipped, metadata refreshed
    assert!(matches!(content_decision(&mut db, "a.rs", b"fn main() {}", 9, 12), ContentDecision::Skip));
    let r = db.file_by_path("a.rs").unwrap();
    assert_eq!((r.mtime, r.size), (9, 12));
    // new bytes: parse with their hash
    match content_decision(&mut db, "a.rs", b"fn main() { x() }", 9, 17) {
        ContentDecision::Parse(sha) => assert_eq!(sha, content_sha256(b"fn main() { x() }")),
        ContentDecision::Skip => panic!("expected parse"),
    }
    // not UTF-8: skipped
    assert!(matches!(content_decision(&mut db, "c.rs", &[0xff, 0xfe], 1, 2), ContentDecision::Skip));
    // too large: skipped
    let big = vec![b'a'; 4 * 1024 * 1024];
    assert!(matches!(content_decision(&mut db, "d.rs", &big, 1, 2), ContentDecision::Skip));
}

#[test]
fn forget_file_drops_a_deleted_file() {
    let mut db = Db::new();
    apply(&mut db, vec![parsed("src/a.rs", "aa"), parsed("src/b.rs", "bb")]).unwrap();
    forget_file(&mut db, "src/a.rs").unwrap();
    assert!(db.file_by_path("src/a.rs").is_none());
    assert!(db.file_by_path("src/b.rs").is_some());
    assert_eq!(db.stats().unwrap().files, 1);
    assert_eq!(db.stats().unwrap().nodes, 2);
    // A path that is not stored changes nothing.
    forget_file(&mut db, "src/none.rs").unwrap();
    assert_eq!(db.stats().unwrap().files, 1);
}

#[test]
fn gather_parsed_sorts_outcomes() {
    let results = vec![
        Ok(Some(parsed("src/a.rs", "aa"))),
        Ok(None),
        Err(Error::Io("gone".into())),
        Ok(Some(parsed("src/b.rs", "bb"))),
        Ok(None),
    ];
    let (ps, skipped) = gather_parsed(results);
    let paths: Vec<&str> = ps.iter().map(|p| p.row.path.as_str()).collect();
    assert_eq!(paths, vec!["src/a.rs", "src/b.rs"]);
    assert_eq!(skipped, 2);
}

#[test]
fn finish_sync_adds_skipped_files() {
    let mut db = Db::new();
    apply(&mut db, vec![parsed("src/a.rs", "aa")]).unwrap();
    let st = finish_sync(&mut db, vec![parsed("src/a.rs", "aa"), parsed("src/b.rs", "bb")], 3).unwrap();
    assert_eq!(st.files, 1);
    assert_eq!(st.skipped, 4);
}

#[test]
fn applying_a_batch_twice_stores_nothing_new() {
    let mut db = Db::new();
    apply(&mut db, vec![parsed("src/a.rs", "aa"), parsed("src/b.rs", "bb")]).unwrap();
    let before = db.stats().unwrap();
    let again = apply(&mut db, vec![parsed("src/a.rs", "aa"), parsed("src/b.rs", "bb")]).unwrap();
    assert_eq!(
        again,
        ExtractStats { files: 0, nodes: 0, edges: 0, skipped: 2, resolved_calls: 0 }
    );
    assert_eq!(db.stats().unwrap(), before);
}

#[test]
fn synced_files_are_skipped_when_read_again() {
    let mut db = Db::new();
    let a = b"fn a() {}";
    let b = b"fn b() {}";
    apply(
        &mut db,
        vec![parsed("src/a.rs", &content_sha256(a)), parsed("src/b.rs", &content_sha256(b))],
    )
    .unwrap();
    assert!(matches!(content_decision(&mut db, "src/a.rs", a, 5, 10), ContentDecision::Skip));
    assert!(matches!(content_decision(&mut db, "src/b.rs", b, 7, 11), ContentDecision::Skip));
    assert!(metadata_unchanged(&db, "src/b.rs", 7, 11));
    assert!(matches!(content_decision(&mut db, "src/b.rs", b"fn b() { }", 8, 12), ContentDecision::Parse(_)));
}
