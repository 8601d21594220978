use codegraph::context::{build_response, render_markdown, source_slice, ContextRequest, Format, SourceText};
use codegraph::db::Db;
use codegraph::graph::Traversal;
use codegraph::kinds::{EdgeKind, NodeKind};
use codegraph::model::{EdgeDraft, FileRow, NodeDraft};
use codegraph::resolve::{PendingCallRow, Resolver};

fn file(path: &str) -> FileRow {
    FileRow {
        id: None,
        path: path.into(),
        language: "rust".into(),
        sha256: "x".into(),
        size: 1,
        mtime: 0,
        indexed_at: 0,
    }
}

fn node(name: &str, kind: NodeKind, line: u32) -> NodeDraft {
    NodeDraft {
        kind,
        name: name.into(),
        qualified_name: None,
        start_line: line,
        end_line: line + 1,
        signature: Some(format!("fn {name}()")),
        docstring: None,
        language: "rust".into(),
    }
}

fn call(from: i64, to: i64, fid: i64) -> EdgeDraft {
    EdgeDraft { from_id: from, to_id: to, kind: EdgeKind::Calls, file_id: Some(fid), line: None, source: None }
}

/// a -> b -> c -> d, and a -> c
fn chain() -> (Db, Vec<i64>) {
    let mut db = Db::new();
    let fid = db.upsert_file(&file("src/lib.rs")).unwrap();
    let ids = db
        .insert_nodes(
            fid,
            &[
                node("a", NodeKind::Function, 1),
                node("b", NodeKind::Function, 3),
                node("c", NodeKind::Method, 5),
                node("d", NodeKind::Function, 7),
            ],
        )
        .unwrap();
    db.insert_edges(&[
        call(ids[0], ids[1], fid),
        call(ids[1], ids[2], fid),
        call(ids[2], ids[3], fid),
        call(ids[0], ids[2], fid),
    ])
    .unwrap();
    (db, ids)
}

#[test]
fn callees_by_depth() {
    let (db, ids) = chain();
    let t = Traversal::new(&db);
    let one = t.callees(ids[0], 1).unwrap();
    let names: Vec<&str> = one.nodes.iter().map(|n| n.name.as_str()).collect();
    assert_eq!(names, vec!["b", "c"]);
    assert_eq!(one.depths, vec![1, 1]);
    let two = t.callees(ids[0], 2).unwrap();
    let names: Vec<&str> = two.nodes.iter().map(|n| n.name.as_str()).collect();
    assert_eq!(names, vec!["b", "c", "d"]);
    assert_eq!(two.depths, vec![1, 1, 2]);
    assert!(!two.truncated);
    assert_eq!(t.callees(ids[0], 0).unwrap().nodes.len(), 0);
}

#[test]
fn callers_mirror_callees() {
    let (db, ids) = chain();
    let t = Traversal::new(&db);
    let up = t.callers(ids[3], 3).unwrap();
    let names: Vec<&str> = up.nodes.iter().map(|n| n.name.as_str()).collect();
    assert_eq!(names, vec!["c", "b", "a"]);
    assert_eq!(up.depths, vec![1, 2, 2]);
    // d is a callee of a within 2 steps, so a is a caller of d within 2 steps
    assert!(t.callees(ids[0], 2).unwrap().nodes.iter().any(|n| n.id == ids[3]));
    assert!(t.callers(ids[3], 2).unwrap().nodes.iter().any(|n| n.id == ids[0]));
}

#[test]
fn impact_radius_counts_dependents() {
    let (db, ids) = chain();
    let t = Traversal::new(&db);
    let r = t.impact_radius(ids[3], 5).unwrap();
    assert_eq!(r.root.name, "d");
    let direct: Vec<&str> = r.direct.iter().map(|n| n.name.as_str()).collect();
    assert_eq!(direct, vec!["c"]);
    let transitive: Vec<&str> = r.transitive.iter().map(|n| n.name.as_str()).collect();
    assert_eq!(transitive, vec!["b", "a"]);
    let mut by_kind = r.by_kind.clone();
    by_kind.sort();
    assert_eq!(by_kind, vec![("function".to_string(), 2), ("method".to_string(), 1)]);
    let e = t.impact_radius(9999, 2).unwrap_err();
    assert_eq!(e.message(), "invalid: node 9999 not found");
}

#[test]
fn resolver_links_calls_by_name() {
    let mut db = Db::new();
    let f1 = db.upsert_file(&file("a.rs")).unwrap();
    let f2 = db.upsert_file(&file("b.rs")).unwrap();
    let a = db.insert_nodes(f1, &[node("caller", NodeKind::Function, 1), node("target", NodeKind::Function, 3)]).unwrap();
    let b = db.insert_nodes(f2, &[node("target", NodeKind::Function, 1), node("other", NodeKind::Variable, 2)]).unwrap();
    let pending = vec![
        PendingCallRow { from_id: a[0], target_name: "target".into(), file_id: f1, line: 10 },
        PendingCallRow { from_id: b[0], target_name: "caller".into(), file_id: f2, line: 11 },
        PendingCallRow { from_id: b[0], target_name: "other".into(), file_id: f2, line: 12 },
    ];
    let n = Resolver::new(&mut db).resolve_calls(&pending).unwrap();
    assert_eq!(n, 2);
    // same-file target preferred
    let out = db.callees_of(a[0]).unwrap();
    assert_eq!(out.len(), 1);
    assert_eq!(out[0].to, a[1]);
    assert_eq!(out[0].line, Some(10));
    // cross-file when none in the caller's file
    let out = db.callees_of(b[0]).unwrap();
    assert_eq!(out.len(), 1);
    assert_eq!(out[0].to, a[0]);
}

#[test]
fn context_for_a_query() {
    let (db, _ids) = chain();
    let req = ContextRequest { query: "b".into(), depth: 1, include_source: true, limit: 5, format: Format::Markdown };
    let sources = vec![SourceText { path: "src/lib.rs".into(), text: "l1\nl2\nl3\nl4\nl5\n".into() }];
    let resp = build_response(&db, &req, &sources).unwrap();
    assert_eq!(resp.hits.len(), 1);
    let hit = &resp.hits[0];
    assert_eq!(hit.node.name, "b");
    assert_eq!(hit.callers.len(), 1);
    assert_eq!(hit.callees.len(), 1);
    assert_eq!(hit.source.as_deref(), Some("l3\nl4"));
    let md = render_markdown(&resp);
    assert!(md.starts_with("# Context: `b`\n"));
    assert!(md.contains("\n## `b` — function — src/lib.rs:3\n"));
    assert!(md.contains("\n**Callers** (1):\n- `a` — src/lib.rs:1 (calls)\n"));
    assert!(md.contains("\n```rust\nfn b()\n```\n"));
    let none = build_response(&db, &ContextRequest { query: "zzz".into(), ..ContextRequest::default() }, &[]).unwrap();
    assert_eq!(render_markdown(&none), "# Context: `zzz`\n\n_No matches._\n");
}

#[test]
fn source_slices() {
    let t = "one\ntwo\r\nthree\nfour";
    assert_eq!(source_slice(t, 2, 3), "two\nthree");
    assert_eq!(source_slice(t, 4, 9), "four");
    assert_eq!(source_slice(t, 1, 1), "one");
    assert_eq!(source_slice(t, 9, 9), "");
    assert_eq!(source_slice(t, 3, 2), "");
    assert_eq!(source_slice(t, 3, 0), "");
}

#[test]
fn resolving_nothing_changes_nothing() {
    let (mut db, _ids) = chain();
    let before = db.stats().unwrap();
    assert_eq!(Resolver::new(&mut db).resolve_calls(&[]).unwrap(), 0);
    assert_eq!(db.stats().unwrap(), before);
}

/// A root calling `leaves` functions.
fn star(leaves: u32) -> (Db, Vec<i64>) {
    let mut db = Db::new();
    let fid = db.upsert_file(&file("src/big.rs")).unwrap();
    let mut drafts = vec![node("root", NodeKind::Function, 1)];
    for i in 0..leaves {
        drafts.push(node(&format!("leaf{i}"), NodeKind::Function, i + 2));
    }
    let ids = db.insert_nodes(fid, &drafts).unwrap();
    let edges: Vec<EdgeDraft> = ids[1..].iter().map(|&t| call(ids[0], t, fid)).collect();
    db.insert_edges(&edges).unwrap();
    (db, ids)
}

#[test]
fn walk_stops_at_the_visit_limit() {
    let (db, ids) = star(5001);
    let hits = Traversal::new(&db).callees(ids[0], 2).unwrap();
    assert!(hits.truncated);
    assert_eq!(hits.nodes.len(), 5000);
    assert!(hits.depths.iter().all(|&d| d == 1));
    let reported: std::collections::HashSet<i64> = hits.nodes.iter().map(|n| n.id).collect();
    assert!(hits.edges.iter().all(|e| e.from == ids[0] && reported.contains(&e.to)));
    let (db, ids) = star(5000);
    let hits = Traversal::new(&db).callees(ids[0], 2).unwrap();
    assert!(!hits.truncated);
    assert_eq!(hits.nodes.len(), 5000);
    assert_eq!(hits.edges.len(), 5000);
}

#[test]
fn resolution_ignores_the_order_of_call_sites() {
    let sites = |ids: &[i64], fid: i64| {
        vec![
            PendingCallRow { from_id: ids[0], target_name: "c".into(), file_id: fid, line: 2 },
            PendingCallRow { from_id: ids[3], target_name: "b".into(), file_id: fid, line: 8 },
            PendingCallRow { from_id: ids[1], target_name: "missing".into(), file_id: fid, line: 4 },
        ]
    };
    let (mut d1, ids) = chain();
    let (mut d2, _) = chain();
    let fid = 1;
    let forward = sites(&ids, fid);
    let mut backward = sites(&ids, fid);
    backward.reverse();
    let n1 = Resolver::new(&mut d1).resolve_calls(&forward).unwrap();
    let n2 = Resolver::new(&mut d2).resolve_calls(&backward).unwrap();
    assert_eq!(n1, 2);
    assert_eq!(n1, n2);
    let t1 = Traversal::new(&d1);
    let t2 = Traversal::new(&d2);
    for id in &ids {
        let mut a: Vec<(i64, i64, Option<u32>)> =
            t1.callees(*id, 1).unwrap().edges.iter().map(|e| (e.from, e.to, e.line)).collect();
        let mut b: Vec<(i64, i64, Option<u32>)> =
            t2.callees(*id, 1).unwrap().edges.iter().map(|e| (e.from, e.to, e.line)).collect();
        a.sort();
        b.sort();
        assert_eq!(a, b);
    }
}

#[test]
fn deeper_walk_extends_shallower_one() {
    let (db, ids) = chain();
    let t = Traversal::new(&db);
    let one = t.callees(ids[0], 1).unwrap();
    let three = t.callees(ids[0], 3).unwrap();
    for (n, d) in one.nodes.iter().zip(one.depths.iter()) {
        assert!(three.nodes.iter().zip(three.depths.iter()).any(|(m, e)| m.id == n.id && e == d));
    }
    let shallow: Vec<i64> =
        three.nodes.iter().zip(three.depths.iter()).filter(|(_, d)| **d <= 1).map(|(n, _)| n.id).collect();
    let mut a: Vec<i64> = one.nodes.iter().map(|n| n.id).collect();
    let mut b = shallow;
    a.sort();
    b.sort();
    assert_eq!(a, b);
}

#[test]
fn depth_one_walk_is_the_direct_calls() {
    let (db, ids) = chain();
    let t = Traversal::new(&db);
    let mut callees: Vec<i64> = t.callees(ids[0], 1).unwrap().nodes.iter().map(|n| n.id).collect();
    callees.sort();
    assert_eq!(callees, vec![ids[1], ids[2]]);
    let mut callers: Vec<i64> = t.callers(ids[2], 1).unwrap().nodes.iter().map(|n| n.id).collect();
    callers.sort();
    assert_eq!(callers, vec![ids[0], ids[1]]);
}
