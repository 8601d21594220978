use codegraph::watcher::{relevant_paths, WatchEvent, WatchPath};

fn wp(p: &str, gitignored: bool) -> WatchPath {
    WatchPath { path: Some(p.to_string()), gitignored }
}

#[test]
fn relevant_paths_filters_events() {
    let events = vec![
        WatchEvent {
            need_rescan: false,
            paths: vec![
                wp("/ws/src/a.rs", false),
                wp("/ws/.git/index", false),
                wp("/ws/.codegraph/db.sqlite", false),
                wp("/ws/target/x.rs", true),
                wp("/elsewhere/b.rs", false),
                WatchPath { path: None, gitignored: false },
            ],
        },
        WatchEvent { need_rescan: true, paths: vec![wp("/ws/src/c.rs", false)] },
        WatchEvent { need_rescan: false, paths: vec![wp("/ws/src/b.rs", false), wp("/ws/src/a.rs", false)] },
    ];
    let dirs = vec!["/ws/.codegraph".to_string(), "/ws/.git".to_string()];
    let out = relevant_paths(&events, "/ws", &dirs);
    assert_eq!(out, vec!["/ws/src/a.rs", "/ws/src/b.rs", "/ws/src/a.rs"]);
}

#[test]
fn prefixes_are_whole_components() {
    let events = vec![WatchEvent {
        need_rescan: false,
        paths: vec![wp("/ws/.gitignore", false), wp("/wsx/a.rs", false)],
    }];
    let dirs = vec!["/ws/.git".to_string()];
    assert_eq!(relevant_paths(&events, "/ws", &dirs), vec!["/ws/.gitignore"]);
}
