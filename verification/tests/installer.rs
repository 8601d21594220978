use codegraph::error::Error;
use codegraph::installer::{
    config_status, content_differs, detect_status, install_entry, install_report, is_configured,
    find_first_brace, find_member_open, read_jsonc, find_server_span, is_project_scoped, strip_jsonc_comments, uninstall_entry, uninstall_report, AntigravityTarget,
    CodexTarget, CursorTarget, DetectStatus, FileContent, InstallOpts, InstallReport, OpencodeTarget,
};
use codegraph::json::{json_eq, parse_json, read_config, Json};

fn to_json(v: &serde_json::Value) -> Json {
    match v {
        serde_json::Value::Null => Json::Null,
        serde_json::Value::Bool(b) => Json::Bool(*b),
        serde_json::Value::Number(n) => Json::Number(n.to_string()),
        serde_json::Value::String(s) => Json::Str(s.clone()),
        serde_json::Value::Array(a) => Json::Array(a.iter().map(to_json).collect()),
        serde_json::Value::Object(o) => Json::Object(o.iter().map(|(k, v)| (k.clone(), to_json(v))).collect()),
    }
}

fn to_value(j: &Json) -> serde_json::Value {
    match j {
        Json::Null => serde_json::Value::Null,
        Json::Bool(b) => serde_json::Value::Bool(*b),
        Json::Number(n) => serde_json::Value::Number(n.parse().unwrap()),
        Json::Str(s) => serde_json::Value::String(s.clone()),
        Json::Array(a) => serde_json::Value::Array(a.iter().map(to_value).collect()),
        Json::Object(o) => {
            let mut m = serde_json::Map::new();
            for (k, v) in o {
                m.insert(k.clone(), to_value(v));
            }
            serde_json::Value::Object(m)
        }
    }
}

fn parse(text: &str) -> Json {
    to_json(&serde_json::from_str::<serde_json::Value>(text).unwrap())
}

/// Writes a document out and reads it back, as the configuration file does.
fn roundtrip(j: &Json) -> Json {
    to_json(&serde_json::from_str(&serde_json::to_string_pretty(&to_value(j)).unwrap()).unwrap())
}

fn opts(root: &str) -> InstallOpts {
    InstallOpts {
        project_root: Some(root.to_string()),
        global: false,
        binary_path: "/usr/local/bin/codegraph".to_string(),
    }
}

fn targets() -> Vec<(&'static str, Vec<(String, Json)>)> {
    let o = opts("/work");
    vec![
        ("mcpServers", CursorTarget.mcp_entry(&o)),
        ("mcp", OpencodeTarget.mcp_entry(&o)),
        ("mcpServers", AntigravityTarget.mcp_entry(&o)),
    ]
}

#[test]
fn install_idempotent() {
    for (section, entry) in targets() {
        let empty = Json::Object(Vec::new());
        assert_eq!(detect_status(false, None, section), DetectStatus::NotFound);
        assert_eq!(config_status(Some(&empty), section), DetectStatus::Found);
        let (d1, changed1) = install_entry(empty, "settings.json", section, entry.clone_entry()).unwrap();
        assert!(changed1, "{section} first install");
        let d1 = roundtrip(&d1);
        assert_eq!(config_status(Some(&d1), section), DetectStatus::AlreadyConfigured);
        let (d2, changed2) = install_entry(roundtrip(&d1), "settings.json", section, entry).unwrap();
        assert!(!changed2, "{section} re-install");
        assert!(json_eq(&d1, &d2));
    }
}

#[test]
fn uninstall_removes_mcp_entry() {
    for (section, entry) in targets() {
        let (d1, _) = install_entry(Json::Object(Vec::new()), "settings.json", section, entry).unwrap();
        let (d2, removed) = uninstall_entry(roundtrip(&d1), section);
        assert!(removed, "{section} uninstall");
        assert_eq!(
            detect_status(true, Some(&d2), section),
            DetectStatus::Found,
            "{section} should remain installed-but-not-configured"
        );
        let (d3, removed_again) = uninstall_entry(d2, section);
        assert!(!removed_again);
        assert!(!is_configured(&d3, section));
    }
}

#[test]
fn sibling_keys_preserved() {
    let doc = parse(r#"{"mcpServers":{"other":{"command":"foo"}},"theme":"dark"}"#);
    let o = opts("/work");
    let (d, changed) = install_entry(doc, "settings.json", "mcpServers", AntigravityTarget.mcp_entry(&o)).unwrap();
    assert!(changed);
    let v = to_value(&d);
    assert!(v.pointer("/mcpServers/other").is_some(), "sibling MCP entry must survive");
    assert_eq!(
        v.pointer("/theme").and_then(|v| v.as_str()),
        Some("dark"),
        "sibling field must survive"
    );
    assert!(v.pointer("/mcpServers/codegraph").is_some());
    let args = serde_json::Value::Array(
        ["serve", "--mcp", "--path", "/work"]
            .iter()
            .map(|s| serde_json::Value::String(s.to_string()))
            .collect(),
    );
    assert_eq!(v.pointer("/mcpServers/codegraph/args"), Some(&args));
    assert_eq!(
        v.pointer("/mcpServers/codegraph/command").and_then(|c| c.as_str()),
        Some("/usr/local/bin/codegraph")
    );
}

#[test]
fn install_errors_name_what_is_not_an_object() {
    let o = opts("/work");
    let e = install_entry(parse("[1, 2]"), "settings.json", "mcpServers", AntigravityTarget.mcp_entry(&o)).unwrap_err();
    assert_eq!(e.message(), "invalid: settings.json not an object");
    let e = install_entry(parse(r#"{"mcpServers": 3}"#), "settings.json", "mcpServers", AntigravityTarget.mcp_entry(&o))
        .unwrap_err();
    assert_eq!(e.message(), "invalid: mcpServers not an object");
}

#[test]
fn stale_entry_is_replaced() {
    let o = opts("/work");
    let doc = parse(r#"{"mcpServers":{"codegraph":{"command":"/old/codegraph","args":["serve","--mcp"]}}}"#);
    let (d, changed) = install_entry(doc, "settings.json", "mcpServers", AntigravityTarget.mcp_entry(&o)).unwrap();
    assert!(changed);
    let v = to_value(&d);
    assert_eq!(
        v.pointer("/mcpServers/codegraph/command").and_then(|c| c.as_str()),
        Some("/usr/local/bin/codegraph")
    );
    // member order of the existing entry does not matter
    let doc = parse(
        r#"{"mcpServers":{"codegraph":{"args":["serve","--mcp","--path","/work"],"command":"/usr/local/bin/codegraph"}}}"#,
    );
    let (_, changed) = install_entry(doc, "settings.json", "mcpServers", AntigravityTarget.mcp_entry(&o)).unwrap();
    assert!(!changed);
}

#[test]
fn uninstall_of_other_documents_changes_nothing() {
    for text in ["[]", "3", r#"{"mcpServers": []}"#, r#"{"theme": "dark"}"#, r#"{"mcpServers": {"x": 1}}"#] {
        let doc = parse(text);
        let (d, removed) = uninstall_entry(doc, "mcpServers");
        assert!(!removed);
        assert!(json_eq(&d, &parse(text)));
    }
}

#[test]
fn target_names() {
    assert_eq!((CursorTarget.id(), CursorTarget.label()), ("cursor", "Cursor"));
    assert_eq!((CodexTarget.id(), CodexTarget.label()), ("codex", "Codex CLI"));
    assert_eq!((OpencodeTarget.id(), OpencodeTarget.label()), ("opencode", "opencode"));
    assert_eq!((AntigravityTarget.id(), AntigravityTarget.label()), ("antigravity", "Antigravity CLI"));
    assert!(is_project_scoped("cursor"));
    assert!(!is_project_scoped("codex"));
}

#[test]
fn target_paths() {
    let o = opts("/work");
    assert_eq!(AntigravityTarget.instructions_path(&o, Some("/home/u")).unwrap(), "/work/.agents/AGENTS.md");
    let g = InstallOpts { project_root: None, global: true, binary_path: "cg".into() };
    assert_eq!(
        AntigravityTarget.instructions_path(&g, Some("/home/u")).unwrap(),
        "/home/u/.gemini/antigravity-cli/AGENTS.md"
    );
    assert_eq!(AntigravityTarget.mcp_path(&g, None), None);
    assert_eq!(CursorTarget.mcp_path(&o, None).unwrap(), "/work/.cursor/mcp.json");
    assert_eq!(CursorTarget.rule_path(&o).unwrap(), "/work/.cursor/rules/codegraph.mdc");
    assert_eq!(CursorTarget.rule_path(&g), None);
    assert_eq!(AntigravityTarget.mcp_path(&o, None).unwrap(), "/work/.agents/mcp_config.json");
    assert_eq!(
        AntigravityTarget.mcp_path(&g, Some("/home/u")).unwrap(),
        "/home/u/.gemini/antigravity-cli/mcp_config.json"
    );
    assert_eq!(OpencodeTarget.config_path(&o, None, false, false).unwrap(), "/work/opencode.jsonc");
    assert_eq!(OpencodeTarget.config_path(&o, None, false, true).unwrap(), "/work/opencode.json");
    assert_eq!(OpencodeTarget.config_path(&o, None, true, true).unwrap(), "/work/opencode.jsonc");
    assert_eq!(
        OpencodeTarget.config_path(&g, Some("/home/u/.config"), false, false).unwrap(),
        "/home/u/.config/opencode/opencode.jsonc"
    );
    assert_eq!(OpencodeTarget.agents_path(&o, None).unwrap(), "/work/AGENTS.md");
    assert_eq!(CodexTarget.config_path(Some("/home/u")).unwrap(), "/home/u/.codex/config.toml");
    assert_eq!(CodexTarget.agents_path(None), None);
}

#[test]
fn cursor_entry_path_argument() {
    let o = opts("/work");
    let v = to_value(&Json::Object(CursorTarget.mcp_entry(&o)));
    assert_eq!(v.pointer("/args/3").and_then(|a| a.as_str()), Some("/work"));
    let g = InstallOpts { project_root: Some("/work".into()), global: true, binary_path: "cg".into() };
    let v = to_value(&Json::Object(CursorTarget.mcp_entry(&g)));
    assert_eq!(v.pointer("/args/3").and_then(|a| a.as_str()), Some("${workspaceFolder}"));
}

#[test]
fn opencode_entry_shape() {
    let v = to_value(&Json::Object(OpencodeTarget.mcp_entry(&opts("/work"))));
    assert_eq!(v.pointer("/type").and_then(|a| a.as_str()), Some("local"));
    assert_eq!(v.pointer("/enabled").and_then(|a| a.as_bool()), Some(true));
    assert_eq!(v.pointer("/command/0").and_then(|a| a.as_str()), Some("/usr/local/bin/codegraph"));
    assert_eq!(v.pointer("/command/4").and_then(|a| a.as_str()), Some("/work"));
    assert!(OpencodeTarget.is_blank(" \n\t"));
    assert!(!OpencodeTarget.is_blank(" {} "));
}

#[test]
fn install_plans() {
    let o = opts("/work");
    let plan = AntigravityTarget
        .install_plan(&o, None, None, None, "instructions")
        .unwrap();
    let paths: Vec<&str> = plan.iter().map(|w| w.path.as_str()).collect();
    assert_eq!(paths, vec!["/work/.agents/mcp_config.json", "/work/.agents/AGENTS.md"]);
    match &plan[1].content {
        FileContent::Text(t) => assert_eq!(t, "instructions"),
        _ => panic!("expected text"),
    }
    let written = match &plan[0].content {
        FileContent::Json(j) => serde_json::to_string_pretty(&to_value(j)).unwrap(),
        _ => panic!("expected json"),
    };
    let again =
        AntigravityTarget.install_plan(&o, None, Some(&written), Some("instructions"), "instructions").unwrap();
    assert!(again.is_empty());
    assert!(matches!(install_report(Vec::new()), InstallReport::Unchanged));
    assert!(matches!(install_report(vec!["a".into()]), InstallReport::Installed(_)));
    assert!(matches!(uninstall_report(vec!["a".into()]), InstallReport::Updated(_)));
    let g = InstallOpts { project_root: None, global: true, binary_path: "cg".into() };
    let e = AntigravityTarget.install_plan(&g, None, None, None, "x").unwrap_err();
    assert_eq!(e.message(), "invalid: no antigravity path");
    let e = CursorTarget.install_plan(&g, None, None, None, "x").unwrap_err();
    assert_eq!(e.message(), "invalid: no mcp path");
    let plan = CursorTarget.install_plan(&o, None, Some(""), None, "body").unwrap();
    match &plan[1].content {
        FileContent::Text(t) => {
            assert_eq!(t, "---\ndescription: CodeGraph usage\nalwaysApply: true\n---\n\nbody")
        }
        _ => panic!("expected text"),
    }
    let installed = r#"{"mcp":{"codegraph":{}}}"#;
    let removal = OpencodeTarget.uninstall_plan(Some("/work/opencode.jsonc".into()), Some(installed)).unwrap();
    assert_eq!(removal.len(), 1);
    assert!(content_differs(None, "x"));
    assert!(content_differs(Some("y"), "x"));
    assert!(!content_differs(Some("x"), "x"));
}

#[test]
fn jsonc_comments_are_stripped() {
    assert_eq!(strip_jsonc_comments("{\"a\": 1} // note\n"), "{\"a\": 1} \n");
    assert_eq!(strip_jsonc_comments("/* head */{\"a\": /* x */ 2}"), "{\"a\":  2}");
    assert_eq!(strip_jsonc_comments("{\"url\": \"http://x//y\"}"), "{\"url\": \"http://x//y\"}");
    assert_eq!(strip_jsonc_comments("{\"q\": \"a\\\"// b\"}"), "{\"q\": \"a\\\"// b\"}");
    assert_eq!(strip_jsonc_comments("1 /* open"), "1 ");
    assert_eq!(strip_jsonc_comments("a/b"), "a/b");
    assert_eq!(strip_jsonc_comments("x /"), "x /");
    assert_eq!(strip_jsonc_comments("é"), "é");
    let v: serde_json::Value =
        serde_json::from_str(&strip_jsonc_comments("{\n  // servers\n  \"mcp\": {} /* end */\n}")).unwrap();
    assert!(v.pointer("/mcp").is_some());
}

trait CloneEntry {
    fn clone_entry(&self) -> Vec<(String, Json)>;
}

impl CloneEntry for Vec<(String, Json)> {
    fn clone_entry(&self) -> Vec<(String, Json)> {
        self.iter().map(|(k, v)| (k.clone(), roundtrip(v))).collect()
    }
}

#[test]
fn detection_goes_by_the_project_document() {
    let o = opts("/work");
    let (doc, _) = install_entry(Json::Object(Vec::new()), "opencode config", "mcp", OpencodeTarget.mcp_entry(&o)).unwrap();
    assert_eq!(detect_status(false, Some(&doc), "mcp"), DetectStatus::AlreadyConfigured);
    assert_eq!(detect_status(false, Some(&Json::Object(Vec::new())), "mcp"), DetectStatus::Found);
    assert_eq!(detect_status(true, None, "mcp"), DetectStatus::Found);
    assert_eq!(detect_status(false, None, "mcp"), DetectStatus::NotFound);
}

#[test]
fn jsonc_stripping_keeps_non_ascii_text() {
    assert_eq!(strip_jsonc_comments("{\"k\":\"é\"} // c"), "{\"k\":\"é\"} ");
    assert_eq!(strip_jsonc_comments("/* ü */{\"ü\":1}"), "{\"ü\":1}");
}

fn text_of(c: &FileContent) -> &str {
    match c {
        FileContent::Text(t) => t.as_str(),
        _ => panic!("expected text"),
    }
}

#[test]
fn codex_install_is_idempotent_and_keeps_other_tables() {
    let o = opts("/work");
    let start = "[model]\nname = \"x\"\n";
    let plan = CodexTarget.install_plan(&o, Some("/home/u"), start, None, "hi").unwrap();
    assert_eq!(plan.len(), 2);
    assert_eq!(plan[0].path, "/home/u/.codex/config.toml");
    let installed = text_of(&plan[0].content).to_string();
    assert!(installed.contains("[model]"));
    assert!(installed.contains("name = \"x\""));
    assert!(installed.contains("[mcp_servers.codegraph]"));
    assert!(installed.contains("command = \"/usr/local/bin/codegraph\""));
    assert!(installed.contains("args = [\"serve\", \"--mcp\", \"--path\", \"/work\"]"));
    assert_eq!(plan[1].path, "/home/u/.codex/AGENTS.md");
    assert_eq!(CodexTarget.status(true, Some(&installed)), DetectStatus::AlreadyConfigured);
    let again = CodexTarget.install_plan(&o, Some("/home/u"), &installed, Some("hi"), "hi").unwrap();
    assert!(again.is_empty());
    let un = CodexTarget.uninstall_plan(Some("/home/u"), Some(&installed)).unwrap();
    assert_eq!(un.len(), 1);
    let removed = text_of(&un[0].content);
    assert!(!removed.contains("codegraph"));
    assert!(removed.contains("[model]"));
    assert_eq!(CodexTarget.status(true, Some(removed)), DetectStatus::Found);
    assert!(CodexTarget.uninstall_plan(Some("/home/u"), Some(removed)).unwrap().is_empty());
}

#[test]
fn codex_errors_and_status() {
    let o = opts("/work");
    assert!(matches!(CodexTarget.install_plan(&o, None, "", None, "hi"), Err(Error::Invalid(_))));
    assert!(matches!(CodexTarget.install_plan(&o, Some("/h"), "[[[", None, "hi"), Err(Error::Parse(_))));
    assert_eq!(CodexTarget.status(false, None), DetectStatus::NotFound);
    assert_eq!(CodexTarget.status(true, None), DetectStatus::Found);
    assert_eq!(CodexTarget.status(true, Some("[[[")), DetectStatus::Found);
    assert!(CodexTarget.uninstall_plan(Some("/h"), None).unwrap().is_empty());
    let expected = "[[[".parse::<toml_edit::DocumentMut>().unwrap_err().to_string();
    match CodexTarget.install_plan(&o, Some("/h"), "[[[", None, "hi") {
        Err(Error::Parse(m)) => assert_eq!(m, expected),
        other => panic!("expected a parse error, got {other:?}"),
    }
    match CodexTarget.uninstall_plan(Some("/h"), Some("a = ")) {
        Err(Error::Parse(m)) => assert!(!m.is_empty()),
        other => panic!("expected a parse error, got {other:?}"),
    }
    let empty = CodexTarget.install_plan(&o, Some("/h"), "", Some("hi"), "hi").unwrap();
    assert_eq!(empty.len(), 1);
    assert!(text_of(&empty[0].content).contains("[mcp_servers.codegraph]"));
}

#[test]
fn stripping_twice_is_stripping_once() {
    for t in ["{\"a\": 1} // c\n", "/ /*x*// y", "\"//\" /* */ //", "a//b\n/*c*/d", "x /"] {
        let once = strip_jsonc_comments(t);
        assert_eq!(strip_jsonc_comments(&once), once);
    }
}

/// Carries out a planned insertion as the installer does.
fn inserted(c: &FileContent) -> String {
    match c {
        FileContent::Insert { text, at, key, value, comma } => {
            let byte = text.char_indices().nth(*at).map(|(b, _)| b).unwrap_or(text.len());
            let k = serde_json::to_string(key).unwrap();
            let v = serde_json::to_string(&to_value(value)).unwrap();
            let sep = if *comma { "," } else { "" };
            format!("{}\n  {k}: {v}{sep}{}", &text[..byte], &text[byte..])
        }
        FileContent::Replace { text, from, to, value } => {
            let a = text.char_indices().nth(*from).map(|(b, _)| b).unwrap_or(text.len());
            let z = text.char_indices().nth(*to).map(|(b, _)| b).unwrap_or(text.len());
            let v = serde_json::to_string(&to_value(value)).unwrap();
            format!("{}{v}{}", &text[..a], &text[z..])
        }
        _ => panic!("expected an edit of the text"),
    }
}

#[test]
fn opencode_install_keeps_comments() {
    let o = opts("/r");
    let text = "{\n  // keep me\n  \"theme\": \"dark\"\n}\n";
    let plan = OpencodeTarget
        .install_plan(&o, Some("/r/opencode.jsonc".into()), None, text, None, "x")
        .unwrap();
    assert_eq!(plan.len(), 2);
    assert_eq!(plan[0].path, "/r/opencode.jsonc");
    assert_eq!(plan[1].path, "/r/AGENTS.md");
    let written = inserted(&plan[0].content);
    assert!(written.contains("// keep me"));
    assert!(written.contains("\"theme\": \"dark\""));
    let v: serde_json::Value = serde_json::from_str(&strip_jsonc_comments(&written)).unwrap();
    assert_eq!(v.pointer("/theme").and_then(|t| t.as_str()), Some("dark"));
    let expected: serde_json::Value = serde_json::from_str(
        r#"{"type":"local","command":["/usr/local/bin/codegraph","serve","--mcp","--path","/r"],"enabled":true}"#,
    )
    .unwrap();
    assert_eq!(v.pointer("/mcp/codegraph"), Some(&expected));
    let again = OpencodeTarget
        .install_plan(
            &o,
            Some("/r/opencode.jsonc".into()),
            None,
            &written,
            Some("x"),
            "x",
        )
        .unwrap();
    assert!(again.is_empty());
}

#[test]
fn opencode_install_into_empty_object_and_blank_text() {
    let o = opts("/r");
    let text = "/* c */ { }";
    let plan = OpencodeTarget
        .install_plan(&o, Some("/r/opencode.jsonc".into()), None, text, Some("x"), "x")
        .unwrap();
    assert_eq!(plan.len(), 1);
    let written = inserted(&plan[0].content);
    assert!(written.starts_with("/* c */ {\n  \"mcp\": "));
    let v: serde_json::Value = serde_json::from_str(&strip_jsonc_comments(&written)).unwrap();
    assert!(v.pointer("/mcp/codegraph/command").is_some());
    let plan = OpencodeTarget
        .install_plan(&o, Some("/r/opencode.jsonc".into()), None, "", Some("x"), "x")
        .unwrap();
    assert!(matches!(plan[0].content, FileContent::Json(_)));
    let with_mcp = "{\"theme\": \"{mcp}\", /* s */ \"mcp\" /* t */ : // u\n {\"other\": {}}}";
    let plan = OpencodeTarget
        .install_plan(
            &o,
            Some("/r/opencode.jsonc".into()),
            None,
            with_mcp,
            Some("x"),
            "x",
        )
        .unwrap();
    let written = inserted(&plan[0].content);
    assert!(written.contains("/* s */") && written.contains("/* t */") && written.contains("// u"));
    let v: serde_json::Value = serde_json::from_str(&strip_jsonc_comments(&written)).unwrap();
    assert!(v.pointer("/mcp/other").is_some());
    assert!(v.pointer("/mcp/codegraph/command").is_some());
    assert_eq!(v.pointer("/theme").and_then(|t| t.as_str()), Some("{mcp}"));
    let stale = "{\"mcp\": {\"a\": [1], \"codegraph\": /* old */ {\"type\": \"local\", \"x\": \"}\"} // end\n}}";
    let plan = OpencodeTarget
        .install_plan(
            &o,
            Some("/r/opencode.jsonc".into()),
            None,
            stale,
            Some("x"),
            "x",
        )
        .unwrap();
    assert!(matches!(plan[0].content, FileContent::Replace { .. }));
    let written = inserted(&plan[0].content);
    assert!(written.contains("/* old */") && written.contains("// end"));
    let v: serde_json::Value = serde_json::from_str(&strip_jsonc_comments(&written)).unwrap();
    assert_eq!(v.pointer("/mcp/a/0").and_then(|a| a.as_i64()), Some(1));
    assert_eq!(v.pointer("/mcp/codegraph/enabled").and_then(|a| a.as_bool()), Some(true));
    assert!(v.pointer("/mcp/codegraph/x").is_none());
    assert_eq!(find_server_span(stale), Some((42, 69)));
    assert_eq!(find_member_open("{\"a\": {\"mcp\": {}}, \"mcp\": {}}", "mcp"), Some(26));
    assert_eq!(find_first_brace("// {\n \"{\" {"), Some(10));
    assert_eq!(find_first_brace("/* { */"), None);
}

/// Whether `a` is `b` with some characters left out.
fn subsequence_of(a: &str, b: &str) -> bool {
    let mut rest = b.chars();
    a.chars().all(|c| rest.any(|d| d == c))
}

#[test]
fn jsonc_stripping_only_leaves_characters_out() {
    for text in ["{\"a\": 1} // x\n", "/* h */{\"b\": /* y */ [1, 2]}", "{\"s\": \"/* kept */\"}", "a/b /"] {
        assert!(subsequence_of(&strip_jsonc_comments(text), text));
    }
    for text in ["{\"url\": \"http://x//y\"}", "{\"a\": [1, 2], \"b\": \"/*\"}", "x / y"] {
        assert_eq!(strip_jsonc_comments(text), text);
    }
}

#[test]
fn opencode_uninstall_keeps_comments() {
    let cases = [
        (
            "{\n  // a\n  \"mcp\": {\n    \"other\": {}, // b\n    \"codegraph\": {\"type\": \"local\"} /* c */\n  }\n}\n",
            "{\n  // a\n  \"mcp\": {\n    \"other\": {} /* c */\n  }\n}\n",
        ),
        (
            "{\"mcp\": {\"codegraph\": {\"x\": [1, {\"y\": \"}\"}]}, /* d */ \"other\": {}}}",
            "{\"mcp\": { /* d */ \"other\": {}}}",
        ),
        ("{\"mcp\": {\"codegraph\": {}}} // e", "{\"mcp\": {}} // e"),
    ];
    for (text, expected) in cases {
        let plan = OpencodeTarget.uninstall_plan(Some("/r/opencode.jsonc".into()), Some(text)).unwrap();
        assert_eq!(plan.len(), 1);
        assert_eq!(text_of(&plan[0].content), expected);
        assert!(subsequence_of(expected, text));
        let v: serde_json::Value = serde_json::from_str(&strip_jsonc_comments(expected)).unwrap();
        assert!(v.pointer("/mcp/codegraph").is_none());
    }
    let plain = r#"{"mcp": {"other": {}}}"#;
    assert!(OpencodeTarget.uninstall_plan(Some("/r/opencode.jsonc".into()), Some(plain)).unwrap().is_empty());
}

#[test]
fn configuration_texts_are_read_as_json() {
    assert!(json_eq(&read_config(None).unwrap(), &Json::Object(Vec::new())));
    assert!(json_eq(&read_config(Some("")).unwrap(), &Json::Object(Vec::new())));
    assert!(json_eq(&read_config(Some(r#"{"a": [1, "b", null, true]}"#)).unwrap(), &parse(r#"{"a": [1, "b", null, true]}"#)));
    assert!(matches!(read_config(Some("{")), Err(Error::Parse(_))));
    assert!(matches!(parse_json("1 2"), Err(Error::Parse(_))));
    assert!(json_eq(&read_jsonc(" \n ").unwrap(), &Json::Object(Vec::new())));
    assert!(json_eq(&read_jsonc("{\"a\": 1 // c\n}").unwrap(), &parse(r#"{"a": 1}"#)));
    assert!(matches!(read_jsonc("// only\n{"), Err(Error::Parse(_))));
    let o = opts("/work");
    assert!(matches!(CursorTarget.install_plan(&o, None, Some("[1"), None, "x"), Err(Error::Parse(_))));
    assert!(matches!(CursorTarget.uninstall_plan(&o, None, Some("nope")), Err(Error::Parse(_))));
    assert!(CursorTarget.uninstall_plan(&o, None, None).unwrap().is_empty());
    let removal = AntigravityTarget
        .uninstall_plan(&o, None, Some(r#"{"mcpServers": {"codegraph": {}, "x": {}}}"#))
        .unwrap();
    assert_eq!(removal.len(), 1);
    let e = CursorTarget.install_plan(&o, None, Some("[]"), None, "x").unwrap_err();
    assert_eq!(e.message(), "invalid: mcp.json not an object");
}

#[test]
fn codex_status_and_uninstall_follow_the_server_entry() {
    let with = "[mcp_servers.codegraph]\ncommand = \"cg\"\n";
    let without = "[mcp_servers.other]\ncommand = \"x\"\n";
    assert_eq!(CodexTarget.status(true, Some(with)), DetectStatus::AlreadyConfigured);
    assert_eq!(CodexTarget.status(true, Some(without)), DetectStatus::Found);
    assert_eq!(CodexTarget.status(true, Some("mcp_servers = 1")), DetectStatus::Found);
    assert_eq!(CodexTarget.uninstall_plan(Some("/h"), Some(with)).unwrap().len(), 1);
    assert!(CodexTarget.uninstall_plan(Some("/h"), Some(without)).unwrap().is_empty());
    let o = opts("/work");
    let plan = CodexTarget.install_plan(&o, Some("/h"), without, Some("hi"), "hi").unwrap();
    assert_eq!(plan.len(), 1);
    let t = text_of(&plan[0].content);
    assert!(t.contains("[mcp_servers.other]") && t.contains("[mcp_servers.codegraph]"));
}
