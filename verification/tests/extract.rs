use codegraph::error::Error;
use codegraph::extract::{all_grammars, extensions, extract, extract_tree, is_declarator_kind, language, registry, Grammar};
use codegraph::kinds::{EdgeKind, NodeKind};
use codegraph::orchestrator::ExtractResult;
use codegraph::syntax::SyntaxNode;

const SAMPLE_RS: &str = "use std::collections::HashMap;

pub fn process_user(id: &str) -> String {
    format_email(id)
}

fn format_email(s: &str) -> String {
    s.to_lowercase()
}

pub struct UserService {
    pub name: String,
}

impl UserService {
    pub fn greet(&self) -> String {
        process_user(&self.name)
    }
}
";

fn names(r: &ExtractResult) -> Vec<&str> {
    r.nodes.iter().map(|n| n.name.as_str()).collect()
}

#[test]
fn rust_sample_symbols() {
    let r = extract(Grammar::Rust, SAMPLE_RS).unwrap();
    assert_eq!(names(&r), vec!["process_user", "format_email", "UserService", "UserService", "greet"]);
    assert_eq!(r.nodes[0].kind, NodeKind::Function);
    assert_eq!(r.nodes[2].kind, NodeKind::Struct);
    assert_eq!(r.nodes[3].kind, NodeKind::Namespace);
    assert_eq!((r.nodes[0].start_line, r.nodes[0].end_line), (3, 5));
    assert_eq!((r.nodes[4].start_line, r.nodes[4].end_line), (16, 18));
    assert_eq!(r.nodes[0].signature.as_deref(), Some("pub fn process_user(id: &str) -> String"));
    assert_eq!(r.nodes[2].signature.as_deref(), Some("pub struct UserService"));
    assert_eq!(r.nodes[0].docstring, None);
    assert!(r.nodes.iter().all(|n| n.language == "rust" && n.qualified_name.is_none()));
}

#[test]
fn rust_sample_relations() {
    let r = extract(Grammar::Rust, SAMPLE_RS).unwrap();
    assert_eq!(r.edges.len(), 1);
    assert_eq!((r.edges[0].from_idx, r.edges[0].to_idx), (3, 4));
    assert_eq!(r.edges[0].kind, EdgeKind::Contains);
    assert_eq!(r.edges[0].line, None);
    let calls: Vec<(usize, &str, u32)> =
        r.pending_calls.iter().map(|c| (c.from_idx, c.target_name.as_str(), c.line)).collect();
    assert_eq!(calls, vec![(0, "format_email", 4), (1, "to_lowercase", 8), (4, "process_user", 17)]);
    // A `use` at the top of the file is recorded with no enclosing declaration.
    assert_eq!(r.imports.len(), 1);
    assert_eq!(r.imports[0].module, "std::collections::HashMap");
    assert_eq!((r.imports[0].from_idx, r.imports[0].line), (None, 1));
}

#[test]
fn rust_use_inside_module_is_recorded() {
    let src = "mod inner {\n    use crate::other::thing;\n}\n";
    let r = extract(Grammar::Rust, src).unwrap();
    assert_eq!(names(&r), vec!["inner"]);
    assert_eq!(r.imports.len(), 1);
    assert_eq!(r.imports[0].module, "crate::other::thing");
    assert_eq!((r.imports[0].from_idx, r.imports[0].line), (Some(0), 2));
}

#[test]
fn c_void_function_is_named_by_its_declarator() {
    let r = extract(Grammar::C, "void alpha_void_plain() {}").unwrap();
    assert_eq!(names(&r), vec!["alpha_void_plain"]);
    assert_eq!(r.nodes[0].kind, NodeKind::Function);
    assert_eq!(r.nodes[0].language, "c");
    assert_eq!(r.nodes[0].signature.as_deref(), Some("void alpha_void_plain()"));
}

#[test]
fn c_pointer_return_function_is_named_by_its_declarator() {
    let r = extract(Grammar::C, "char *echo_pointer_plain(int x) { return 0; }").unwrap();
    assert_eq!(names(&r), vec!["echo_pointer_plain"]);
}

#[test]
fn c_include_and_call() {
    let src = "#include <stdio.h>\nint main(void) {\n  #include \"local.h\"\n  puts(\"hi\");\n  return 0;\n}\n";
    let r = extract(Grammar::C, src).unwrap();
    assert_eq!(names(&r), vec!["main"]);
    assert_eq!(r.pending_calls.len(), 1);
    assert_eq!(r.pending_calls[0].target_name, "puts");
    assert_eq!(r.pending_calls[0].line, 4);
    let modules: Vec<(&str, Option<usize>, u32)> =
        r.imports.iter().map(|i| (i.module.as_str(), i.from_idx, i.line)).collect();
    assert_eq!(modules, vec![("stdio.h", None, 1), ("local.h", Some(0), 3)]);
}

#[test]
fn python_docstring_and_calls() {
    let src = "class Greeter:\n    def hello(self):\n        \"\"\"Say hello.\"\"\"\n        return self.render()\n";
    let r = extract(Grammar::Python, src).unwrap();
    assert_eq!(names(&r), vec!["Greeter", "hello"]);
    assert_eq!(r.nodes[0].kind, NodeKind::Class);
    assert_eq!(r.nodes[1].kind, NodeKind::Function);
    assert_eq!(r.nodes[1].docstring.as_deref(), Some("Say hello."));
    assert_eq!(r.nodes[0].docstring, None);
    assert_eq!(r.pending_calls.len(), 1);
    assert_eq!(r.pending_calls[0].target_name, "render");
    assert_eq!(r.pending_calls[0].from_idx, 1);
    assert_eq!((r.edges[0].from_idx, r.edges[0].to_idx), (0, 1));
}

#[test]
fn typescript_class_method_and_import() {
    let src = "import { x } from './util';\nclass UserService {\n  process() { return this.format(x); }\n}\n";
    let r = extract(Grammar::TypeScript, src).unwrap();
    assert_eq!(names(&r), vec!["UserService", "process"]);
    assert_eq!(r.nodes[1].kind, NodeKind::Method);
    assert_eq!(r.pending_calls.len(), 1);
    assert_eq!(r.pending_calls[0].target_name, "format");
    assert_eq!(r.imports.len(), 1);
    assert_eq!((r.imports[0].module.as_str(), r.imports[0].from_idx), ("./util", None));
}

#[test]
fn java_class_and_method() {
    let src = "class UserService {\n  void run() { helper(); }\n}\n";
    let r = extract(Grammar::Java, src).unwrap();
    assert_eq!(names(&r), vec!["UserService", "run"]);
    assert_eq!(r.nodes[1].kind, NodeKind::Method);
    assert_eq!(r.nodes[0].language, "java");
    assert_eq!(r.pending_calls[0].target_name, "helper");
}

#[test]
fn ruby_method_in_class() {
    let r = extract(Grammar::Ruby, "class User\n  def process_user\n    helper\n  end\nend\n").unwrap();
    assert_eq!(names(&r), vec!["User", "process_user"]);
    assert_eq!(r.nodes[1].kind, NodeKind::Method);
}

fn leaf(kind: &str, field: Option<&str>, start: usize, end: usize) -> SyntaxNode {
    SyntaxNode {
        kind: kind.to_string(),
        field: field.map(|f| f.to_string()),
        start_byte: start,
        end_byte: end,
        start_row: 0,
        end_row: 0,
        children: Vec::new(),
    }
}

#[test]
fn extract_tree_reads_a_given_tree() {
    let src = "fn alpha() {}";
    let mut f = leaf("function_item", None, 0, 13);
    f.children.push(leaf("identifier", Some("name"), 3, 8));
    f.children.push(leaf("block", Some("body"), 11, 13));
    let mut root = leaf("source_file", None, 0, 13);
    root.children.push(f);
    let r = extract_tree(Grammar::Rust, src, &root).unwrap();
    assert_eq!(names(&r), vec!["alpha"]);
    assert_eq!(r.nodes[0].signature.as_deref(), Some("fn alpha()"));
    assert_eq!((r.nodes[0].start_line, r.nodes[0].end_line), (1, 1));
}

#[test]
fn extract_tree_refuses_ranges_past_the_text() {
    let root = leaf("source_file", None, 0, 50);
    match extract_tree(Grammar::Rust, "fn a() {}", &root) {
        Err(Error::Parse(_)) => {},
        other => panic!("expected a parse error, got {:?}", other.map(|r| r.nodes.len())),
    }
}

#[test]
fn languages_and_extensions() {
    assert_eq!(language(Grammar::CSharp), "csharp");
    assert_eq!(language(Grammar::Tsx), "tsx");
    assert_eq!(extensions(Grammar::Rust), vec!["rs".to_string()]);
    assert_eq!(all_grammars().len(), 12);
    let reg = registry();
    assert_eq!(reg.len(), 12);
    assert!(reg.iter().any(|e| e.language == "python" && e.extensions.contains(&"py".to_string())));
}

#[test]
fn declarator_kinds() {
    assert!(is_declarator_kind("function_declarator"));
    assert!(is_declarator_kind("qualified_identifier"));
    assert!(!is_declarator_kind("type_identifier"));
}

#[test]
fn c_top_level_include_is_an_import() {
    let r = extract(Grammar::C, "#include <stdio.h>\nint main(void) { return 0; }\n").unwrap();
    assert_eq!(r.imports.len(), 1);
    assert_eq!(r.imports[0].module, "stdio.h");
    assert_eq!(r.imports[0].line, 1);
}
