use codegraph::config::{header_hint, ExtractConfig, HeaderLanguage};
use codegraph::walker::{
    build_ext_map, find_extractor, header_looks_like_cpp, match_extractor, walk, walk_options, ExtractorInfo,
    FileMatch, WalkedFile,
};

fn info(lang: &str, exts: &[&str]) -> ExtractorInfo {
    ExtractorInfo {
        language: lang.to_string(),
        extensions: exts.iter().map(|e| e.to_string()).collect(),
    }
}

fn registry() -> Vec<ExtractorInfo> {
    vec![
        info("rust", &["rs"]),
        info("python", &["py", "pyi"]),
        info("c", &["c"]),
        info("cpp", &["cpp", "cc", "cxx", "hpp", "hh", "hxx"]),
    ]
}

fn file(path: &str, content: &str) -> WalkedFile {
    let header = if path.ends_with(".h") {
        Some(content.as_bytes().to_vec())
    } else {
        None
    };
    WalkedFile { path: path.to_string(), header }
}

fn language_of<'a>(matches: &[FileMatch], reg: &'a [ExtractorInfo], suffix: &str) -> &'a str {
    let m = matches
        .iter()
        .find(|m| m.path.ends_with(suffix))
        .unwrap_or_else(|| panic!("{suffix} should be indexed"));
    reg[m.extractor].language.as_str()
}

fn project_walk(files: &[WalkedFile], config: &ExtractConfig) -> Vec<FileMatch> {
    let extractors = registry();
    let hint = if config.header_language == HeaderLanguage::Auto {
        let exts: Vec<String> = files
            .iter()
            .filter_map(|f| f.path.rsplit_once('.').map(|(_, e)| e.to_string()))
            .collect();
        header_hint(&exts)
    } else {
        None
    };
    walk(files, &extractors, config, hint)
}

#[test]
fn cpp_project_headers_use_cpp_extractor() {
    let files = vec![
        file("src/Foo.cpp", "class Foo {};\n"),
        file("src/Foo.h", "#pragma once\nnamespace tnl { class Foo {}; }\n"),
    ];
    let config = ExtractConfig::default();
    let matches = project_walk(&files, &config);
    assert_eq!(language_of(&matches, &registry(), "Foo.h"), "cpp");
}

#[test]
fn c_project_headers_use_c_extractor() {
    let files = vec![
        file("src/foo.c", "struct foo { int x; };\n"),
        file("src/foo.h", "#ifndef FOO_H\n#define FOO_H\nstruct foo { int x; };\n#endif\n"),
    ];
    let config = ExtractConfig::default();
    let matches = project_walk(&files, &config);
    assert_eq!(language_of(&matches, &registry(), "foo.h"), "c");
}

#[test]
fn config_forces_cpp_headers() {
    let files = vec![
        file("src/foo.c", "struct foo { int x; };\n"),
        file("src/foo.h", "#ifndef FOO_H\n#define FOO_H\nstruct foo { int x; };\n#endif\n"),
    ];
    let config = ExtractConfig {
        header_language: HeaderLanguage::Cpp,
    };
    let matches = project_walk(&files, &config);
    assert_eq!(language_of(&matches, &registry(), "foo.h"), "cpp");
}

#[test]
fn mixed_project_sniffs_header_content() {
    let files = vec![
        file("src/a.c", "int a;\n"),
        file("src/b.cpp", "int b;\n"),
        file("src/plain.h", "struct s { int x; };\n"),
        file("src/fancy.h", "template <typename T> struct s;\n"),
        WalkedFile { path: "src/unread.h".into(), header: None },
    ];
    let reg = registry();
    let matches = project_walk(&files, &ExtractConfig::default());
    assert_eq!(language_of(&matches, &reg, "plain.h"), "c");
    assert_eq!(language_of(&matches, &reg, "fancy.h"), "cpp");
    assert_eq!(language_of(&matches, &reg, "unread.h"), "c");
}

#[test]
fn walk_keeps_order_and_drops_unknown_extensions() {
    let files = vec![
        file("src/main.rs", ""),
        file("README.md", ""),
        file("Makefile", ""),
        file("tool.py", ""),
        file("stubs.pyi", ""),
    ];
    let matches = project_walk(&files, &ExtractConfig::default());
    let got: Vec<(&str, usize)> = matches.iter().map(|m| (m.path.as_str(), m.extractor)).collect();
    assert_eq!(got, vec![("src/main.rs", 0), ("tool.py", 1), ("stubs.pyi", 1)]);
}

#[test]
fn later_extractor_wins_an_extension() {
    let reg = vec![info("a", &["x", "y"]), info("b", &["y"])];
    let m = build_ext_map(&reg);
    assert_eq!(m.get("x"), Some(0));
    assert_eq!(m.get("y"), Some(1));
    assert_eq!(m.get("z"), None);
}

#[test]
fn find_extractor_by_language() {
    let reg = vec![info("c", &["c"]), info("cpp", &["cpp"]), info("c", &["h"])];
    assert_eq!(find_extractor(&reg, "c"), Some(0));
    assert_eq!(find_extractor(&reg, "cpp"), Some(1));
    assert_eq!(find_extractor(&reg, "go"), None);
}

#[test]
fn match_single_paths() {
    let reg = registry();
    let m = build_ext_map(&reg);
    let opts = walk_options(&reg, &ExtractConfig::default(), None);
    assert_eq!(match_extractor("src/lib.rs", &m, &opts, None), Some(0));
    assert_eq!(match_extractor("/abs/path/mod.py", &m, &opts, None), Some(1));
    assert_eq!(match_extractor("archive.tar.gz", &m, &opts, None), None);
    assert_eq!(match_extractor(".hidden", &m, &opts, None), None);
    assert_eq!(match_extractor("noext", &m, &opts, None), None);
    let cpp = "class A {};".as_bytes();
    assert_eq!(match_extractor("x.h", &m, &opts, Some(cpp)), Some(3));
    assert_eq!(match_extractor("x.h", &m, &opts, Some(b"int f(void);")), Some(2));
}

#[test]
fn header_options_without_both_extractors() {
    let only_c = vec![info("c", &["c"])];
    let m = build_ext_map(&only_c);
    let opts = walk_options(&only_c, &ExtractConfig { header_language: HeaderLanguage::Cpp }, Some(HeaderLanguage::C));
    assert_eq!(opts.project_hint, None);
    assert_eq!(match_extractor("a.h", &m, &opts, None), Some(0));
    let none: Vec<ExtractorInfo> = vec![info("rust", &["rs"])];
    let m = build_ext_map(&none);
    let opts = walk_options(&none, &ExtractConfig::default(), None);
    assert_eq!(match_extractor("a.h", &m, &opts, None), None);
}

#[test]
fn header_bytes_sniffing() {
    assert!(header_looks_like_cpp(Some(b"namespace a {}")));
    assert!(!header_looks_like_cpp(Some(b"int x;")));
    assert!(!header_looks_like_cpp(Some(&[0xff, 0xfe, b':', b':'])));
    assert!(!header_looks_like_cpp(None));
}
