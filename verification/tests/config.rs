use codegraph::config::{header_hint, is_cpp_header, parse_header_language, ExtractConfig, HeaderLanguage};

#[test]
fn sniff_cpp_header() {
    assert!(is_cpp_header(
        "#pragma once\nnamespace tnl { class String {}; }\n"
    ));
    assert!(!is_cpp_header(
        "#ifndef FOO_H\n#define FOO_H\nstruct foo { int x; };\n#endif\n"
    ));
}

#[test]
fn parse_config_headers() {
    let cfg: toml::Value = toml::from_str(
        r#"
[languages]
headers = "cpp"
"#,
    )
    .unwrap();
    let headers = cfg
        .get("languages")
        .and_then(|l| l.get("headers"))
        .and_then(|h| h.as_str());
    assert_eq!(parse_header_language(headers), HeaderLanguage::Cpp);
}

#[test]
fn header_language_values() {
    assert_eq!(parse_header_language(None), HeaderLanguage::Auto);
    assert_eq!(parse_header_language(Some("c")), HeaderLanguage::C);
    assert_eq!(parse_header_language(Some("  C\t")), HeaderLanguage::C);
    assert_eq!(parse_header_language(Some("C++")), HeaderLanguage::Cpp);
    assert_eq!(parse_header_language(Some("cxx")), HeaderLanguage::Cpp);
    assert_eq!(parse_header_language(Some("\u{3000}cpp\n")), HeaderLanguage::Cpp);
    assert_eq!(parse_header_language(Some("auto")), HeaderLanguage::Auto);
    assert_eq!(parse_header_language(Some("rust")), HeaderLanguage::Auto);
    assert_eq!(parse_header_language(Some("c c")), HeaderLanguage::Auto);
    assert_eq!(parse_header_language(Some("")), HeaderLanguage::Auto);
}

#[test]
fn config_from_headers_setting() {
    assert_eq!(
        ExtractConfig::from_headers_setting(Some("cpp")).header_language,
        HeaderLanguage::Cpp
    );
    assert_eq!(
        ExtractConfig::from_headers_setting(None).header_language,
        HeaderLanguage::Auto
    );
    assert_eq!(ExtractConfig::default().header_language, HeaderLanguage::Auto);
}

#[test]
fn cpp_markers_each_detected() {
    for m in [
        "namespace ", "class ", "template ", "typename ", "constexpr ", "noexcept", "public:",
        "private:", "protected:", "operator ", "std::", "extern \"C\"", "using ", "::",
    ] {
        let text = format!("int x;\n{m}\n");
        assert!(is_cpp_header(&text), "marker {m:?} not detected");
    }
    assert!(!is_cpp_header(""));
    assert!(!is_cpp_header("struct s; int f(void);"));
}

#[test]
fn cpp_marker_past_sample_is_ignored() {
    let mut text = "a".repeat(8192);
    text.push_str("namespace x {}");
    assert!(!is_cpp_header(&text));
    let mut text = "a".repeat(8180);
    text.push_str("namespace x {}");
    assert!(is_cpp_header(&text));
}

#[test]
fn project_header_hint() {
    let s = |v: &[&str]| v.iter().map(|x| x.to_string()).collect::<Vec<_>>();
    assert_eq!(header_hint(&s(&["cpp", "h"])), Some(HeaderLanguage::Cpp));
    assert_eq!(header_hint(&s(&["hxx"])), Some(HeaderLanguage::Cpp));
    assert_eq!(header_hint(&s(&["c", "h"])), Some(HeaderLanguage::C));
    assert_eq!(header_hint(&s(&["c", "cc"])), None);
    assert_eq!(header_hint(&s(&["h", "rs"])), None);
    assert_eq!(header_hint(&s(&[])), None);
}
