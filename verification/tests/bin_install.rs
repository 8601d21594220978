use codegraph::bin_install::{export_line, profile_addition, windows_path_value};

#[test]
fn export_line_prepends_the_directory() {
    assert_eq!(export_line("/home/u/.local/bin"), "export PATH=\"/home/u/.local/bin:$PATH\"");
}

#[test]
fn profile_gets_the_line_once() {
    let line = export_line("/home/u/.local/bin");
    let added = profile_addition("alias ll='ls -l'\n", &line).unwrap();
    assert_eq!(added, format!("\n{}\n", line));
    let after = format!("alias ll='ls -l'\n{}", added);
    assert_eq!(profile_addition(&after, &line), None);
}

#[test]
fn windows_path_is_extended_once() {
    assert_eq!(windows_path_value("", "C:\\bin").as_deref(), Some("C:\\bin"));
    assert_eq!(windows_path_value("C:\\Windows", "C:\\bin").as_deref(), Some("C:\\Windows;C:\\bin"));
    assert_eq!(windows_path_value("C:\\Windows;C:\\bin", "C:\\bin"), None);
}
