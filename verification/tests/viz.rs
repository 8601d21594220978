use codegraph::viz::{asset_path, content_type, static_response, BootConfig, StaticResponse, VizConfig};

#[test]
fn viz_config_serializes_boot() {
    let boot = BootConfig {
        target: Some("foo".into()),
        prefix: None,
        depth: 3,
    };
    let cfg = VizConfig {
        port: 7421,
        open_browser: false,
        boot,
    };
    assert_eq!(cfg.port, 7421);
}

#[test]
fn content_types_by_extension() {
    assert_eq!(content_type("index.html"), "text/html; charset=utf-8");
    assert_eq!(content_type("app.js"), "application/javascript; charset=utf-8");
    assert_eq!(content_type("style.css"), "text/css; charset=utf-8");
    assert_eq!(content_type("logo.png"), "application/octet-stream");
    assert_eq!(content_type("html"), "application/octet-stream");
    assert_eq!(content_type(""), "application/octet-stream");
}

#[test]
fn asset_paths() {
    assert_eq!(asset_path("/"), "index.html");
    assert_eq!(asset_path(""), "index.html");
    assert_eq!(asset_path("//app.js"), "app.js");
    assert_eq!(asset_path("/assets/a.css"), "assets/a.css");
}

#[test]
fn static_responses() {
    assert_eq!(
        static_response("app.js", true, true),
        StaticResponse::Asset("application/javascript; charset=utf-8")
    );
    assert_eq!(static_response("graph/view", false, true), StaticResponse::Index);
    assert_eq!(static_response("graph/view", false, false), StaticResponse::NotFound);
    assert_eq!(static_response("missing.js", false, true), StaticResponse::NotFound);
}
