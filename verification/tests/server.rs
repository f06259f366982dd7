use spark_dashboard::server::{asset_path, static_reply, utc_offset_or_default, StaticReply};

#[test]
fn asset_paths() {
    assert_eq!(asset_path("/"), "index.html");
    assert_eq!(asset_path(""), "index.html");
    assert_eq!(asset_path("///"), "index.html");
    assert_eq!(asset_path("/assets/app.js"), "assets/app.js");
    assert_eq!(asset_path("//x//y"), "x//y");
}

#[test]
fn utc_offset_default() {
    assert_eq!(utc_offset_or_default(None), "-4");
    assert_eq!(utc_offset_or_default(Some("+2".to_string())), "+2");
}

#[test]
fn static_replies() {
    match static_reply("/assets/app.js", true, true) {
        StaticReply::Asset { content_type } => assert_eq!(content_type, "text/javascript"),
        _ => panic!("expected the asset"),
    }
    match static_reply("/", true, true) {
        StaticReply::Asset { content_type } => assert_eq!(content_type, "text/html"),
        _ => panic!("expected the asset"),
    }
    match static_reply("/noext", true, false) {
        StaticReply::Asset { content_type } => assert_eq!(content_type, "application/octet-stream"),
        _ => panic!("expected the asset"),
    }
    assert!(matches!(static_reply("/history", false, true), StaticReply::Index));
    assert!(matches!(static_reply("/history", false, false), StaticReply::NotFound));
}
