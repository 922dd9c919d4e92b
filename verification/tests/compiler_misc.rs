use volki_web::compiler::wasm_build::{rustc_failure_message, wasm_target_listed};
use volki_web::compiler::{find_class_occurrence, find_fn_start, is_static_asset};

#[test]
fn test_is_static_asset() {
    assert!(is_static_asset("css"));
    assert!(is_static_asset("svg"));
    assert!(is_static_asset("png"));
    assert!(is_static_asset("jpg"));
    assert!(is_static_asset("jpeg"));
    assert!(is_static_asset("gif"));
    assert!(is_static_asset("webp"));
    assert!(is_static_asset("avif"));
    assert!(is_static_asset("ico"));
    assert!(is_static_asset("woff"));
    assert!(is_static_asset("woff2"));
    assert!(is_static_asset("ttf"));
    assert!(is_static_asset("otf"));
    assert!(!is_static_asset("rs"));
    assert!(!is_static_asset("volki"));
    assert!(!is_static_asset("js"));
    assert!(!is_static_asset("html"));
}

#[test]
fn rustc_failure_messages() {
    assert_eq!(
        rustc_failure_message("error: the wasm32-unknown-unknown target may not be installed").as_str(),
        "wasm32-unknown-unknown target not installed.\n\n  Install it with: rustup target add wasm32-unknown-unknown"
    );
    assert_eq!(rustc_failure_message("boom").as_str(), "rustc failed:\nboom");
    assert!(wasm_target_listed("x86_64-unknown-linux-gnu\nwasm32-unknown-unknown\n"));
    assert!(!wasm_target_listed("x86_64-unknown-linux-gnu\n"));
}

#[test]
fn class_occurrence_line_and_column() {
    let src = "fn a() {}\n  <div class=\"card\">\n";
    assert_eq!(find_class_occurrence(src, "card"), Some((2, 15)));
    assert_eq!(find_class_occurrence(src, "fn"), Some((1, 1)));
    assert_eq!(find_class_occurrence(src, "missing"), None);
    assert_eq!(find_class_occurrence("", ""), Some((1, 1)));
}

#[test]
fn fn_start_walks_back_to_the_declaration() {
    let src = "use x;\npub fn page() -> Html { }";
    let arrow = src.find("Html").unwrap();
    assert_eq!(find_fn_start(src, arrow), 7);
    let src2 = "fn helper() -> Client { }";
    assert_eq!(find_fn_start(src2, src2.find("Client").unwrap()), 0);
    assert_eq!(find_fn_start("no declaration here", 10), 0);
}
