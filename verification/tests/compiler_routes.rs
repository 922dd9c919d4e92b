use volki_web::compiler::routes::{
    add_unique, api_methods, dir_to_module, dir_to_url, entry_module_name, filename_to_const,
    filename_to_fn, mod_file_content, root_mod_source, routes_in_dir, wasm_asset, DiscoveredRoute,
    RouteKind,
};

#[test]
fn test_dir_to_url_root() {
    let root = "/project";
    let dir = "/project/app";
    assert_eq!(dir_to_url(dir, root).as_str(), "/");
}

#[test]
fn test_dir_to_url_nested() {
    let root = "/project";
    let dir = "/project/app/api/tables";
    assert_eq!(dir_to_url(dir, root).as_str(), "/api/tables");
}

#[test]
fn test_dir_to_module_root() {
    let root = "/project";
    let dir = "/project/app";
    assert_eq!(dir_to_module(dir, root).as_str(), "app");
}

#[test]
fn test_dir_to_module_nested() {
    let root = "/project";
    let dir = "/project/app/api/tables";
    assert_eq!(dir_to_module(dir, root).as_str(), "app::api::tables");
}

#[test]
fn test_add_unique_deduplicates() {
    let mut v = Vec::new();
    add_unique(&mut v, String::from("page"));
    add_unique(&mut v, String::from("shared"));
    add_unique(&mut v, String::from("page"));
    assert_eq!(v.len(), 2);
}

#[test]
fn dir_outside_root_maps_to_defaults() {
    assert_eq!(dir_to_url("/elsewhere", "/project").as_str(), "/");
    assert_eq!(dir_to_module("/elsewhere", "/project").as_str(), "");
    assert_eq!(dir_to_url("/project/apple", "/project").as_str(), "/");
}

#[test]
fn api_methods_in_order() {
    let src = "pub fn post(r: &Request) {}\npub fn get(r: &Request) {}\nfn put() {}";
    let ms = api_methods(src);
    let names: Vec<&str> = ms.iter().map(|s| s.as_str()).collect();
    assert_eq!(names, vec!["get", "post"]);
}

#[test]
fn routes_in_dir_page_notfound_api() {
    let rs = routes_in_dir(
        "/p/app/api",
        "/p",
        Some("pub fn page() {}\npub fn metadata() {}"),
        true,
        Some("pub fn delete(r: &Request) {}"),
    );
    assert_eq!(rs.len(), 3);
    assert!(rs[0].kind == RouteKind::Page);
    assert_eq!(rs[0].url_path.as_str(), "/api");
    assert_eq!(rs[0].mod_path.as_str(), "app::api::page");
    assert!(rs[0].has_metadata);
    assert!(rs[1].kind == RouteKind::NotFound);
    assert_eq!(rs[1].mod_path.as_str(), "app::api::not_found");
    assert!(rs[2].kind == RouteKind::Api);
    assert_eq!(rs[2].methods.len(), 1);
    assert_eq!(rs[2].methods[0].as_str(), "delete");
}

#[test]
fn routes_in_dir_api_without_methods_skipped() {
    let rs = routes_in_dir("/p/app", "/p", None, false, Some("fn helper() {}"));
    assert_eq!(rs.len(), 0);
}

#[test]
fn entry_modules_rules() {
    assert_eq!(entry_module_name("about", true, false).unwrap().as_str(), "about");
    assert!(entry_module_name(".git", true, false).is_none());
    assert!(entry_module_name("public", true, false).is_none());
    assert!(entry_module_name("mod.rs", false, true).is_none());
    assert_eq!(entry_module_name("page.volki", false, true).unwrap().as_str(), "page");
    assert_eq!(entry_module_name("shared.rs", false, true).unwrap().as_str(), "shared");
    assert!(entry_module_name("style.css", false, true).is_none());
    assert!(entry_module_name(".rs", false, true).is_none());
}

#[test]
fn mod_file_sorted_and_unique() {
    let entries = vec![
        (String::from("zeta.rs"), false, true),
        (String::from("alpha"), true, false),
        (String::from("zeta.volki"), false, true),
        (String::from("mod.rs"), false, true),
        (String::from("beta.volki"), false, true),
    ];
    let out = mod_file_content(&entries);
    assert_eq!(
        out.as_str(),
        "//! @generated by volki compiler \u{2014} do not edit.\n\npub mod alpha;\npub mod beta;\npub mod zeta;\n"
    );
}

#[test]
fn asset_names() {
    assert_eq!(filename_to_const("page_glue.js").as_str(), "PAGE_GLUE_JS");
    assert_eq!(filename_to_fn("Page-Glue.js").as_str(), "__serve_page_glue_js");
    let a = wasm_asset("app.wasm").unwrap();
    assert!(a.is_wasm);
    assert_eq!(a.const_name.as_str(), "APP_WASM");
    let j = wasm_asset("glue.js").unwrap();
    assert!(!j.is_wasm);
    assert!(wasm_asset("notes.txt").is_none());
}

#[test]
fn root_mod_without_assets() {
    let routes = vec![
        DiscoveredRoute {
            kind: RouteKind::Page,
            url_path: String::from("/"),
            mod_path: String::from("app::page"),
            methods: Vec::new(),
            has_metadata: false,
        },
        DiscoveredRoute {
            kind: RouteKind::Api,
            url_path: String::from("/api/t"),
            mod_path: String::from("app::api::t::route"),
            methods: vec![String::from("get")],
            has_metadata: false,
        },
    ];
    let out = root_mod_source("pub mod app;\n", &routes, Some("public"), &[]);
    let expected = "pub mod app;\n\nuse crate::libs::web::server::Server;\nuse crate::libs::web::router::file_route::FileRoute;\npub fn start(host: &str, port: u16) -> ! {\n    Server::new()\n        .host(host)\n        .port(port)\n        .public_dir(\"public\")\n        .page(\"/\", app::page::page)\n        .file_route(\n            \"/api/t\",\n            FileRoute::new().get(app::api::t::route::get),\n        )\n        .listen()\n}\n";
    assert_eq!(out.as_str(), expected);
}

#[test]
fn root_mod_with_asset() {
    let assets = vec![wasm_asset("glue.js").unwrap()];
    let out = root_mod_source("", &[], None, &assets);
    assert!(out.contains("const GLUE_JS: &str = include_str!(\"public/wasm/glue.js\");\n"));
    assert!(out.contains("fn __serve_glue_js(_req: &Request) -> Response {\n"));
    assert!(out.contains("        .api(\"/wasm/glue.js\", __serve_glue_js)\n"));
    assert!(!out.contains("FileRoute"));
}
