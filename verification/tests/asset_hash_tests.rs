use marie_ssg::asset_hash::{
    cleanup_old_hashed_files, compute_file_hash, export_manifest_to_json, hash_static_assets,
    hashed_filename, is_hashed_filename, resolve_asset_path, AssetManifest, StaticFile,
};

#[test]
fn test_is_hashed_filename() {
    // Valid hashed filenames
    assert!(is_hashed_filename("style.a1b2c3d4.css"));
    assert!(is_hashed_filename("app.12345678.js"));
    assert!(is_hashed_filename("main.abcdef12.css"));

    // Invalid: wrong extension
    assert!(!is_hashed_filename("image.a1b2c3d4.png"));
    assert!(!is_hashed_filename("font.12345678.woff"));

    // Invalid: wrong hash length
    assert!(!is_hashed_filename("style.a1b2c3.css")); // 6 chars
    assert!(!is_hashed_filename("style.a1b2c3d4e5.css")); // 10 chars

    // Invalid: non-hex characters
    assert!(!is_hashed_filename("style.ghijklmn.css"));

    // Invalid: no hash
    assert!(!is_hashed_filename("style.css"));
    assert!(!is_hashed_filename("app.js"));

    // Invalid: no extension
    assert!(!is_hashed_filename("style.a1b2c3d4"));
}

#[test]
fn is_hashed_filename_edge_cases() {
    assert!(is_hashed_filename(".a1b2c3d4.css"));
    assert!(is_hashed_filename("a.b.ABCDEF12.js"));
    assert!(!is_hashed_filename("a1b2c3d4.css"));
    assert!(!is_hashed_filename(""));
    assert!(!is_hashed_filename(".css"));
    assert!(!is_hashed_filename("style.a1b2c3d4.CSS"));
}

#[test]
fn test_compute_file_hash() {
    let hash = compute_file_hash(b"body { color: red; }");

    assert_eq!(hash.len(), 8);
    assert!(hash.chars().all(|c| c.is_ascii_hexdigit()));
}

#[test]
fn test_compute_file_hash_deterministic() {
    // Same content should produce same hash
    let hash1 = compute_file_hash(b"body { color: blue; }");
    let hash2 = compute_file_hash(b"body { color: blue; }");

    assert_eq!(hash1, hash2);
}

#[test]
fn test_compute_file_hash_different_content() {
    let hash1 = compute_file_hash(b"body { color: blue; }");
    let hash2 = compute_file_hash(b"body { color: red; }");

    assert_ne!(hash1, hash2);
}

#[test]
fn compute_file_hash_is_the_start_of_the_blake3_digest() {
    // The BLAKE3 digest of the empty input starts with af1349b9.
    assert_eq!(compute_file_hash(b""), "af1349b9");
}

#[test]
fn test_hashed_filename() {
    assert_eq!(hashed_filename("style.css", "a1b2c3d4"), "style.a1b2c3d4.css");
    assert_eq!(hashed_filename("app.js", "12345678"), "app.12345678.js");
    assert_eq!(
        hashed_filename("my.component.css", "abcdef12"),
        "my.component.abcdef12.css"
    );
}

#[test]
fn hashed_filename_without_extension() {
    assert_eq!(hashed_filename("LICENSE", "abcdef12"), "LICENSE.abcdef12");
}

fn file(path: &str, content: &str) -> StaticFile {
    StaticFile { relative_path: path.to_string(), content: content.as_bytes().to_vec() }
}

#[test]
fn test_hash_static_assets() {
    let files = vec![
        file("css/style.css", "body { margin: 0; }"),
        file("js/app.js", "console.log('hello');"),
        file("image.png", "not css or js"),
    ];

    let plan = hash_static_assets("site/static", "site/output", &files);
    let manifest = &plan.manifest;

    // Should have entries for CSS and JS
    assert_eq!(manifest.len(), 2);
    assert!(manifest.contains_key("css/style.css"));
    assert!(manifest.contains_key("js/app.js"));

    // Should not have entry for PNG
    assert!(!manifest.contains_key("image.png"));

    // The hashed copies are planned where the manifest says
    let css_hashed = manifest.get("css/style.css").unwrap();
    let js_hashed = manifest.get("js/app.js").unwrap();

    let css_filename = css_hashed.trim_start_matches("/static/");
    let js_filename = js_hashed.trim_start_matches("/static/");

    assert_eq!(plan.copies.len(), 2);
    assert_eq!(plan.copies[0].source, "site/static/css/style.css");
    assert_eq!(plan.copies[0].destination, format!("site/output/static/{}", css_filename));
    assert_eq!(plan.copies[1].source, "site/static/js/app.js");
    assert_eq!(plan.copies[1].destination, format!("site/output/static/{}", js_filename));
}

#[test]
fn hash_static_assets_names_copies_by_content() {
    let files = vec![file("css/style.css", "")];
    let plan = hash_static_assets("static", "out", &files);
    assert_eq!(plan.copies.len(), 1);
    assert_eq!(plan.copies[0].key, "css/style.css");
    assert_eq!(plan.copies[0].url, "/static/css/style.af1349b9.css");
    assert_eq!(plan.copies[0].destination, "out/static/css/style.af1349b9.css");
    assert_eq!(
        plan.manifest.get("css/style.css").map(|s| s.as_str()),
        Some("/static/css/style.af1349b9.css")
    );
}

#[test]
fn hash_static_assets_skips_hashed_copies_and_other_files() {
    let files = vec![
        file("style.a1b2c3d4.css", "old"),
        file("fonts/a.woff", "font"),
        file(".css", "odd"),
        file("app.js", "x"),
    ];
    let plan = hash_static_assets("static", "out", &files);
    assert_eq!(plan.manifest.len(), 1);
    assert!(plan.manifest.contains_key("app.js"));
}

#[test]
fn hash_static_assets_of_nothing_is_empty() {
    let plan = hash_static_assets("static", "out", &Vec::new());
    assert_eq!(plan.manifest.len(), 0);
    assert!(plan.copies.is_empty());
}

#[test]
fn rehashing_an_unchanged_tree_gives_the_same_manifest_and_no_orphans() {
    let files = vec![file("css/style.css", "body {}"), file("js/app.js", "let a = 1;")];
    let first = hash_static_assets("static", "out", &files);
    let second = hash_static_assets("static", "out", &files);
    assert_eq!(first.manifest.len(), second.manifest.len());
    for entry in &first.manifest.entries {
        assert_eq!(second.manifest.get(&entry.path), Some(&entry.url));
    }
    // Every copy of the first run is found by the clean-up of the second.
    let written: Vec<String> = first.copies.iter().map(|c| c.destination.clone()).collect();
    let stale = cleanup_old_hashed_files(&written);
    assert_eq!(stale, written);
}

#[test]
fn test_cleanup_old_hashed_files() {
    let files = vec![
        "out/static/style.a1b2c3d4.css".to_string(),
        "out/static/app.12345678.js".to_string(),
        "out/static/style.css".to_string(),
    ];

    let removed = cleanup_old_hashed_files(&files);

    assert_eq!(removed.len(), 2);
    assert!(removed.contains(&"out/static/style.a1b2c3d4.css".to_string()));
    assert!(removed.contains(&"out/static/app.12345678.js".to_string()));
    assert!(!removed.contains(&"out/static/style.css".to_string()));
}

#[test]
fn test_resolve_asset_path_with_manifest() {
    let mut manifest = AssetManifest::new();
    manifest.insert("css/style.css".to_string(), "/static/css/style.a1b2c3d4.css".to_string());

    // Various input formats should resolve correctly
    assert_eq!(
        resolve_asset_path(&manifest, "css/style.css"),
        "/static/css/style.a1b2c3d4.css"
    );
    assert_eq!(
        resolve_asset_path(&manifest, "static/css/style.css"),
        "/static/css/style.a1b2c3d4.css"
    );
    assert_eq!(
        resolve_asset_path(&manifest, "/static/css/style.css"),
        "/static/css/style.a1b2c3d4.css"
    );
}

#[test]
fn test_resolve_asset_path_without_manifest() {
    let manifest = AssetManifest::new();

    // Should return normalized path when not in manifest
    assert_eq!(resolve_asset_path(&manifest, "css/style.css"), "/static/css/style.css");
    assert_eq!(resolve_asset_path(&manifest, "static/css/style.css"), "/static/css/style.css");
    assert_eq!(resolve_asset_path(&manifest, "/static/css/style.css"), "/static/css/style.css");
}

#[test]
fn manifest_insert_replaces_an_entry() {
    let mut manifest = AssetManifest::new();
    manifest.insert("a.css".to_string(), "/static/a.11111111.css".to_string());
    manifest.insert("b.css".to_string(), "/static/b.22222222.css".to_string());
    manifest.insert("a.css".to_string(), "/static/a.33333333.css".to_string());
    assert_eq!(manifest.len(), 2);
    assert_eq!(manifest.get("a.css").map(|s| s.as_str()), Some("/static/a.33333333.css"));
    assert_eq!(manifest.get("b.css").map(|s| s.as_str()), Some("/static/b.22222222.css"));
    assert_eq!(manifest.get("c.css"), None);
}

#[test]
fn manifest_as_json() {
    let mut manifest = AssetManifest::new();
    assert_eq!(export_manifest_to_json(&manifest), "{}");
    manifest.insert("css/style.css".to_string(), "/static/css/style.a1b2c3d4.css".to_string());
    manifest.insert("js/app.js".to_string(), "/static/js/app.b5c6d7e8.js".to_string());
    assert_eq!(
        export_manifest_to_json(&manifest),
        "{\n  \"css/style.css\": \"/static/css/style.a1b2c3d4.css\",\n  \"js/app.js\": \"/static/js/app.b5c6d7e8.js\"\n}"
    );
    let mut odd = AssetManifest::new();
    odd.insert("a\"b\\c\n\u{1}.js".to_string(), "x\ty".to_string());
    assert_eq!(export_manifest_to_json(&odd), "{\n  \"a\\\"b\\\\c\\n\\u0001.js\": \"x\\ty\"\n}");
}

#[test]
fn the_manifest_is_exported_in_the_order_of_the_paths() {
    let mut manifest = AssetManifest::new();
    manifest.insert("js/app.js".to_string(), "/static/js/app.11111111.js".to_string());
    manifest.insert("css/style.css".to_string(), "/static/css/style.22222222.css".to_string());
    manifest.insert("js/app.js".to_string(), "/static/js/app.33333333.js".to_string());
    // An entry keeps its place when its URL is replaced.
    let paths: Vec<&str> = manifest.entries.iter().map(|e| e.path.as_str()).collect();
    assert_eq!(paths, vec!["js/app.js", "css/style.css"]);
    assert_eq!(
        export_manifest_to_json(&manifest),
        "{\n  \"css/style.css\": \"/static/css/style.22222222.css\",\n  \"js/app.js\": \"/static/js/app.33333333.js\"\n}"
    );
}
