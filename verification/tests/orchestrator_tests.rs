use marie_ssg::config::{Config, RedirectEntry, SiteConfig};
use marie_ssg::content::{Content, ContentMeta, LoadedContent};
use marie_ssg::date::parse_rfc3339;
use marie_ssg::orchestrator::{
    build, build_fresh, default_config_file, feed_path, first_collision, first_stage, flame,
    get_paths_to_watch, next_stage, site_index_path, sitemap_path, stage_enabled, type_index_path,
    BuildStage, FlameOutput,
};

fn config() -> Config {
    Config {
        site: SiteConfig {
            title: "Test Site".to_string(),
            tagline: "A test tagline".to_string(),
            domain: "example.com".to_string(),
            author: "Test Author".to_string(),
            output_dir: "output".to_string(),
            content_dir: "content".to_string(),
            template_dir: "templates".to_string(),
            static_dir: "static".to_string(),
            site_index_template: "index.html".to_string(),
            syntax_highlighting_enabled: true,
            syntax_highlighting_theme: "github_dark".to_string(),
            root_static: Vec::new(),
            sitemap_enabled: false,
            rss_enabled: false,
            allow_dangerous_html: false,
            header_uri_fragment: false,
            clean_urls: false,
            asset_hashing_enabled: false,
            asset_manifest_path: None,
        },
        content: Vec::new(),
        dynamic: Vec::new(),
        redirects: Vec::new(),
    }
}

fn page(output_path: &str) -> LoadedContent {
    LoadedContent {
        path: "content/a.md".to_string(),
        content: Content {
            meta: ContentMeta {
                title: "T".to_string(),
                date: parse_rfc3339("2024-01-15T10:00:00+00:00").unwrap(),
                author: "A".to_string(),
                tags: vec![],
                template: None,
                cover: None,
                extra: Vec::new(),
            },
            data: String::new(),
        },
        html: String::new(),
        content_type: "blog".to_string(),
        output_path: output_path.to_string(),
    }
}

#[test]
fn build_test_get_paths_to_watch() {
    let config = config();
    let config_file = "site.toml";

    let paths = get_paths_to_watch(config_file, &config);

    // Should contain 4 paths: config file + 3 dirs
    assert_eq!(paths.len(), 4);
    assert!(paths.contains(&"site.toml".to_string()));
    assert!(paths.contains(&"content".to_string()));
    assert!(paths.contains(&"templates".to_string()));
    assert!(paths.contains(&"static".to_string()));
}

#[test]
fn main_test_get_paths_to_watch() {
    let config = config();
    let config_file = "site.toml";

    let paths = get_paths_to_watch(config_file, &config);

    // Should contain 4 paths: config file + 3 dirs
    assert_eq!(paths.len(), 4);
    assert!(paths.contains(&"site.toml".to_string()));
    assert!(paths.contains(&"content".to_string()));
    assert!(paths.contains(&"templates".to_string()));
    assert!(paths.contains(&"static".to_string()));
}

#[test]
fn default_config_file_is_site_toml() {
    assert_eq!(default_config_file(), "site.toml");
}

#[test]
fn a_plain_build_runs_the_fixed_stages_in_order() {
    let plan = build(&config());
    assert!(!plan.fresh_templates);
    assert_eq!(
        plan.stages,
        vec![
            BuildStage::SyncStatic,
            BuildStage::DiscoverContent,
            BuildStage::TransformContent,
            BuildStage::WritePages,
            BuildStage::WriteTypeIndexes,
            BuildStage::WriteSiteIndex,
        ]
    );
}

#[test]
fn a_full_build_runs_every_stage() {
    let mut config = config();
    config.site.asset_hashing_enabled = true;
    config.site.asset_manifest_path = Some("assets.json".to_string());
    config.site.sitemap_enabled = true;
    config.site.rss_enabled = true;
    config.redirects.push(RedirectEntry { from: "/a/".to_string(), to: "/b/".to_string() });
    let plan = build_fresh(&config);
    assert!(plan.fresh_templates);
    assert_eq!(
        plan.stages,
        vec![
            BuildStage::SyncStatic,
            BuildStage::HashAssets,
            BuildStage::ExportManifest,
            BuildStage::DiscoverContent,
            BuildStage::TransformContent,
            BuildStage::WritePages,
            BuildStage::WriteTypeIndexes,
            BuildStage::WriteSiteIndex,
            BuildStage::WriteSitemap,
            BuildStage::WriteFeed,
            BuildStage::WriteRedirects,
        ]
    );
}

#[test]
fn the_manifest_is_exported_only_when_assets_are_hashed() {
    let mut config = config();
    config.site.asset_manifest_path = Some("assets.json".to_string());
    assert!(!stage_enabled(&config, BuildStage::ExportManifest));
    assert!(!stage_enabled(&config, BuildStage::HashAssets));
    config.site.asset_hashing_enabled = true;
    assert!(stage_enabled(&config, BuildStage::ExportManifest));
    config.site.asset_manifest_path = None;
    assert!(!stage_enabled(&config, BuildStage::ExportManifest));
    assert!(stage_enabled(&config, BuildStage::HashAssets));
}

#[test]
fn a_failure_ends_the_build() {
    let config = config();
    assert_eq!(first_stage(), BuildStage::SyncStatic);
    assert_eq!(next_stage(&config, BuildStage::TransformContent, false), BuildStage::Failed);
    assert_eq!(next_stage(&config, BuildStage::Failed, true), BuildStage::Failed);
    assert_eq!(next_stage(&config, BuildStage::TransformContent, true), BuildStage::WritePages);
    assert_eq!(next_stage(&config, BuildStage::SyncStatic, true), BuildStage::DiscoverContent);
    assert_eq!(next_stage(&config, BuildStage::WriteSiteIndex, true), BuildStage::Done);
    assert_eq!(next_stage(&config, BuildStage::Done, true), BuildStage::Done);
}

#[test]
fn flame_defaults_to_a_flame_graph() {
    match flame("flamechart", false, false, false) {
        FlameOutput::FoldedStacks { folded_path, svg_path, keep_folded } => {
            assert_eq!(folded_path, "flamechart.folded");
            assert_eq!(svg_path, Some("flamechart.svg".to_string()));
            assert!(!keep_folded);
        }
        other => panic!("expected folded stacks, got {:?}", other),
    }
}

#[test]
fn flame_formats() {
    match flame("out/p", true, false, false) {
        FlameOutput::FoldedStacks { folded_path, svg_path, keep_folded } => {
            assert_eq!(folded_path, "out/p.folded");
            assert_eq!(svg_path, None);
            assert!(keep_folded);
        }
        other => panic!("expected folded stacks, got {:?}", other),
    }
    match flame("p", true, true, false) {
        FlameOutput::FoldedStacks { svg_path, keep_folded, .. } => {
            assert_eq!(svg_path, Some("p.svg".to_string()));
            assert!(keep_folded);
        }
        other => panic!("expected folded stacks, got {:?}", other),
    }
    match flame("p", true, true, true) {
        FlameOutput::ChromeTimeline { json_path } => assert_eq!(json_path, "p.json"),
        other => panic!("expected a timeline, got {:?}", other),
    }
}

#[test]
fn paths_of_indexes_and_feeds() {
    assert_eq!(type_index_path("dist", "blog"), "dist/blog/index.html");
    assert_eq!(site_index_path("dist/"), "dist/index.html");
    assert_eq!(sitemap_path("dist"), "dist/sitemap.xml");
    assert_eq!(feed_path("/var/www"), "/var/www/feed.xml");
}

#[test]
fn first_collision_finds_pages_with_one_output_path() {
    let pages = vec![page("dist/a.html"), page("dist/b.html"), page("dist/c.html")];
    assert_eq!(first_collision(&pages), None);
    let pages =
        vec![page("dist/a.html"), page("dist/b.html"), page("dist/b.html"), page("dist/a.html")];
    assert_eq!(first_collision(&pages), Some((1, 2)));
    assert_eq!(first_collision(&Vec::new()), None);
}
