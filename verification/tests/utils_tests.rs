use marie_ssg::config::{
    Config, ContentTypeConfig, ContentTypeEntry, DynamicEntry, RedirectEntry, RootStaticEntry,
    SiteConfig,
};
use marie_ssg::resolver::{get_content_type_template, url_pattern_for};
use marie_ssg::syntax::DEFAULT_THEME;

fn entry(name: &str, content_template: &str, index_template: &str) -> ContentTypeEntry {
    ContentTypeEntry {
        name: name.to_string(),
        settings: ContentTypeConfig {
            content_template: content_template.to_string(),
            index_template: index_template.to_string(),
            url_pattern: None,
            output_naming: Some("default".to_string()),
            rss_include: None,
        },
    }
}

fn create_test_config() -> Config {
    Config {
        site: SiteConfig {
            title: "Test Site".to_string(),
            tagline: "Hello world".to_string(),
            domain: "test.com".to_string(),
            author: "Test Author".to_string(),
            output_dir: "out".to_string(),
            content_dir: "src/content".to_string(),
            template_dir: "templates".to_string(),
            static_dir: "static".to_string(),
            site_index_template: "site_index.html".to_string(),
            syntax_highlighting_enabled: true,
            syntax_highlighting_theme: DEFAULT_THEME.to_string(),
            root_static: Vec::new(),
            sitemap_enabled: false,
            rss_enabled: false,
            allow_dangerous_html: false,
            header_uri_fragment: false,
            clean_urls: false,
            asset_hashing_enabled: false,
            asset_manifest_path: None,
        },
        content: vec![
            entry("projects", "project.html", "projects_index.html"),
            entry("blog", "blog_post.html", "blog_index.html"),
        ],
        dynamic: Vec::new(),
        redirects: Vec::new(),
    }
}

#[test]
fn test_get_content_type_template_returns_configured_template() {
    let config = create_test_config();
    let result = get_content_type_template(&config, "projects");

    assert_eq!(result, "project.html");
}

#[test]
fn test_get_content_type_template_falls_back_to_default() {
    let config = create_test_config();
    let result = get_content_type_template(&config, "unknown");

    assert_eq!(result, "default.html");
}

#[test]
fn url_pattern_precedence() {
    let mut config = create_test_config();
    // Neither pattern nor dated naming: the stem alone.
    assert_eq!(url_pattern_for(&config, "projects"), "{stem}");
    assert_eq!(url_pattern_for(&config, "unknown"), "{stem}");
    // The legacy flag gives the dated pattern.
    config.content[1].settings.output_naming = Some("date".to_string());
    assert_eq!(url_pattern_for(&config, "blog"), "{date}-{stem}");
    // An explicit pattern has priority.
    config.content[1].settings.url_pattern = Some("{year}/{stem}".to_string());
    assert_eq!(url_pattern_for(&config, "blog"), "{year}/{stem}");
    config.content[1].settings.output_naming = None;
    assert_eq!(url_pattern_for(&config, "blog"), "{year}/{stem}");
}

#[test]
fn find_content_type_takes_the_first_of_a_name() {
    let mut config = create_test_config();
    config.content.push(entry("blog", "other.html", "other_index.html"));
    assert_eq!(get_content_type_template(&config, "blog"), "blog_post.html");
    assert!(config.find_content_type("Blog").is_none());
}

#[test]
fn a_configuration_gives_no_key_twice() {
    let config = create_test_config();
    assert!(config.is_well_formed());
    assert!(config.has_unique_types());

    let mut twice = create_test_config();
    twice.content.push(entry("blog", "other.html", "other_index.html"));
    assert!(!twice.has_unique_types());
    assert!(!twice.is_well_formed());

    let root = |name: &str| RootStaticEntry { output_name: name.to_string(), source: "x".to_string() };
    let mut twice = create_test_config();
    twice.site.root_static = vec![root("favicon.ico"), root("robots.txt"), root("favicon.ico")];
    assert!(twice.has_unique_types());
    assert!(!twice.is_well_formed());

    let mut twice = create_test_config();
    twice.dynamic = vec![
        DynamicEntry { key: "a".to_string(), value: "1".to_string() },
        DynamicEntry { key: "a".to_string(), value: "2".to_string() },
    ];
    assert!(!twice.is_well_formed());

    let mut twice = create_test_config();
    twice.redirects = vec![
        RedirectEntry { from: "/a/".to_string(), to: "/b/".to_string() },
        RedirectEntry { from: "/a/".to_string(), to: "/c/".to_string() },
    ];
    assert!(!twice.is_well_formed());
}
