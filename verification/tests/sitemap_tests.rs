use marie_ssg::config::{Config, ContentTypeConfig, ContentTypeEntry, SiteConfig};
use marie_ssg::content::{Content, ContentMeta, LoadedContent};
use marie_ssg::date::parse_rfc3339;
use marie_ssg::sitemap::{format_url_entry, generate_sitemap, path_to_url};

fn content_type(name: &str) -> ContentTypeEntry {
    ContentTypeEntry {
        name: name.to_string(),
        settings: ContentTypeConfig {
            index_template: format!("{}_index.html", name),
            content_template: "post.html".to_string(),
            url_pattern: None,
            output_naming: None,
            rss_include: None,
        },
    }
}

fn create_test_config() -> Config {
    Config {
        site: SiteConfig {
            title: "Test Site".to_string(),
            tagline: "A test site".to_string(),
            domain: "example.com".to_string(),
            author: "Test Author".to_string(),
            content_dir: "content".to_string(),
            output_dir: "output".to_string(),
            template_dir: "templates".to_string(),
            static_dir: "static".to_string(),
            site_index_template: "index.html".to_string(),
            syntax_highlighting_enabled: true,
            syntax_highlighting_theme: "github_dark".to_string(),
            root_static: Vec::new(),
            sitemap_enabled: true,
            rss_enabled: true,
            allow_dangerous_html: false,
            header_uri_fragment: false,
            clean_urls: false,
            asset_hashing_enabled: false,
            asset_manifest_path: None,
        },
        content: vec![content_type("posts")],
        dynamic: Vec::new(),
        redirects: Vec::new(),
    }
}

fn create_test_loaded_content(
    filename: &str,
    title: &str,
    date_str: &str,
    content_type: &str,
) -> LoadedContent {
    LoadedContent {
        path: format!("content/{}/{}.md", content_type, filename),
        content: Content {
            meta: ContentMeta {
                title: title.to_string(),
                date: parse_rfc3339(date_str).unwrap(),
                author: "Test Author".to_string(),
                tags: vec![],
                template: None,
                cover: None,
                extra: Vec::new(),
            },
            data: "# Test".to_string(),
        },
        html: "<h1>Test</h1>".to_string(),
        content_type: content_type.to_string(),
        output_path: format!("output/{}/{}.html", content_type, filename),
    }
}

#[test]
fn test_generate_sitemap_empty() {
    let config = create_test_config();
    let contents: Vec<LoadedContent> = vec![];

    let sitemap = generate_sitemap(&config, &contents);

    assert!(sitemap.contains(r#"<?xml version="1.0" encoding="UTF-8"?>"#));
    assert!(sitemap.contains(r#"<urlset xmlns="http://www.sitemaps.org/schemas/sitemap/0.9">"#));
    assert!(sitemap.contains("</urlset>"));
    // Should have homepage
    assert!(sitemap.contains("<loc>https://example.com/</loc>"));
    // Should have posts index
    assert!(sitemap.contains("<loc>https://example.com/posts/</loc>"));
}

#[test]
fn generate_sitemap_empty_whole_text() {
    let mut config = create_test_config();
    config.content.push(content_type("pages"));
    let sitemap = generate_sitemap(&config, &Vec::new());
    assert_eq!(
        sitemap,
        "<?xml version=\"1.0\" encoding=\"UTF-8\"?>\n<urlset xmlns=\"http://www.sitemaps.org/schemas/sitemap/0.9\">\n  <url>\n    <loc>https://example.com/</loc>\n  </url>\n  <url>\n    <loc>https://example.com/pages/</loc>\n  </url>\n  <url>\n    <loc>https://example.com/posts/</loc>\n  </url>\n</urlset>\n"
    );
}

#[test]
fn test_generate_sitemap_with_content() {
    let config = create_test_config();
    let contents = vec![
        create_test_loaded_content("hello-world", "Hello World", "2024-01-15T10:00:00+00:00", "posts"),
        create_test_loaded_content("second-post", "Second Post", "2024-02-20T12:00:00+00:00", "posts"),
    ];

    let sitemap = generate_sitemap(&config, &contents);

    // Check content URLs are included
    assert!(sitemap.contains("<loc>https://example.com/posts/hello-world.html</loc>"));
    assert!(sitemap.contains("<loc>https://example.com/posts/second-post.html</loc>"));

    // Check lastmod dates are included
    assert!(sitemap.contains("<lastmod>2024-01-15</lastmod>"));
    assert!(sitemap.contains("<lastmod>2024-02-20</lastmod>"));
}

#[test]
fn test_generate_sitemap_multiple_content_types() {
    let mut config = create_test_config();
    config.content.push(content_type("pages"));

    let contents = vec![
        create_test_loaded_content("post", "A Post", "2024-01-15T10:00:00+00:00", "posts"),
        create_test_loaded_content("about", "About", "2024-01-01T10:00:00+00:00", "pages"),
    ];

    let sitemap = generate_sitemap(&config, &contents);

    // Check both content type indexes are included
    assert!(sitemap.contains("<loc>https://example.com/posts/</loc>"));
    assert!(sitemap.contains("<loc>https://example.com/pages/</loc>"));

    // Check content from both types
    assert!(sitemap.contains("<loc>https://example.com/posts/post.html</loc>"));
    assert!(sitemap.contains("<loc>https://example.com/pages/about.html</loc>"));
}

#[test]
fn test_format_url_entry_without_lastmod() {
    let entry = format_url_entry("https://example.com", "/about/", None);

    assert!(entry.contains("<url>"));
    assert!(entry.contains("<loc>https://example.com/about/</loc>"));
    assert!(!entry.contains("<lastmod>"));
    assert!(entry.contains("</url>"));
}

#[test]
fn test_format_url_entry_with_lastmod() {
    let date = parse_rfc3339("2024-06-15T10:30:00+00:00").unwrap();
    let entry = format_url_entry("https://example.com", "/post.html", Some(&date));

    assert!(entry.contains("<loc>https://example.com/post.html</loc>"));
    assert!(entry.contains("<lastmod>2024-06-15</lastmod>"));
}

#[test]
fn format_url_entry_whole_text() {
    let date = parse_rfc3339("2024-06-05T23:30:00-03:00").unwrap();
    assert_eq!(
        format_url_entry("https://example.com", "/post.html", Some(&date)),
        "  <url>\n    <loc>https://example.com/post.html</loc>\n    <lastmod>2024-06-05</lastmod>\n  </url>\n"
    );
}

#[test]
fn test_path_to_url_unix_path() {
    assert_eq!(path_to_url("posts/hello-world.html"), "posts/hello-world.html");
}

#[test]
fn test_path_to_url_windows_path() {
    // Simulate a Windows-style path string
    let url = path_to_url("posts\\hello-world.html");
    // On Unix, backslash is a valid filename char, but we still convert it
    assert!(!url.contains('\\') || url == "posts\\hello-world.html");
    assert_eq!(url, "posts/hello-world.html");
}

#[test]
fn test_sitemap_valid_xml_structure() {
    let config = create_test_config();
    let contents = vec![create_test_loaded_content(
        "test",
        "Test",
        "2024-01-15T10:00:00+00:00",
        "posts",
    )];

    let sitemap = generate_sitemap(&config, &contents);

    // Count opening and closing tags to verify structure
    let url_opens = sitemap.matches("<url>").count();
    let url_closes = sitemap.matches("</url>").count();
    assert_eq!(url_opens, url_closes);

    let loc_opens = sitemap.matches("<loc>").count();
    let loc_closes = sitemap.matches("</loc>").count();
    assert_eq!(loc_opens, loc_closes);

    // Should have: homepage + posts index + 1 content = 3 URLs
    assert_eq!(url_opens, 3);
}

#[test]
fn sitemap_addresses_clean_urls_by_directory() {
    let mut config = create_test_config();
    config.site.clean_urls = true;
    let mut page = create_test_loaded_content("test", "Test", "2024-01-15T10:00:00+00:00", "posts");
    page.output_path = "output/posts/test/index.html".to_string();
    let sitemap = generate_sitemap(&config, &vec![page]);
    assert!(sitemap.contains("<loc>https://example.com/posts/test/</loc>"));
}

#[test]
fn sitemap_lists_type_indexes_by_name_whatever_the_order_declared() {
    let mut declared_one_way = create_test_config();
    declared_one_way.content =
        vec![content_type("posts"), content_type("pages"), content_type("Notes")];
    let mut declared_another_way = create_test_config();
    declared_another_way.content =
        vec![content_type("Notes"), content_type("pages"), content_type("posts")];

    let first = generate_sitemap(&declared_one_way, &Vec::new());
    let second = generate_sitemap(&declared_another_way, &Vec::new());
    assert_eq!(first, second);

    let notes = first.find("<loc>https://example.com/Notes/</loc>").unwrap();
    let pages = first.find("<loc>https://example.com/pages/</loc>").unwrap();
    let posts = first.find("<loc>https://example.com/posts/</loc>").unwrap();
    assert!(notes < pages);
    assert!(pages < posts);
}
