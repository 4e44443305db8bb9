use marie_ssg::config::{Config, ContentTypeConfig, ContentTypeEntry, SiteConfig};
use marie_ssg::content::{Content, ContentMeta, LoadedContent};
use marie_ssg::date::{format_rfc2822, parse_rfc3339};
use marie_ssg::rss::{format_item, generate_rss, should_include_in_rss, xml_escape};
use marie_ssg::sitemap::path_to_url;

fn content_type(name: &str, rss_include: Option<bool>) -> ContentTypeEntry {
    ContentTypeEntry {
        name: name.to_string(),
        settings: ContentTypeConfig {
            index_template: format!("{}_index.html", name),
            content_template: "post.html".to_string(),
            url_pattern: None,
            output_naming: None,
            rss_include,
        },
    }
}

fn create_test_config() -> Config {
    Config {
        site: SiteConfig {
            title: "Test Site".to_string(),
            tagline: "A test site".to_string(),
            domain: "example.com".to_string(),
            author: "Test Author".to_string(),
            content_dir: "content".to_string(),
            output_dir: "output".to_string(),
            template_dir: "templates".to_string(),
            static_dir: "static".to_string(),
            site_index_template: "index.html".to_string(),
            syntax_highlighting_enabled: true,
            syntax_highlighting_theme: "github_dark".to_string(),
            root_static: Vec::new(),
            sitemap_enabled: true,
            rss_enabled: true,
            allow_dangerous_html: false,
            header_uri_fragment: false,
            clean_urls: false,
            asset_hashing_enabled: false,
            asset_manifest_path: None,
        },
        content: vec![content_type("posts", None)],
        dynamic: Vec::new(),
        redirects: Vec::new(),
    }
}

fn create_test_meta(title: &str, date_str: &str, author: &str) -> ContentMeta {
    ContentMeta {
        title: title.to_string(),
        date: parse_rfc3339(date_str).unwrap(),
        author: author.to_string(),
        tags: vec![],
        template: None,
        cover: None,
        extra: Vec::new(),
    }
}

fn create_test_loaded_content(
    filename: &str,
    title: &str,
    date_str: &str,
    content_type: &str,
    markdown: &str,
) -> LoadedContent {
    LoadedContent {
        path: format!("content/{}/{}.md", content_type, filename),
        content: Content {
            meta: create_test_meta(title, date_str, "Test Author"),
            data: markdown.to_string(),
        },
        html: "<h1>Test</h1>".to_string(),
        content_type: content_type.to_string(),
        output_path: format!("output/{}/{}.html", content_type, filename),
    }
}

#[test]
fn test_generate_rss_empty() {
    let config = create_test_config();
    let contents: Vec<LoadedContent> = vec![];

    let rss = generate_rss(&config, &contents);

    assert!(rss.contains(r#"<?xml version="1.0" encoding="UTF-8"?>"#));
    assert!(rss.contains(r#"<rss version="2.0" xmlns:atom="http://www.w3.org/2005/Atom">"#));
    assert!(rss.contains("<title>Test Site</title>"));
    assert!(rss.contains("<link>https://example.com</link>"));
    assert!(rss.contains("<description>A test site</description>"));
    assert!(rss.contains("</rss>"));
}

#[test]
fn generate_rss_empty_whole_text() {
    let config = create_test_config();
    let rss = generate_rss(&config, &Vec::new());
    assert_eq!(
        rss,
        "<?xml version=\"1.0\" encoding=\"UTF-8\"?>\n<rss version=\"2.0\" xmlns:atom=\"http://www.w3.org/2005/Atom\">\n  <channel>\n    <title>Test Site</title>\n    <link>https://example.com</link>\n    <description>A test site</description>\n    <language>en</language>\n    <managingEditor>Test Author</managingEditor>\n    <atom:link href=\"https://example.com/feed.xml\" rel=\"self\" type=\"application/rss+xml\"/>\n  </channel>\n</rss>\n"
    );
}

#[test]
fn test_generate_rss_with_content() {
    let config = create_test_config();
    let contents = vec![
        create_test_loaded_content(
            "hello-world",
            "Hello World",
            "2024-01-15T10:00:00+00:00",
            "posts",
            "# Hello\n\n## Context\n\nThis is the excerpt.",
        ),
        create_test_loaded_content(
            "second-post",
            "Second Post",
            "2024-02-20T12:00:00+00:00",
            "posts",
            "# Second\n\n## Context\n\nAnother excerpt.",
        ),
    ];

    let rss = generate_rss(&config, &contents);

    // Check items are included
    assert!(rss.contains("<title>Hello World</title>"));
    assert!(rss.contains("<title>Second Post</title>"));
    assert!(rss.contains("<link>https://example.com/posts/hello-world.html</link>"));
    assert!(rss.contains("<link>https://example.com/posts/second-post.html</link>"));
}

#[test]
fn test_generate_rss_sorted_by_date() {
    let config = create_test_config();
    let contents = vec![
        create_test_loaded_content(
            "older",
            "Older Post",
            "2024-01-01T10:00:00+00:00",
            "posts",
            "# Older",
        ),
        create_test_loaded_content(
            "newer",
            "Newer Post",
            "2024-02-01T10:00:00+00:00",
            "posts",
            "# Newer",
        ),
    ];

    let rss = generate_rss(&config, &contents);

    // Newer post should appear before older post
    let newer_pos = rss.find("<title>Newer Post</title>").unwrap();
    let older_pos = rss.find("<title>Older Post</title>").unwrap();
    assert!(newer_pos < older_pos, "Newer post should appear before older post");
}

#[test]
fn test_generate_rss_filters_by_rss_include() {
    let mut config = create_test_config();
    config.content.push(content_type("pages", Some(false)));

    let contents = vec![
        create_test_loaded_content("post", "A Post", "2024-01-15T10:00:00+00:00", "posts", "# Post"),
        create_test_loaded_content(
            "about",
            "About Page",
            "2024-01-01T10:00:00+00:00",
            "pages",
            "# About",
        ),
    ];

    let rss = generate_rss(&config, &contents);

    // Post should be included
    assert!(rss.contains("<title>A Post</title>"));
    // Page should be excluded
    assert!(!rss.contains("<title>About Page</title>"));
}

#[test]
fn test_generate_rss_with_excerpt() {
    let config = create_test_config();
    let contents = vec![create_test_loaded_content(
        "test",
        "Test Post",
        "2024-01-15T10:00:00+00:00",
        "posts",
        "# Test\n\n## Context\n\nThis is my excerpt content.\n\n## Other Section\n\nMore content.",
    )];

    let rss = generate_rss(&config, &contents);

    assert!(rss.contains("<description>"));
    assert!(rss.contains("excerpt content"));
}

#[test]
fn test_xml_escape() {
    assert_eq!(xml_escape("hello"), "hello");
    assert_eq!(xml_escape("a & b"), "a &amp; b");
    assert_eq!(xml_escape("<tag>"), "&lt;tag&gt;");
    assert_eq!(xml_escape("\"quoted\""), "&quot;quoted&quot;");
    assert_eq!(xml_escape("it's"), "it&apos;s");
    assert_eq!(
        xml_escape("Tom & Jerry's <adventure>"),
        "Tom &amp; Jerry&apos;s &lt;adventure&gt;"
    );
}

#[test]
fn test_format_rfc2822() {
    let date = parse_rfc3339("2024-01-15T10:30:00+00:00").unwrap();
    let formatted = format_rfc2822(&date);

    // RFC 2822 format: "Mon, 15 Jan 2024 10:30:00 +0000"
    assert!(formatted.contains("2024"));
    assert!(formatted.contains("Jan"));
    assert!(formatted.contains("10:30:00"));
}

#[test]
fn format_rfc2822_exact_text_with_offset() {
    let date = parse_rfc3339("2024-01-15T10:30:00+00:00").unwrap();
    assert_eq!(format_rfc2822(&date), "Mon, 15 Jan 2024 10:30:00 +0000");
    let date = parse_rfc3339("2023-12-15T10:30:00+05:00").unwrap();
    assert_eq!(format_rfc2822(&date), "Fri, 15 Dec 2023 10:30:00 +0500");
}

#[test]
fn test_path_to_url() {
    assert_eq!(path_to_url("posts/hello-world.html"), "posts/hello-world.html");
}

#[test]
fn test_should_include_in_rss_default() {
    let config = create_test_config();

    // posts has rss_include: None -> should include
    assert!(should_include_in_rss(&config, "posts"));

    // unknown content type -> should include by default
    assert!(should_include_in_rss(&config, "unknown"));
}

#[test]
fn test_should_include_in_rss_explicit() {
    let mut config = create_test_config();
    config.content.push(content_type("drafts", Some(false)));
    config.content.push(content_type("notes", Some(true)));

    assert!(!should_include_in_rss(&config, "drafts"));
    assert!(should_include_in_rss(&config, "notes"));
}

#[test]
fn test_rss_valid_xml_structure() {
    let config = create_test_config();
    let contents = vec![create_test_loaded_content(
        "test",
        "Test",
        "2024-01-15T10:00:00+00:00",
        "posts",
        "# Test",
    )];

    let rss = generate_rss(&config, &contents);

    // Count opening and closing tags
    let item_opens = rss.matches("<item>").count();
    let item_closes = rss.matches("</item>").count();
    assert_eq!(item_opens, item_closes);

    let channel_opens = rss.matches("<channel>").count();
    let channel_closes = rss.matches("</channel>").count();
    assert_eq!(channel_opens, channel_closes);
    assert_eq!(channel_opens, 1);
}

#[test]
fn format_item_whole_text() {
    let config = create_test_config();
    let page = create_test_loaded_content(
        "a-b",
        "Tom & Jerry",
        "2024-01-15T10:30:00+00:00",
        "posts",
        "# No excerpt here",
    );
    assert_eq!(
        format_item(&config, &page),
        "    <item>\n      <title>Tom &amp; Jerry</title>\n      <link>https://example.com/posts/a-b.html</link>\n      <guid>https://example.com/posts/a-b.html</guid>\n      <author>Test Author</author>\n      <pubDate>Mon, 15 Jan 2024 10:30:00 +0000</pubDate>\n    </item>\n"
    );
}

#[test]
fn format_item_with_clean_urls() {
    let mut config = create_test_config();
    config.site.clean_urls = true;
    let mut page = create_test_loaded_content(
        "a-b",
        "T",
        "2024-01-15T10:30:00+00:00",
        "posts",
        "# T",
    );
    page.output_path = "output/posts/a-b/index.html".to_string();
    let item = format_item(&config, &page);
    assert!(item.contains("<link>https://example.com/posts/a-b/</link>"));
}

#[test]
fn generate_rss_keeps_discovery_order_among_equal_dates() {
    let config = create_test_config();
    let contents = vec![
        create_test_loaded_content("one", "One", "2024-01-01T10:00:00+00:00", "posts", "# 1"),
        create_test_loaded_content("two", "Two", "2024-01-01T12:00:00+02:00", "posts", "# 2"),
        create_test_loaded_content("three", "Three", "2024-03-01T10:00:00+00:00", "posts", "# 3"),
    ];
    let rss = generate_rss(&config, &contents);
    let one = rss.find("<title>One</title>").unwrap();
    let two = rss.find("<title>Two</title>").unwrap();
    let three = rss.find("<title>Three</title>").unwrap();
    assert!(three < one);
    assert!(one < two);
}
