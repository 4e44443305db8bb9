use marie_ssg::config::{Config, ContentTypeConfig, ContentTypeEntry, SiteConfig};
use marie_ssg::content::{
    collect_in_order, convert_content_with_highlighting, find_markdown_files, get_excerpt_html,
    is_markdown_file, metadata_path, transform_content, Content, ContentMeta, ExtraEntry,
    WalkEntry,
};
use marie_ssg::date::parse_rfc3339;
use marie_ssg::error::ContentError;

// Helper function to create test metadata
fn create_test_metadata() -> ContentMeta {
    ContentMeta {
        title: "Test Post".to_string(),
        date: parse_rfc3339("2023-12-15T10:30:00+05:00").unwrap(), // UTC+5
        author: "Test Author".to_string(),
        tags: vec!["rust".to_string(), "testing".to_string()],
        template: Some("custom.html".to_string()),
        cover: Some("/images/test-cover.jpg".to_string()),
        extra: Vec::new(),
    }
}

fn content(data: &str) -> Content {
    Content { meta: create_test_metadata(), data: data.to_string() }
}

fn config(clean_urls: bool) -> Config {
    Config {
        site: SiteConfig {
            title: "Test Site".to_string(),
            tagline: "A test site".to_string(),
            domain: "example.com".to_string(),
            author: "Test Author".to_string(),
            content_dir: "content".to_string(),
            output_dir: "dist".to_string(),
            template_dir: "templates".to_string(),
            static_dir: "static".to_string(),
            site_index_template: "index.html".to_string(),
            syntax_highlighting_enabled: false,
            syntax_highlighting_theme: "github_dark".to_string(),
            root_static: Vec::new(),
            sitemap_enabled: true,
            rss_enabled: true,
            allow_dangerous_html: false,
            header_uri_fragment: false,
            clean_urls,
            asset_hashing_enabled: false,
            asset_manifest_path: None,
        },
        content: vec![
            ContentTypeEntry {
                name: "blog".to_string(),
                settings: ContentTypeConfig {
                    index_template: "blog_index.html".to_string(),
                    content_template: "post.html".to_string(),
                    url_pattern: None,
                    output_naming: Some("date".to_string()),
                    rss_include: None,
                },
            },
            ContentTypeEntry {
                name: "notes".to_string(),
                settings: ContentTypeConfig {
                    index_template: "notes_index.html".to_string(),
                    content_template: "note.html".to_string(),
                    url_pattern: Some("{year}/{stem}".to_string()),
                    output_naming: Some("date".to_string()),
                    rss_include: None,
                },
            },
        ],
        dynamic: Vec::new(),
        redirects: Vec::new(),
    }
}

#[test]
fn test_get_excerpt_html_with_summary() {
    let markdown = r#"
Some introductory text.

## Summary
This is the excerpt text that should be extracted.
It can have **bold** and *italic* formatting.

## Main Content
The rest of the content goes here.
"#;

    let excerpt = get_excerpt_html(markdown, "## Summary", false);
    assert!(excerpt.contains("This is the excerpt text"));
    assert!(excerpt.contains("<strong>bold</strong>"));
    assert!(excerpt.contains("<em>italic</em>"));
    assert!(!excerpt.contains("Main Content")); // Should stop before next heading
}

#[test]
fn test_get_excerpt_html_no_summary() {
    let markdown = r#"
Some content without a summary section.

## Another Heading
Just regular content.
"#;

    let excerpt = get_excerpt_html(markdown, "## Summary", false);
    assert_eq!(excerpt, "");
}

#[test]
fn test_get_excerpt_html_summary_at_end() {
    let markdown = r#"
## Summary
This is the only content.
"#;

    let excerpt = get_excerpt_html(markdown, "## Summary", false);
    assert!(excerpt.contains("This is the only content"));
}

#[test]
fn test_get_excerpt_html_with_different_headings() {
    let markdown = r#"
## Summary
Excerpt content here.

### Subheading
This should not be included.
"#;

    let excerpt = get_excerpt_html(markdown, "## Summary", false);
    assert!(excerpt.contains("Excerpt content here"));
    assert!(!excerpt.contains("Subheading"));
}

#[test]
fn test_get_excerpt_html_with_single_hash_heading() {
    let markdown = r#"
## Summary
Excerpt content.

# Main Heading
Should not be included.
"#;

    let excerpt = get_excerpt_html(markdown, "## Summary", false);
    assert!(excerpt.contains("Excerpt content"));
    assert!(!excerpt.contains("Main Heading"));
}

#[test]
fn test_get_excerpt_html_empty_input() {
    let excerpt = get_excerpt_html("", "## Summary", false);
    assert_eq!(excerpt, "");
}

#[test]
fn test_get_excerpt_html_pattern_not_found() {
    let markdown = "Just some regular content without the pattern.";
    let excerpt = get_excerpt_html(markdown, "## Summary", false);
    assert_eq!(excerpt, "");
}

#[test]
fn test_get_excerpt_html_with_custom_pattern() {
    let markdown = r#"
Some text.

<!-- excerpt -->
This is a custom excerpt pattern.

## Content
Main content.
"#;

    let excerpt = get_excerpt_html(markdown, "<!-- excerpt -->", false);
    assert!(excerpt.contains("This is a custom excerpt pattern"));
    assert!(!excerpt.contains("Main content"));
}

#[test]
fn test_get_excerpt_html_no_end_heading() {
    let markdown = r#"
## Summary
This is the excerpt.
This continues until the end of the string.
"#;
    let excerpt = get_excerpt_html(markdown, "## Summary", false);
    assert!(excerpt.contains("This is the excerpt"));
    assert!(excerpt.contains("end of the string"));
}

#[test]
fn test_get_excerpt_html_exact_match_end() {
    let markdown = "## Summary";
    let excerpt = get_excerpt_html(markdown, "## Summary", false);
    assert_eq!(excerpt, "");
}

#[test]
fn test_get_excerpt_html_with_dangerous_html_disabled() {
    let markdown = "## Summary\n\n<div class=\"custom\">Custom content</div>";
    let excerpt = get_excerpt_html(markdown, "## Summary", false);
    // HTML should be escaped
    assert!(excerpt.contains("&lt;div"));
}

#[test]
fn test_get_excerpt_html_with_dangerous_html_enabled() {
    let markdown = "## Summary\n\n<div class=\"custom\">Custom content</div>";
    let excerpt = get_excerpt_html(markdown, "## Summary", true);
    // HTML should be preserved
    assert!(excerpt.contains("<div class=\"custom\">"));
}

#[test]
fn get_excerpt_html_exact_text() {
    let excerpt = get_excerpt_html("# T\n\n## Context\n\n  One *two*.  \n\n## Next\n", "## Context", false);
    assert_eq!(excerpt, "<p>One <em>two</em>.</p>");
}

#[test]
fn test_convert_content_with_highlighting_enabled() {
    let content = content("# Hello World\n\n```rust\nfn main() {\n    println!(\"test\");\n}\n```");

    let result =
        convert_content_with_highlighting(&content, "test.md", true, "github_dark", false, false);
    assert!(result.is_ok());
    let html = result.unwrap();
    assert!(html.contains("<h1>Hello World</h1>"));
    // Should have highlighted the code block
    assert!(html.contains("fn"));
    assert!(html.contains("main"));
    assert!(html.contains("language-rust"));
}

#[test]
fn test_convert_content_with_highlighting_disabled() {
    let content = content("# Hello World\n\n```rust\nfn main() {}\n```");

    let result =
        convert_content_with_highlighting(&content, "test.md", false, "github_dark", false, false);
    assert!(result.is_ok());
    let html = result.unwrap();
    assert!(html.contains("<h1>Hello World</h1>"));
    // Should have plain code block without highlighting
    assert!(html.contains("<pre><code"));
    // Should not have inline styles from highlighting
    assert!(!html.contains("style="));
}

#[test]
fn test_convert_content_with_highlighting_unknown_language() {
    let content = content("# Test\n\n```unknownlang\nsome code\n```");

    let result =
        convert_content_with_highlighting(&content, "test.md", true, "github_dark", false, false);
    // Should still succeed - unknown languages fall back to plain text
    assert!(result.is_ok());
}

#[test]
fn test_convert_content_with_dangerous_html_disabled() {
    let content = content(
        "# Test\n\n<figure><img src=\"test.jpg\"><figcaption>Caption</figcaption></figure>",
    );

    let result =
        convert_content_with_highlighting(&content, "test.md", false, "github_dark", false, false);
    assert!(result.is_ok());
    let html = result.unwrap();
    // HTML should be escaped when dangerous HTML is disabled
    assert!(html.contains("&lt;figure&gt;"));
}

#[test]
fn test_convert_content_with_dangerous_html_enabled() {
    let content = content(
        "# Test\n\n<figure><img src=\"test.jpg\"><figcaption>Caption</figcaption></figure>",
    );

    let result =
        convert_content_with_highlighting(&content, "test.md", false, "github_dark", true, false);
    assert!(result.is_ok());
    let html = result.unwrap();
    // HTML should be preserved when dangerous HTML is enabled
    assert!(html.contains("<figure>"));
    assert!(html.contains("<figcaption>"));
}

#[test]
fn test_convert_content_with_header_uri_fragment_enabled() {
    let content = content(
        "# Main Title\n\nSome text.\n\n## Section One\n\nMore text.\n\n## Section Two\n\nEven more text.",
    );

    let result =
        convert_content_with_highlighting(&content, "test.md", false, "github_dark", false, true);
    assert!(result.is_ok());
    let html = result.unwrap();

    // Headers should have id attributes and anchor links
    assert!(html.contains("id=\"main-title\""));
    assert!(html.contains("href=\"#main-title\""));
    assert!(html.contains("id=\"section-one\""));
    assert!(html.contains("href=\"#section-one\""));
    assert!(html.contains("id=\"section-two\""));
    assert!(html.contains("href=\"#section-two\""));
}

#[test]
fn test_convert_content_with_header_uri_fragment_disabled() {
    let content = content("# Main Title\n\nSome text.");

    let result =
        convert_content_with_highlighting(&content, "test.md", false, "github_dark", false, false);
    assert!(result.is_ok());
    let html = result.unwrap();

    // Headers should NOT have id attributes when disabled
    assert!(!html.contains("id=\"main-title\""));
    assert!(html.contains("<h1>Main Title</h1>"));
}

#[test]
fn convert_content_anchored_heading_exact_text() {
    let content = content("## Section One");
    let html =
        convert_content_with_highlighting(&content, "a.md", false, "github_dark", false, true)
            .unwrap();
    assert_eq!(
        html,
        "<h2 id=\"section-one\"><a href=\"#section-one\">Section One</a></h2>"
    );
}

#[test]
fn convert_content_with_unknown_theme_names_the_file() {
    let content = content("```rust\nfn main() {}\n```");
    let result = convert_content_with_highlighting(
        &content,
        "content/blog/a.md",
        true,
        "no_such_theme",
        false,
        false,
    );
    match result {
        Err(ContentError::SyntaxHighlighting { path, message }) => {
            assert_eq!(path, "content/blog/a.md");
            assert!(message.starts_with("Invalid theme 'no_such_theme': "));
        }
        other => panic!("expected a highlighting error, got {:?}", other),
    }
}

#[test]
fn test_find_markdown_files() {
    let entry = |path: &str, is_file: bool| WalkEntry { path: path.to_string(), is_file };
    let entries = vec![
        entry("content", false),
        entry("content/index.md", true),
        entry("content/blog", false),
        entry("content/blog/post1.md", true),
        entry("content/blog/post2.markdown", true),
        entry("content/projects", false),
        entry("content/projects/readme.md", true),
        entry("content/style.css", true),
        entry("content/blog/script.js", true),
        entry("content/dir.md", false),
    ];

    let result = find_markdown_files(&entries);

    assert_eq!(result.len(), 4);
    assert!(result.iter().any(|p| p.ends_with("index.md")));
    assert!(result.iter().any(|p| p.ends_with("post1.md")));
    assert!(result.iter().any(|p| p.ends_with("post2.markdown")));
    assert!(result.iter().any(|p| p.ends_with("readme.md")));

    // Verify non-markdown files are not included
    assert!(!result.iter().any(|p| p.ends_with("style.css")));
    assert!(!result.iter().any(|p| p.ends_with("script.js")));

    // The order of the walk is kept
    assert_eq!(
        result,
        vec![
            "content/index.md",
            "content/blog/post1.md",
            "content/blog/post2.markdown",
            "content/projects/readme.md"
        ]
    );
}

#[test]
fn test_find_markdown_files_empty_directory() {
    let result = find_markdown_files(&Vec::new());
    assert_eq!(result.len(), 0);
}

#[test]
fn test_find_markdown_files_no_markdown() {
    let entries = vec![
        WalkEntry { path: "content/index.txt".to_string(), is_file: true },
        WalkEntry { path: "content/style.css".to_string(), is_file: true },
    ];
    let result = find_markdown_files(&entries);
    assert_eq!(result.len(), 0);
}

#[test]
fn is_markdown_file_by_name() {
    assert!(is_markdown_file("a/b.md"));
    assert!(is_markdown_file("b.markdown"));
    assert!(!is_markdown_file("a/.md"));
    assert!(!is_markdown_file("a/b.MD"));
    assert!(is_markdown_file("a/b.md/"));
    assert!(!is_markdown_file(""));
    assert!(!is_markdown_file("a/bmd"));
}

#[test]
fn metadata_path_of_content_file() {
    assert_eq!(metadata_path("content/blog/hello-world.md"), "content/blog/hello-world.meta.toml");
    assert_eq!(metadata_path("/tmp/x/test.md"), "/tmp/x/test.meta.toml");
    assert_eq!(metadata_path("nonexistent.md"), "nonexistent.meta.toml");
}

#[test]
fn collect_in_order_keeps_discovery_order() {
    let results: Vec<Result<u32, String>> = vec![Ok(3), Ok(1), Ok(2)];
    assert_eq!(collect_in_order(results), Ok(vec![3, 1, 2]));
    let none: Vec<Result<u32, String>> = Vec::new();
    assert_eq!(collect_in_order(none), Ok(Vec::new()));
}

#[test]
fn collect_in_order_fails_with_the_first_error() {
    let results: Vec<Result<u32, String>> =
        vec![Ok(3), Err("second".to_string()), Ok(2), Err("fourth".to_string())];
    assert_eq!(collect_in_order(results), Err("second".to_string()));
}

#[test]
fn one_malformed_file_fails_the_whole_transformation() {
    let cfg = config(false);
    let paths = ["content/blog/a.md", "content/blog/b.md", "content/blog/c.md"];
    let results: Vec<Result<_, ContentError>> = paths
        .iter()
        .map(|p| {
            if *p == "content/blog/b.md" {
                Err(ContentError::TomlParse {
                    path: metadata_path(p),
                    message: "expected a table key".to_string(),
                })
            } else {
                transform_content(&cfg, p, content("# Body"))
            }
        })
        .collect();
    match collect_in_order(results) {
        Err(ContentError::TomlParse { path, .. }) => assert_eq!(path, "content/blog/b.meta.toml"),
        other => panic!("expected the parse error, got {:?}", other.map(|v| v.len())),
    }
}

#[test]
fn transform_content_places_the_page() {
    let cfg = config(false);
    let loaded = transform_content(&cfg, "content/blog/2020-01-01-hello.md", content("# Hi")).unwrap();
    assert_eq!(loaded.path, "content/blog/2020-01-01-hello.md");
    assert_eq!(loaded.content_type, "blog");
    assert_eq!(loaded.html, "<h1>Hi</h1>");
    // The legacy naming gives the dated pattern; the date is that of the metadata.
    assert_eq!(loaded.output_path, "dist/blog/2023-12-15-hello.html");
    assert_eq!(loaded.content.data, "# Hi");

    // An explicit pattern has priority over the legacy naming.
    let loaded = transform_content(&cfg, "content/notes/n.md", content("x")).unwrap();
    assert_eq!(loaded.output_path, "dist/notes/2023/n.html");

    // An undeclared type uses the stem.
    let loaded = transform_content(&cfg, "content/pages/about.md", content("x")).unwrap();
    assert_eq!(loaded.content_type, "pages");
    assert_eq!(loaded.output_path, "dist/pages/about.html");

    let clean = config(true);
    let loaded = transform_content(&clean, "content/blog/hello.md", content("x")).unwrap();
    assert_eq!(loaded.output_path, "dist/blog/2023-12-15-hello/index.html");
}

#[test]
fn metadata_gives_no_field_twice() {
    let field = |key: &str| ExtraEntry { key: key.to_string(), value: "v".to_string() };
    let mut meta = create_test_metadata();
    assert!(meta.is_well_formed());
    meta.extra = vec![field("subtitle"), field("category")];
    assert!(meta.is_well_formed());
    meta.extra.push(field("subtitle"));
    assert!(!meta.is_well_formed());
    let mut meta = create_test_metadata();
    meta.date.month = 0;
    assert!(!meta.is_well_formed());
}
