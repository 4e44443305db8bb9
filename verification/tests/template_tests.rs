use marie_ssg::config::{Config, SiteConfig};
use marie_ssg::content::{Content, ContentMeta, LoadedContent};
use marie_ssg::date::{parse_rfc3339, PublishDate};
use marie_ssg::sort::{are_distinct, is_text_before, order_newest_first, order_rising};
use marie_ssg::text::chars_of;
use marie_ssg::template::{content_item, format_long_date, index_items};

fn create_test_config(template_dir: &str, output_dir: &str) -> Config {
    Config {
        site: SiteConfig {
            title: "Test Site".to_string(),
            tagline: "A test tagline".to_string(),
            domain: "example.com".to_string(),
            author: "Test Author".to_string(),
            content_dir: "content".to_string(),
            output_dir: output_dir.to_string(),
            template_dir: template_dir.to_string(),
            static_dir: "static".to_string(),
            site_index_template: "index.html".to_string(),
            syntax_highlighting_enabled: false,
            syntax_highlighting_theme: "github_dark".to_string(),
            root_static: Vec::new(),
            sitemap_enabled: false,
            rss_enabled: false,
            allow_dangerous_html: false,
            header_uri_fragment: false,
            clean_urls: false,
            asset_hashing_enabled: false,
            asset_manifest_path: None,
        },
        content: Vec::new(),
        dynamic: Vec::new(),
        redirects: Vec::new(),
    }
}

fn loaded(name: &str, title: &str, date: &str, content_type: &str, data: &str) -> LoadedContent {
    LoadedContent {
        path: format!("{}.md", name),
        content: Content {
            meta: ContentMeta {
                title: title.to_string(),
                date: parse_rfc3339(date).unwrap(),
                author: "Test Author".to_string(),
                tags: vec!["rust".to_string(), "testing".to_string()],
                template: None,
                cover: None,
                extra: Vec::new(),
            },
            data: data.to_string(),
        },
        html: format!("<h1>{}</h1>", title),
        content_type: content_type.to_string(),
        output_path: format!("output/{}/{}.html", content_type, name),
    }
}

#[test]
fn test_render_index_from_loaded_empty_list() {
    let config = create_test_config("templates", "output");
    let pages: Vec<LoadedContent> = Vec::new();
    let items = index_items(&config, &pages, None);
    assert_eq!(items.len(), 0);
}

#[test]
fn test_render_index_from_loaded_with_content() {
    let config = create_test_config("templates", "output");
    let pages = vec![loaded("test", "Test Article", "2024-01-15T10:00:00-05:00", "blog", "# Test")];
    let items = index_items(&config, &pages, Some("blog"));
    assert_eq!(items.len(), 1);
    assert_eq!(items[0].page.content.meta.title, "Test Article");
    assert_eq!(items[0].formatted_date, "January 15, 2024");
    assert_eq!(items[0].filename, "blog/test.html");
    assert_eq!(items[0].page.content_type, "blog");
}

#[test]
fn test_render_index_sorts_by_date_descending() {
    let config = create_test_config("templates", "output");
    // Pass in non-sorted order
    let pages = vec![
        loaded("old", "Old Post", "2024-01-01T10:00:00-05:00", "blog", "# Old"),
        loaded("new", "New Post", "2024-12-15T10:00:00-05:00", "blog", "# New"),
        loaded("mid", "Mid Post", "2024-06-15T10:00:00-05:00", "blog", "# Mid"),
    ];
    let items = index_items(&config, &pages, Some("blog"));
    let titles: Vec<&str> = items.iter().map(|i| i.page.content.meta.title.as_str()).collect();
    // Should be sorted newest first: New, Mid, Old
    assert_eq!(titles, vec!["New Post", "Mid Post", "Old Post"]);
}

#[test]
fn test_render_index_with_excerpt() {
    let config = create_test_config("templates", "output");
    let pages = vec![loaded(
        "test",
        "Test Article",
        "2024-01-15T10:00:00-05:00",
        "blog",
        "# Title\n\n## Context\n\nThis is the excerpt.",
    )];
    let items = index_items(&config, &pages, None);
    assert!(items[0].excerpt.contains("This is the excerpt"));
}

#[test]
fn test_render_index_with_all_content() {
    let config = create_test_config("templates", "output");
    let pages = vec![
        loaded("first", "First Post", "2024-01-15T10:00:00-05:00", "blog", "# First"),
        loaded("second", "Second Post", "2024-02-15T10:00:00-05:00", "pages", "# Second"),
    ];
    // Only the first item on the index of its type, but both on that of the site
    let filtered = index_items(&config, &pages, Some("blog"));
    let all = index_items(&config, &pages, None);
    assert_eq!(filtered.len(), 1);
    assert_eq!(all.len(), 2);
    assert_eq!(filtered[0].page.content.meta.title, "First Post");
    assert_eq!(all[0].page.content.meta.title, "Second Post");
    assert_eq!(all[1].page.content.meta.title, "First Post");
}

#[test]
fn content_item_of_a_page_outside_the_output_directory() {
    let config = create_test_config("templates", "output");
    let mut page = loaded("a", "A", "2024-03-05T10:00:00+00:00", "blog", "x");
    page.output_path = "elsewhere/a.html".to_string();
    let item = content_item(&config, &page);
    assert_eq!(item.filename, "elsewhere/a.html");
    assert_eq!(item.formatted_date, "March 05, 2024");
    assert_eq!(item.excerpt, "");
}

#[test]
fn long_dates() {
    let d = |text: &str| parse_rfc3339(text).unwrap();
    assert_eq!(format_long_date(&d("2024-01-15T10:00:00-05:00")), "January 15, 2024");
    assert_eq!(format_long_date(&d("0987-12-01T00:00:00+00:00")), "December 01, 0987");
    let broken = PublishDate { month: 13, ..d("2024-01-15T10:00:00-05:00") };
    assert_eq!(format_long_date(&broken), "");
}

#[test]
fn newest_first_is_stable() {
    let d = |text: &str| parse_rfc3339(text).unwrap();
    let dates = vec![
        d("2024-01-01T10:00:00+00:00"),
        d("2024-03-01T10:00:00+00:00"),
        d("2024-01-01T11:00:00+01:00"),
        d("2023-01-01T10:00:00+00:00"),
        d("2024-03-01T10:00:00.5+00:00"),
    ];
    assert_eq!(order_newest_first(&dates), vec![4, 1, 0, 2, 3]);
    assert_eq!(order_newest_first(&Vec::new()), Vec::<usize>::new());
}

#[test]
fn names_in_the_order_of_a_dictionary() {
    let keys: Vec<Vec<char>> =
        ["posts", "pages", "", "post", "Posts", "pages", "é"].iter().map(|k| chars_of(k)).collect();
    assert_eq!(order_rising(&keys), vec![2, 4, 1, 5, 3, 0, 6]);
    assert_eq!(order_rising(&Vec::new()), Vec::<usize>::new());
    assert!(is_text_before(&chars_of("pages"), &chars_of("posts")));
    assert!(is_text_before(&chars_of("post"), &chars_of("posts")));
    assert!(is_text_before(&chars_of(""), &chars_of("a")));
    assert!(!is_text_before(&chars_of("a"), &chars_of("a")));
    assert!(!is_text_before(&chars_of("b"), &chars_of("a")));
    assert!(!are_distinct(&keys));
    assert!(are_distinct(&keys[..5].to_vec()));
}
