use marie_ssg::date::{parse_rfc3339, PublishDate};
use marie_ssg::resolver::{
    add_date_prefix, build_output_path, get_content_type, get_output_path, resolve_url_pattern,
};

fn date(text: &str) -> PublishDate {
    parse_rfc3339(text).expect("a valid RFC 3339 timestamp")
}

#[test]
fn test_get_output_path_converts_md_to_html() {
    let result = get_output_path("src/content/projects/local-rs.md", "src/content", "out");
    assert_eq!(result, "out/projects/local-rs.html");
}

#[test]
fn test_get_content_type_extracts_directory() {
    let result = get_content_type("src/content/projects/local-rs.md", "src/content");
    assert_eq!(result, "projects");
}

#[test]
fn test_get_content_type_falls_back_to_page() {
    let result = get_content_type("different/path/file.md", "src/content");
    assert_eq!(result, "page");
}

#[test]
fn test_get_output_path() {
    let result = get_output_path("src/content/projects/local-rs.md", "src/content", "out");
    assert_eq!(result, "out/projects/local-rs.html");

    let result2 = get_output_path("content/blog/post.md", "content", "dist");
    assert_eq!(result2, "dist/blog/post.html");
}

#[test]
fn test_get_output_path_error_case() {
    let result = get_output_path("some/other/dir/file.md", "src/content", "out");
    assert_eq!(result, "out/error.html");
}

#[test]
fn test_get_content_type_nested_directory() {
    let result = get_content_type("src/content/blog/tech/rust/post.md", "src/content");
    assert_eq!(result, "blog");
}

#[test]
fn test_add_date_prefix() {
    let d = date("2023-05-15T00:00:00+00:00");
    let result = add_date_prefix("out/posts/my-post.html", &d);
    assert_eq!(result, "out/posts/2023-05-15-my-post.html");
}

#[test]
fn test_add_date_prefix_nested_path() {
    let d = date("2024-12-31T00:00:00+00:00");
    let result = add_date_prefix("dist/blog/tech/rust/article.html", &d);
    assert_eq!(result, "dist/blog/tech/rust/2024-12-31-article.html");
}

#[test]
fn test_add_date_prefix_root_file() {
    let d = date("2023-01-01T00:00:00+00:00");
    let result = add_date_prefix("output.html", &d);
    assert_eq!(result, "2023-01-01-output.html");
}

#[test]
fn resolve_pattern_takes_date_from_metadata() {
    let d = date("2025-12-12T08:00:00+01:00");
    let result = resolve_url_pattern("{date}-{stem}", "2024-01-15-old-article.md", &d);
    assert_eq!(result, "2025-12-12-old-article");
}

#[test]
fn resolve_pattern_fills_every_placeholder() {
    let d = date("2025-03-07T08:00:00+00:00");
    let result = resolve_url_pattern("{year}/{month}/{day}/{stem}", "notes.markdown", &d);
    assert_eq!(result, "2025/03/07/notes");
}

#[test]
fn resolve_pattern_leaves_unknown_placeholders() {
    let d = date("2025-03-07T08:00:00+00:00");
    let result = resolve_url_pattern("{slug}-{stem}-{", "a.md", &d);
    assert_eq!(result, "{slug}-a-{");
}

#[test]
fn resolve_pattern_keeps_malformed_date_prefix() {
    let d = date("2025-03-07T08:00:00+00:00");
    assert_eq!(resolve_url_pattern("{stem}", "2024-1-15-post.md", &d), "2024-1-15-post");
    assert_eq!(resolve_url_pattern("{stem}", "2024-01-15_post.md", &d), "2024-01-15_post");
    assert_eq!(resolve_url_pattern("{stem}", "20240115-post.md", &d), "20240115-post");
    assert_eq!(resolve_url_pattern("{stem}", "post.txt", &d), "post.txt");
}

#[test]
fn build_output_path_clean_and_plain() {
    assert_eq!(build_output_path("blog", "my-post", "dist", true), "dist/blog/my-post/index.html");
    assert_eq!(build_output_path("blog", "my-post", "dist", false), "dist/blog/my-post.html");
}

#[test]
fn build_output_path_with_nested_pattern() {
    assert_eq!(
        build_output_path("blog", "2025/03/my-post", "out/site/", false),
        "out/site/blog/2025/03/my-post.html"
    );
}

#[test]
fn content_type_of_file_directly_in_content_dir_is_page() {
    assert_eq!(get_content_type("content/about.md", "content"), "page");
    assert_eq!(get_content_type("content/projects/x.md", "content"), "projects");
    assert_eq!(get_content_type("other/x.md", "content"), "page");
    assert_eq!(get_content_type("contents/projects/x.md", "content"), "page");
}

#[test]
fn add_date_prefix_takes_the_date_from_the_metadata() {
    let d = date("2025-12-12T08:00:00+00:00");
    assert_eq!(
        add_date_prefix("dist/blog/2024-01-15-old-article.html", &d),
        "dist/blog/2025-12-12-old-article.html"
    );
    // A prefix that is no date stays part of the name.
    assert_eq!(
        add_date_prefix("dist/blog/2024-1-15-old-article.html", &d),
        "dist/blog/2025-12-12-2024-1-15-old-article.html"
    );
    assert_eq!(add_date_prefix("dist/blog/2024-01-15-.html", &d), "dist/blog/2025-12-12-.html");
}
