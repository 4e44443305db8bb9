use marie_ssg::redirect::{generate_redirect_html, get_redirect_output_path};

#[test]
fn test_generate_redirect_html_basic() {
    let html = generate_redirect_html("/articles/new-post/", "example.com");

    assert!(html.contains("<!DOCTYPE html>"));
    assert!(html.contains(r#"content="0; url=/articles/new-post/""#));
    assert!(html.contains(r#"href="https://example.com/articles/new-post/""#));
    assert!(html.contains(r#"<a href="/articles/new-post/">"#));
}

#[test]
fn test_generate_redirect_html_with_date_prefix() {
    let html = generate_redirect_html("/articles/2025-12-29-my-article/", "www.vectorian.be");

    assert!(html.contains(r#"url=/articles/2025-12-29-my-article/"#));
    assert!(html.contains("https://www.vectorian.be/articles/2025-12-29-my-article/"));
}

#[test]
fn generate_redirect_html_whole_page() {
    let html = generate_redirect_html("/a/", "example.com");
    assert_eq!(
        html,
        "<!DOCTYPE html>\n<html>\n<head>\n  <meta charset=\"utf-8\">\n  <meta http-equiv=\"refresh\" content=\"0; url=/a/\">\n  <link rel=\"canonical\" href=\"https://example.com/a/\">\n  <title>Redirecting...</title>\n</head>\n<body>\n  <p>Redirecting to <a href=\"/a/\">/a/</a>...</p>\n</body>\n</html>\n"
    );
}

#[test]
fn test_get_redirect_output_path_trailing_slash() {
    let result = get_redirect_output_path("/articles/old-slug/", "dist");
    assert_eq!(result, "dist/articles/old-slug/index.html");
}

#[test]
fn test_get_redirect_output_path_html_extension() {
    let result = get_redirect_output_path("/articles/old-slug.html", "dist");
    assert_eq!(result, "dist/articles/old-slug.html");
}

#[test]
fn test_get_redirect_output_path_no_trailing_slash() {
    let result = get_redirect_output_path("/articles/old-slug", "dist");
    assert_eq!(result, "dist/articles/old-slug/index.html");
}

#[test]
fn test_get_redirect_output_path_root() {
    let result = get_redirect_output_path("/old-page/", "output");
    assert_eq!(result, "output/old-page/index.html");
}

#[test]
fn test_get_redirect_output_path_nested() {
    let result = get_redirect_output_path("/blog/2024/january/post/", "out");
    assert_eq!(result, "out/blog/2024/january/post/index.html");
}

#[test]
fn test_get_redirect_output_path_different_output_dir() {
    let result = get_redirect_output_path("/page/", "public/html");
    assert_eq!(result, "public/html/page/index.html");
}

#[test]
fn get_redirect_output_path_of_the_root() {
    assert_eq!(get_redirect_output_path("/", "out"), "out/index.html");
    assert_eq!(get_redirect_output_path("//old", "out"), "out/old/index.html");
}
