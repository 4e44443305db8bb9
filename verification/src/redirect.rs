//! Redirect pages: a stub that sends the reader on, and where it is written.

use vstd::prelude::*;
use crate::paths::{join, path_text, path_view, SitePath};
use crate::text::{chars_of, copy_range, ends_with, leading_end, push_str, string_of, trim_leading};

verus! {

/// The page that redirects to `target_path` on the site at `domain`.
pub open spec fn redirect_html(target_path: Seq<char>, domain: Seq<char>) -> Seq<char> {
    "<!DOCTYPE html>\n<html>\n<head>\n  <meta charset=\"utf-8\">\n  <meta http-equiv=\"refresh\" content=\"0; url="@
        + target_path + "\">\n  <link rel=\"canonical\" href=\"https://"@ + domain + target_path
        + "\">\n  <title>Redirecting...</title>\n</head>\n<body>\n  <p>Redirecting to <a href=\""@
        + target_path + "\">"@ + target_path + "</a>...</p>\n</body>\n</html>\n"@
}

/// The page that redirects to `target_path`: it refreshes at once, names the
/// destination as the canonical address, and offers a link to follow.
pub fn generate_redirect_html(target_path: &str, domain: &str) -> (r: String)
    ensures
        r@ == redirect_html(target_path@, domain@),
{
    let mut out: Vec<char> = Vec::new();
    push_str(
        &mut out,
        "<!DOCTYPE html>\n<html>\n<head>\n  <meta charset=\"utf-8\">\n  <meta http-equiv=\"refresh\" content=\"0; url=",
    );
    assert(out@
        == "<!DOCTYPE html>\n<html>\n<head>\n  <meta charset=\"utf-8\">\n  <meta http-equiv=\"refresh\" content=\"0; url="@)
        by {
        assert(forall|s: Seq<char>| Seq::<char>::empty() + s =~= s);
    }
    push_str(&mut out, target_path);
    push_str(&mut out, "\">\n  <link rel=\"canonical\" href=\"https://");
    push_str(&mut out, domain);
    push_str(&mut out, target_path);
    push_str(
        &mut out,
        "\">\n  <title>Redirecting...</title>\n</head>\n<body>\n  <p>Redirecting to <a href=\"",
    );
    push_str(&mut out, target_path);
    push_str(&mut out, "\">");
    push_str(&mut out, target_path);
    push_str(&mut out, "</a>...</p>\n</body>\n</html>\n");
    string_of(out.as_slice())
}

/// The ending of a page's file name.
pub open spec fn html_suffix() -> Seq<char> {
    seq!['.', 'h', 't', 'm', 'l']
}

/// The file, below the output directory, that answers for the URL path
/// `from_path`: `index.html` in the directory that the path names, or the
/// path itself where it ends in `.html`.
pub open spec fn redirect_file(from_path: Seq<char>) -> Seq<char> {
    let path = trim_leading(from_path, seq!['/']);
    if seq!['/'].is_suffix_of(from_path) {
        path + "index.html"@
    } else if html_suffix().is_suffix_of(from_path) {
        path
    } else {
        path + "/index.html"@
    }
}

/// Where the redirect page for the URL path `from_path` is written.
pub fn get_redirect_output_path(from_path: &str, output_dir: &str) -> (r: String)
    ensures
        r@ == path_text(join(path_view(output_dir@), path_view(redirect_file(from_path@)))),
{
    let from = chars_of(from_path);
    let slash = vec!['/'];
    assert(slash@ =~= seq!['/']);
    let suffix = chars_of(".html");
    proof {
        reveal_strlit(".html");
        assert(suffix@ =~= html_suffix());
    }
    let start = leading_end(from.as_slice(), slash.as_slice());
    let mut file = copy_range(from.as_slice(), start, from.len());
    assert(file@ == trim_leading(from_path@, seq!['/']));
    if ends_with(from.as_slice(), slash.as_slice()) {
        push_str(&mut file, "index.html");
    } else if ends_with(from.as_slice(), suffix.as_slice()) {
    } else {
        push_str(&mut file, "/index.html");
    }
    SitePath::from_text(output_dir).join(SitePath::parse(file.as_slice())).to_text()
}

} // verus!
