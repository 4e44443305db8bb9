//! Content files: what is loaded of them, how their bodies become HTML, and
//! how the files of a build are found and gathered.

use vstd::prelude::*;
use crate::config::Config;
use crate::date::PublishDate;
use crate::error::{ContentError, ContentErrorView};
use crate::paths::{path_text, path_view, segments, with_extension, SitePath};
use crate::resolver::{
    build_output_path, content_type_of, expand, get_content_type, markdown_suffix, md_suffix,
    output_location, pattern_of, resolve_url_pattern, slug_of, url_pattern_for,
};
use crate::syntax::{highlight_html, highlighted, syntax_error_text};
use crate::text::{
    chars_of, copy_range, ends_with, find, find_from, find_in, lemma_find_from, push_chars,
    push_str, string_of, trim, trimmed,
};

verus! {

/// A free-form field of the metadata.
#[derive(Clone, Debug)]
pub struct ExtraEntry {
    pub key: String,
    pub value: String,
}

/// The metadata of a content file, as its sidecar file gives it.
#[derive(Clone, Debug)]
pub struct ContentMeta {
    pub title: String,
    /// The time of publication, with its offset.
    pub date: PublishDate,
    pub author: String,
    pub tags: Vec<String>,
    /// The template to use in place of the one of the content type.
    pub template: Option<String>,
    /// The cover image.
    pub cover: Option<String>,
    pub extra: Vec<ExtraEntry>,
}

/// The names of the fields `extra`.
pub open spec fn extra_keys(extra: Seq<ExtraEntry>) -> Seq<Seq<char>> {
    extra.map_values(|e: ExtraEntry| e.key@)
}

impl ContentMeta {
    /// The date has its fields in their ranges, and no free-form field is
    /// given twice.
    pub open spec fn well_formed(&self) -> bool {
        self.date.well_formed() && crate::sort::distinct(extra_keys(self.extra@))
    }

    /// Whether the date is in range and no free-form field is given twice.
    pub fn is_well_formed(&self) -> (r: bool)
        ensures
            r == self.well_formed(),
    {
        let mut keys: Vec<Vec<char>> = Vec::new();
        let mut i: usize = 0;
        while i < self.extra.len()
            invariant
                i <= self.extra.len(),
                crate::paths::views(keys@) == extra_keys(self.extra@).take(i as int),
            decreases self.extra.len() - i,
        {
            let key = chars_of(self.extra[i].key.as_str());
            let ghost before = crate::paths::views(keys@);
            keys.push(key);
            assert(crate::paths::views(keys@) =~= before.push(key@));
            assert(crate::paths::views(keys@) =~= extra_keys(self.extra@).take(i + 1));
            i += 1;
        }
        assert(extra_keys(self.extra@).take(i as int) == extra_keys(self.extra@));
        self.date.is_well_formed() && crate::sort::are_distinct(&keys)
    }
}

/// A content file as loaded: its metadata and its body, as written.
#[derive(Clone, Debug)]
pub struct Content {
    pub meta: ContentMeta,
    pub data: String,
}

/// A content file ready to be rendered.
#[derive(Clone, Debug)]
pub struct LoadedContent {
    /// The path of the source file.
    pub path: String,
    pub content: Content,
    /// The body as HTML.
    pub html: String,
    pub content_type: String,
    /// The path of the page that is written for it.
    pub output_path: String,
}

/// What the `markdown` crate makes of `text` as GitHub-flavoured markdown,
/// with raw HTML let through where `allow_dangerous_html` is set and the tag
/// filter applied where `gfm_tagfilter` is set: the HTML, or the message of
/// the error with which it fails.
pub uninterp spec fn gfm_html(text: Seq<char>, allow_dangerous_html: bool, gfm_tagfilter: bool) -> Result<
    Seq<char>,
    Seq<char>,
>;

/// Calls `markdown::to_html_with_options` with the options of
/// `Options::gfm()`, but for the two flags given. An error is handed back as
/// its text. Nothing is claimed of the result but that it is a function of
/// the three arguments.
#[verifier::external_body]
fn markdown_to_html(text: &str, allow_dangerous_html: bool, gfm_tagfilter: bool) -> (r: Result<
    String,
    String,
>)
    ensures
        match r {
            Ok(html) => gfm_html(text@, allow_dangerous_html, gfm_tagfilter) == Ok::<
                Seq<char>,
                Seq<char>,
            >(html@),
            Err(message) => gfm_html(text@, allow_dangerous_html, gfm_tagfilter) == Err::<
                Seq<char>,
                Seq<char>,
            >(message@),
        },
{
    let options = markdown::Options {
        compile: markdown::CompileOptions {
            allow_dangerous_html,
            gfm_tagfilter,
            ..markdown::CompileOptions::gfm()
        },
        ..markdown::Options::gfm()
    };
    match markdown::to_html_with_options(text, &options) {
        Ok(html) => Ok(html),
        Err(e) => Err(e.to_string()),
    }
}

/// The HTML of the markdown `text`. Raw HTML is escaped unless
/// `allow_dangerous_html` is set; the tag filter is on exactly when it is not.
pub open spec fn body_html(text: Seq<char>, allow_dangerous_html: bool) -> Result<Seq<char>, Seq<char>> {
    gfm_html(text, allow_dangerous_html, !allow_dangerous_html)
}

/// Where the excerpt ends in `after`, the text behind the summary pattern:
/// at the next heading, or at the end.
pub open spec fn excerpt_end(after: Seq<char>) -> int {
    match find(after, "\n##"@) {
        Some(i) => i,
        None => match find(after, "\n# "@) {
            Some(i) => i,
            None => after.len() as int,
        },
    }
}

/// The markdown of the excerpt of `markdown`: what stands between the first
/// `summary_pattern` and the next heading, trimmed. There is none where the
/// pattern is missing or nothing follows it.
pub open spec fn excerpt_source(markdown: Seq<char>, summary_pattern: Seq<char>) -> Option<Seq<char>> {
    match find(markdown, summary_pattern) {
        Some(start) => if start + summary_pattern.len() >= markdown.len() {
            None
        } else {
            let after = markdown.skip(start + summary_pattern.len());
            Some(trim(after.take(excerpt_end(after))))
        },
        None => None,
    }
}

/// The excerpt of `markdown` as HTML; empty where there is no excerpt or it
/// cannot be converted.
pub open spec fn excerpt_html(markdown: Seq<char>, summary_pattern: Seq<char>, allow_dangerous_html: bool) -> Seq<
    char,
> {
    match excerpt_source(markdown, summary_pattern) {
        Some(source) => match body_html(source, allow_dangerous_html) {
            Ok(html) => html,
            Err(_) => Seq::empty(),
        },
        None => Seq::empty(),
    }
}

/// The excerpt of a body: the section that `summary_pattern` opens, up to
/// the next heading, as HTML.
pub fn get_excerpt_html(markdown: &str, summary_pattern: &str, allow_dangerous_html: bool) -> (r:
    String)
    ensures
        r@ == excerpt_html(markdown@, summary_pattern@, allow_dangerous_html),
{
    let text = chars_of(markdown);
    let pattern = chars_of(summary_pattern);
    proof {
        lemma_find_from(text@, pattern@, 0);
    }
    let start = match find_in(text.as_slice(), pattern.as_slice(), 0) {
        Some(start) => start,
        None => {
            return String::new();
        },
    };
    if start + pattern.len() >= text.len() {
        return String::new();
    }
    let after = copy_range(text.as_slice(), start + pattern.len(), text.len());
    assert(after@ == text@.skip(start + pattern.len()));
    let h2 = chars_of("\n##");
    let h1 = chars_of("\n# ");
    proof {
        lemma_find_from(after@, h2@, 0);
        lemma_find_from(after@, h1@, 0);
    }
    let end = match find_in(after.as_slice(), h2.as_slice(), 0) {
        Some(i) => i,
        None => match find_in(after.as_slice(), h1.as_slice(), 0) {
            Some(i) => i,
            None => after.len(),
        },
    };
    let section = copy_range(after.as_slice(), 0, end);
    let source = trimmed(section.as_slice());
    let source_text = string_of(source.as_slice());
    match markdown_to_html(source_text.as_str(), allow_dangerous_html, !allow_dangerous_html) {
        Ok(html) => html,
        Err(_) => String::new(),
    }
}

/// `c` is a digit that can stand in a heading tag.
pub open spec fn is_heading_level(c: char) -> bool {
    '1' <= c <= '6'
}

/// The closing tag of a heading of level `level`.
pub open spec fn heading_close(level: char) -> Seq<char> {
    seq!['<', '/', 'h', level, '>']
}

/// Where the text of the heading that opens at `pos` ends, if a heading
/// without attributes opens there and is closed later.
pub open spec fn heading_end(html: Seq<char>, pos: int) -> Option<int> {
    if 0 <= pos && pos + 4 <= html.len() && html[pos] == '<' && html[pos + 1] == 'h'
        && is_heading_level(html[pos + 2]) && html[pos + 3] == '>' {
        find_from(html, heading_close(html[pos + 2]), pos + 4)
    } else {
        None
    }
}

/// The character that stands for `c` in an anchor: letters in lower case and
/// digits stay, anything else becomes a hyphen.
pub open spec fn anchor_char(c: char) -> char {
    if ('a' <= c <= 'z') || ('0' <= c <= '9') {
        c
    } else if 'A' <= c <= 'Z' {
        ((c as u8) + 32) as char
    } else {
        '-'
    }
}

/// The anchor of a heading with the text `inner`.
pub open spec fn anchor_of(inner: Seq<char>) -> Seq<char> {
    inner.map_values(|c: char| anchor_char(c))
}

/// A heading of level `level` with the text `inner`, with its anchor as `id`
/// and a link to itself around the text.
pub open spec fn anchored_heading(level: char, inner: Seq<char>) -> Seq<char> {
    seq!['<', 'h', level] + " id=\""@ + anchor_of(inner) + "\"><a href=\"#"@ + anchor_of(inner)
        + "\">"@ + inner + "</a>"@ + heading_close(level)
}

/// `html` from `pos` on, with an anchor on every heading.
pub open spec fn anchors_from(html: Seq<char>, pos: int) -> Seq<char>
    decreases html.len() - pos,
    via anchors_from_decreases
{
    if pos < 0 || pos >= html.len() {
        Seq::empty()
    } else {
        match heading_end(html, pos) {
            Some(end) => anchored_heading(html[pos + 2], html.subrange(pos + 4, end))
                + anchors_from(html, end + 5),
            None => seq![html[pos]] + anchors_from(html, pos + 1),
        }
    }
}

#[via_fn]
proof fn anchors_from_decreases(html: Seq<char>, pos: int) {
    if 0 <= pos < html.len() {
        if heading_end(html, pos) is Some {
            lemma_find_from(html, heading_close(html[pos + 2]), pos + 4);
        }
    }
}

/// `html` with an anchor on every heading: `<h2>Section One</h2>` becomes
/// `<h2 id="section-one"><a href="#section-one">Section One</a></h2>`.
pub open spec fn with_header_anchors(html: Seq<char>) -> Seq<char> {
    anchors_from(html, 0)
}

fn anchor_letter(c: char) -> (r: char)
    ensures
        r == anchor_char(c),
{
    if ('a' <= c && c <= 'z') || ('0' <= c && c <= '9') {
        c
    } else if 'A' <= c && c <= 'Z' {
        ((c as u8) + 32) as char
    } else {
        '-'
    }
}

fn anchor(inner: &[char]) -> (r: Vec<char>)
    ensures
        r@ == anchor_of(inner@),
{
    let mut r: Vec<char> = Vec::new();
    let mut i: usize = 0;
    while i < inner.len()
        invariant
            i <= inner.len(),
            r@ == anchor_of(inner@.take(i as int)),
        decreases inner.len() - i,
    {
        r.push(anchor_letter(inner[i]));
        assert(r@ =~= anchor_of(inner@.take(i + 1)));
        i += 1;
    }
    assert(inner@.take(i as int) == inner@);
    r
}

/// Puts an anchor on every heading of `html`.
pub fn add_header_anchors(html: &[char]) -> (r: Vec<char>)
    ensures
        r@ == with_header_anchors(html@),
{
    let mut out: Vec<char> = Vec::new();
    let mut pos: usize = 0;
    assert(out@ + anchors_from(html@, 0) == with_header_anchors(html@)) by {
        assert(forall|s: Seq<char>| Seq::<char>::empty() + s =~= s);
    }
    while pos < html.len()
        invariant
            pos <= html.len(),
            out@ + anchors_from(html@, pos as int) == with_header_anchors(html@),
        decreases html.len() - pos,
    {
        let ghost before = out@;
        let mut end: Option<usize> = None;
        if html.len() - pos >= 4 && html[pos] == '<' && html[pos + 1] == 'h' && '1' <= html[pos + 2]
            && html[pos + 2] <= '6' && html[pos + 3] == '>' {
            let close = vec!['<', '/', 'h', html[pos + 2], '>'];
            assert(close@ =~= heading_close(html@[pos + 2]));
            proof {
                lemma_find_from(html@, close@, pos + 4);
            }
            end = find_in(html, close.as_slice(), pos + 4);
        }
        assert(match end {
            Some(e) => heading_end(html@, pos as int) == Some(e as int) && pos + 4 <= e && e + 5
                <= html.len(),
            None => heading_end(html@, pos as int) is None,
        });
        match end {
            Some(e) => {
                let level = html[pos + 2];
                let inner = copy_range(html, pos + 4, e);
                let id = anchor(inner.as_slice());
                out.push('<');
                out.push('h');
                out.push(level);
                push_str(&mut out, " id=\"");
                push_chars(&mut out, id.as_slice());
                push_str(&mut out, "\"><a href=\"#");
                push_chars(&mut out, id.as_slice());
                push_str(&mut out, "\">");
                push_chars(&mut out, inner.as_slice());
                push_str(&mut out, "</a>");
                out.push('<');
                out.push('/');
                out.push('h');
                out.push(level);
                out.push('>');
                assert(out@ =~= before + anchored_heading(level, inner@));
                assert(out@ + anchors_from(html@, e + 5) =~= before + (anchored_heading(
                    level,
                    inner@,
                ) + anchors_from(html@, e + 5)));
                pos = e + 5;
            },
            None => {
                out.push(html[pos]);
                assert(out@ + anchors_from(html@, pos + 1) =~= before + (seq![html@[pos as int]]
                    + anchors_from(html@, pos + 1)));
                pos += 1;
            },
        }
    }
    assert(out@ + Seq::<char>::empty() == out@);
    out
}

/// The HTML of a body, or the error that its conversion ends with.
pub open spec fn converted(
    data: Seq<char>,
    path: Seq<char>,
    highlighting_enabled: bool,
    theme: Seq<char>,
    allow_dangerous_html: bool,
    header_uri_fragment: bool,
) -> Result<Seq<char>, ContentErrorView> {
    match body_html(data, allow_dangerous_html) {
        Err(message) => Err(ContentErrorView::MarkdownParsingFailed { path, message }),
        Ok(plain) => {
            let html = if header_uri_fragment {
                with_header_anchors(plain)
            } else {
                plain
            };
            if highlighting_enabled {
                match highlighted(html, theme) {
                    Ok(done) => Ok(done),
                    Err(e) => Err(
                        ContentErrorView::SyntaxHighlighting { path, message: syntax_error_text(e) },
                    ),
                }
            } else {
                Ok(html)
            }
        },
    }
}

/// The view of a result of conversion.
pub open spec fn content_result_view(r: Result<String, ContentError>) -> Result<
    Seq<char>,
    ContentErrorView,
> {
    match r {
        Ok(s) => Ok(s@),
        Err(e) => Err(e@),
    }
}

/// Turns the body of `content` into HTML: markdown first, then anchors on
/// the headings where `header_uri_fragment` is set, then highlighting of the
/// code blocks where `highlighting_enabled` is set. `path` names the file in
/// the error.
pub fn convert_content_with_highlighting(
    content: &Content,
    path: &str,
    highlighting_enabled: bool,
    theme: &str,
    allow_dangerous_html: bool,
    header_uri_fragment: bool,
) -> (r: Result<String, ContentError>)
    ensures
        content_result_view(r) == converted(
            content.data@,
            path@,
            highlighting_enabled,
            theme@,
            allow_dangerous_html,
            header_uri_fragment,
        ),
{
    let plain = match markdown_to_html(
        content.data.as_str(),
        allow_dangerous_html,
        !allow_dangerous_html,
    ) {
        Ok(html) => html,
        Err(message) => {
            return Err(
                ContentError::MarkdownParsingFailed { path: string_of(
                    chars_of(path).as_slice(),
                ), message },
            );
        },
    };
    let html = if header_uri_fragment {
        let chars = chars_of(plain.as_str());
        let anchored = add_header_anchors(chars.as_slice());
        string_of(anchored.as_slice())
    } else {
        plain
    };
    if highlighting_enabled {
        match highlight_html(html.as_str(), theme) {
            Ok(done) => Ok(done),
            Err(e) => Err(
                ContentError::SyntaxHighlighting {
                    path: string_of(chars_of(path).as_slice()),
                    message: e.to_text(),
                },
            ),
        }
    } else {
        Ok(html)
    }
}

/// `name` is the name of a markdown file: it ends in `.md` or `.markdown`
/// and something stands before that.
pub open spec fn has_markdown_extension(name: Seq<char>) -> bool {
    ||| (name.len() > 3 && md_suffix().is_suffix_of(name))
    ||| (name.len() > 9 && markdown_suffix().is_suffix_of(name))
}

/// The file at `path` is a markdown file, by its name.
pub open spec fn is_markdown_path(path: Seq<char>) -> bool {
    segments(path).len() > 0 && has_markdown_extension(segments(path).last())
}

/// Whether the file at `path` is a markdown file, by its name.
pub fn is_markdown_file(path: &str) -> (r: bool)
    ensures
        r == is_markdown_path(path@),
{
    let p = SitePath::from_text(path);
    match p.file_name() {
        Some(name) => {
            let md = chars_of(".md");
            let markdown = chars_of(".markdown");
            proof {
                reveal_strlit(".md");
                reveal_strlit(".markdown");
                assert(md@ =~= md_suffix());
                assert(markdown@ =~= markdown_suffix());
            }
            (name.len() > 3 && ends_with(name.as_slice(), md.as_slice())) || (name.len() > 9
                && ends_with(name.as_slice(), markdown.as_slice()))
        },
        None => false,
    }
}

/// What a walk of the content directory came upon.
#[derive(Debug)]
pub struct WalkEntry {
    pub path: String,
    /// Whether it is a regular file.
    pub is_file: bool,
}

/// The paths of the markdown files among `entries`, in their order.
pub open spec fn markdown_files(entries: Seq<WalkEntry>) -> Seq<Seq<char>>
    decreases entries.len(),
{
    if entries.len() == 0 {
        Seq::empty()
    } else if entries.last().is_file && is_markdown_path(entries.last().path@) {
        markdown_files(entries.drop_last()).push(entries.last().path@)
    } else {
        markdown_files(entries.drop_last())
    }
}

/// The content files among what a walk of the content directory came upon:
/// the regular files named `*.md` or `*.markdown`, in the order of the walk.
pub fn find_markdown_files(entries: &Vec<WalkEntry>) -> (files: Vec<String>)
    ensures
        crate::asset_hash::string_views(files@) == markdown_files(entries@),
{
    let mut files: Vec<String> = Vec::new();
    let mut i: usize = 0;
    assert(crate::asset_hash::string_views(files@) =~= markdown_files(entries@.take(0)));
    while i < entries.len()
        invariant
            i <= entries.len(),
            crate::asset_hash::string_views(files@) == markdown_files(entries@.take(i as int)),
        decreases entries.len() - i,
    {
        let ghost upto = entries@.take(i + 1);
        assert(upto.drop_last() == entries@.take(i as int));
        assert(upto.last() == entries[i as int]);
        if entries[i].is_file && is_markdown_file(entries[i].path.as_str()) {
            let ghost before = crate::asset_hash::string_views(files@);
            files.push(entries[i].path.clone());
            assert(crate::asset_hash::string_views(files@) =~= before.push(entries[i as int].path@));
        }
        i += 1;
    }
    assert(entries@.take(i as int) == entries@);
    files
}

/// The extension of metadata files.
pub open spec fn meta_extension() -> Seq<char> {
    seq!['m', 'e', 't', 'a', '.', 't', 'o', 'm', 'l']
}

/// The path of the metadata file of the content file at `markdown_path`:
/// `hello-world.md` has `hello-world.meta.toml`.
pub fn metadata_path(markdown_path: &str) -> (r: String)
    ensures
        r@ == path_text(with_extension(path_view(markdown_path@), meta_extension())),
{
    let ext = chars_of("meta.toml");
    proof {
        reveal_strlit("meta.toml");
        assert(ext@ =~= meta_extension());
    }
    SitePath::from_text(markdown_path).with_extension(ext.as_slice()).to_text()
}

/// The results of the transformation of each file, gathered in the order of
/// discovery: all the values where none failed, else the error of the first
/// file that failed.
pub fn collect_in_order<T, E>(results: Vec<Result<T, E>>) -> (r: Result<Vec<T>, E>)
    ensures
        match r {
            Ok(values) => values@.len() == results@.len() && forall|i: int|
                0 <= i < results@.len() ==> results@[i] == Ok::<T, E>(values@[i]),
            Err(e) => exists|k: int|
                0 <= k < results@.len() && results@[k] == Err::<T, E>(e) && forall|j: int|
                    0 <= j < k ==> results@[j] is Ok,
        },
{
    let ghost all = results@;
    let mut values: Vec<T> = Vec::new();
    for item in it: results.into_iter()
        invariant
            it.seq() == all,
            values@.len() == it.index(),
            forall|i: int| 0 <= i < it.index() ==> all[i] == Ok::<T, E>(values@[i]),
    {
        match item {
            Ok(v) => {
                values.push(v);
            },
            Err(e) => {
                assert(all[it.index() as int] == Err::<T, E>(e));
                return Err(e);
            },
        }
    }
    Ok(values)
}

/// The file name that stands for the content file at `path` in URL
/// patterns: its last segment, or `index` where it has none.
pub open spec fn file_name_of(path: Seq<char>) -> Seq<char> {
    if segments(path).len() > 0 {
        segments(path).last()
    } else {
        "index"@
    }
}

/// The output path of the content file at `path`, published on `date`.
pub open spec fn page_path(config: Config, path: Seq<char>, date: PublishDate) -> Seq<char> {
    let content_type = content_type_of(path, config.site.content_dir@);
    path_text(
        output_location(
            content_type,
            expand(pattern_of(config.settings_of(content_type)), slug_of(file_name_of(path)), date),
            config.site.output_dir@,
            config.site.clean_urls,
        ),
    )
}

/// The page of a content file lies below the output directory: unless the
/// URL pattern resolves to an absolute path, the segments of the output
/// directory lead the segments of the page's path, more follow them, and
/// the path is written in normal form.
pub proof fn lemma_page_below_output_dir(config: Config, path: Seq<char>, date: PublishDate)
    requires
        !crate::paths::is_absolute(
            expand(
                pattern_of(config.settings_of(content_type_of(path, config.site.content_dir@))),
                slug_of(file_name_of(path)),
                date,
            ),
        ),
    ensures
        ({
            let root = segments(config.site.output_dir@);
            let page = path_view(page_path(config, path, date));
            &&& page.absolute == crate::paths::is_absolute(config.site.output_dir@)
            &&& root.is_prefix_of(page.segments)
            &&& page.segments.len() > root.len()
            &&& path_text(page) == page_path(config, path, date)
        }),
{
    let content_type = content_type_of(path, config.site.content_dir@);
    let resolved = expand(
        pattern_of(config.settings_of(content_type)),
        slug_of(file_name_of(path)),
        date,
    );
    crate::resolver::lemma_content_type_is_segment(path, config.site.content_dir@);
    crate::paths::lemma_segment_alone(content_type);
    crate::resolver::lemma_output_below_root(
        content_type,
        resolved,
        config.site.output_dir@,
        config.site.clean_urls,
    );
}

/// Transforms one loaded content file: finds its content type, turns its
/// body into HTML and says where its page is written. Reads nothing but the
/// configuration and the file's own content.
pub fn transform_content(config: &Config, path: &str, content: Content) -> (r: Result<
    LoadedContent,
    ContentError,
>)
    requires
        content.meta.date.well_formed(),
    ensures
        match r {
            Ok(loaded) => {
                &&& converted(
                    content.data@,
                    path@,
                    config.site.syntax_highlighting_enabled,
                    config.site.syntax_highlighting_theme@,
                    config.site.allow_dangerous_html,
                    config.site.header_uri_fragment,
                ) == Ok::<Seq<char>, ContentErrorView>(loaded.html@)
                &&& loaded.path@ == path@
                &&& loaded.content == content
                &&& loaded.content_type@ == content_type_of(path@, config.site.content_dir@)
                &&& loaded.output_path@ == page_path(*config, path@, content.meta.date)
            },
            Err(e) => converted(
                content.data@,
                path@,
                config.site.syntax_highlighting_enabled,
                config.site.syntax_highlighting_theme@,
                config.site.allow_dangerous_html,
                config.site.header_uri_fragment,
            ) == Err::<Seq<char>, ContentErrorView>(e@),
        },
{
    let content_type = get_content_type(path, config.site.content_dir.as_str());
    let html = match convert_content_with_highlighting(
        &content,
        path,
        config.site.syntax_highlighting_enabled,
        config.site.syntax_highlighting_theme.as_str(),
        config.site.allow_dangerous_html,
        config.site.header_uri_fragment,
    ) {
        Ok(html) => html,
        Err(e) => {
            return Err(e);
        },
    };
    let pattern = url_pattern_for(config, content_type.as_str());
    let source = SitePath::from_text(path);
    let filename = match source.file_name() {
        Some(name) => string_of(name.as_slice()),
        None => "index".to_string(),
    };
    let resolved = resolve_url_pattern(pattern.as_str(), filename.as_str(), &content.meta.date);
    let output_path = build_output_path(
        content_type.as_str(),
        resolved.as_str(),
        config.site.output_dir.as_str(),
        config.site.clean_urls,
    );
    Ok(
        LoadedContent {
            path: string_of(chars_of(path).as_slice()),
            content,
            html,
            content_type,
            output_path,
        },
    )
}

} // verus!
