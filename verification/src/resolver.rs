//! Where a content file goes: its content type, the expansion of its URL
//! pattern, and its output path.

use vstd::prelude::*;
use crate::config::{Config, ContentTypeConfig};
use crate::date::{
    four_digits, iso_date, push_four_digits, push_two_digits, two_digits, PublishDate,
};
use crate::paths::{
    all_segments, is_segment, join, path_text, path_view, push_segment, stem_of, strip_prefix,
    with_html_extension, PathView, SitePath,
};
use crate::text::{
    chars_of, copy_range, ends_with, lemma_prefix_of_rest, matches_at, push_chars, rfind_char,
    str_eq, string_of,
};

verus! {

/// The content type of a file outside the content directory, or directly in it.
pub open spec fn default_content_type() -> Seq<char> {
    "page"@
}

/// The content type of `file`: the first directory below `content_dir` on the
/// way to it, or the default where `file` is not below `content_dir` or lies
/// directly in it.
pub open spec fn content_type_of(file: Seq<char>, content_dir: Seq<char>) -> Seq<char> {
    match strip_prefix(path_view(file), path_view(content_dir)) {
        Some(rest) => if rest.segments.len() >= 2 {
            rest.segments[0]
        } else {
            default_content_type()
        },
        None => default_content_type(),
    }
}

/// A content type is one path segment: a directory name, or the default.
pub proof fn lemma_content_type_is_segment(file: Seq<char>, content_dir: Seq<char>)
    ensures
        is_segment(content_type_of(file, content_dir)),
{
    crate::paths::lemma_split_gives_segments(file, Seq::empty());
    reveal_strlit("page");
    match strip_prefix(path_view(file), path_view(content_dir)) {
        Some(rest) => {
            if rest.segments.len() >= 2 {
                let k = crate::paths::segments(content_dir).len() as int;
                assert(rest.segments[0] == crate::paths::segments(file)[k]);
            }
        },
        None => {},
    }
}

/// The content type of the file at `file`, given the content directory.
pub fn get_content_type(file: &str, content_dir: &str) -> (r: String)
    ensures
        r@ == content_type_of(file@, content_dir@),
{
    let path = SitePath::from_text(file);
    let base = SitePath::from_text(content_dir);
    match path.strip_prefix(&base) {
        Some(rest) => if rest.segments.len() >= 2 {
            string_of(rest.segments[0].as_slice())
        } else {
            "page".to_string()
        },
        None => "page".to_string(),
    }
}

/// The template used for a content type that the configuration does not declare.
pub open spec fn default_template() -> Seq<char> {
    "default.html"@
}

/// The page template of `content_type`.
pub open spec fn content_template_of(config: Config, content_type: Seq<char>) -> Seq<char> {
    match config.settings_of(content_type) {
        Some(c) => c.content_template@,
        None => default_template(),
    }
}

/// The page template of `content_type`: the one configured, or `default.html`.
pub fn get_content_type_template(config: &Config, content_type: &str) -> (r: String)
    ensures
        r@ == content_template_of(*config, content_type@),
{
    match config.find_content_type(content_type) {
        Some(c) => c.content_template.clone(),
        None => "default.html".to_string(),
    }
}

/// The pattern that names outputs by date and stem.
pub open spec fn dated_pattern() -> Seq<char> {
    "{date}-{stem}"@
}

/// The pattern that names outputs by stem alone.
pub open spec fn plain_pattern() -> Seq<char> {
    "{stem}"@
}

/// The URL pattern that `settings` ask for: the explicit pattern first, then
/// the dated pattern where the older naming says `date`, else the stem alone.
pub open spec fn pattern_of(settings: Option<ContentTypeConfig>) -> Seq<char> {
    match settings {
        Some(c) => match c.url_pattern {
            Some(p) => p@,
            None => match c.output_naming {
                Some(n) => if n@ == "date"@ {
                    dated_pattern()
                } else {
                    plain_pattern()
                },
                None => plain_pattern(),
            },
        },
        None => plain_pattern(),
    }
}

/// The URL pattern of `content_type` under `config`.
pub fn url_pattern_for(config: &Config, content_type: &str) -> (r: String)
    ensures
        r@ == pattern_of(config.settings_of(content_type@)),
{
    match config.find_content_type(content_type) {
        Some(c) => match &c.url_pattern {
            Some(p) => p.clone(),
            None => match &c.output_naming {
                Some(n) => if str_eq(n.as_str(), "date") {
                    "{date}-{stem}".to_string()
                } else {
                    "{stem}".to_string()
                },
                None => "{stem}".to_string(),
            },
        },
        None => "{stem}".to_string(),
    }
}

/// The output path of `file`: its place below `content_dir` moved below
/// `output_dir`, with the extension `html`; `error.html` in `output_dir`
/// where `file` is not below `content_dir`.
pub open spec fn output_path_of(file: Seq<char>, content_dir: Seq<char>, output_dir: Seq<char>) -> PathView {
    match strip_prefix(path_view(file), path_view(content_dir)) {
        Some(rest) => with_html_extension(join(path_view(output_dir), rest)),
        None => push_segment(path_view(output_dir), "error.html"@),
    }
}

/// The output path of the content file `file`.
pub fn get_output_path(file: &str, content_dir: &str, output_dir: &str) -> (r: String)
    ensures
        r@ == path_text(output_path_of(file@, content_dir@, output_dir@)),
{
    let path = SitePath::from_text(file);
    let base = SitePath::from_text(content_dir);
    let out = SitePath::from_text(output_dir);
    match path.strip_prefix(&base) {
        Some(rest) => out.join(rest).with_html_extension().to_text(),
        None => {
            let name = chars_of("error.html");
            assert(is_segment(name@)) by {
                reveal_strlit("error.html");
            }
            out.push(name).to_text()
        },
    }
}

/// The stem of the file that `path` names; empty where it names none.
pub open spec fn file_stem_of(path: PathView) -> Seq<char> {
    if path.segments.len() == 0 || path.segments.last() == crate::paths::parent_segment() {
        Seq::empty()
    } else {
        stem_of(path.segments.last())
    }
}

/// The segments of the directory that holds what `path` names.
pub open spec fn parent_segments(path: PathView) -> Seq<Seq<char>> {
    if path.segments.len() == 0 {
        Seq::empty()
    } else {
        path.segments.drop_last()
    }
}

/// `path` with its last segment renamed to the date, a hyphen and the old
/// stem, with the extension `html`. A date that the old stem starts with is
/// left out: the date of the new name is `date` alone.
pub open spec fn date_prefixed(path: PathView, date: PublishDate) -> PathView {
    with_html_extension(
        PathView {
            absolute: path.segments.len() > 0 && path.absolute,
            segments: parent_segments(path).push(
                iso_date(date) + seq!['-'] + without_date_prefix(file_stem_of(path)),
            ),
        },
    )
}

/// Puts the date of publication in front of the file name of `output_path`:
/// `out/posts/my-post.html` becomes `out/posts/2023-05-15-my-post.html`. A
/// file name that starts with a date of its own loses it:
/// `out/posts/2020-01-01-my-post.html` gives the same result.
pub fn add_date_prefix(output_path: &str, date: &PublishDate) -> (r: String)
    requires
        date.well_formed(),
    ensures
        r@ == path_text(date_prefixed(path_view(output_path@), *date)),
{
    let path = SitePath::from_text(output_path);
    let n = path.segments.len();
    let mut name = crate::date::format_iso_date(date);
    name.push('-');
    let ghost shown = path@;
    let ghost head = name@;
    assert(head == iso_date(*date) + seq!['-']);
    let absolute = n > 0 && path.absolute;
    let mut segments = path.segments;
    if n > 0 {
        let last = &segments[n - 1];
        assert(shown.segments.last() == last@);
        let is_parent = last.len() == 2 && last[0] == '.' && last[1] == '.';
        assert(is_parent == (last@ == crate::paths::parent_segment())) by {
            if is_parent {
                assert(last@ =~= crate::paths::parent_segment());
            }
        }
        if !is_parent {
            let keep: usize = match rfind_char(last.as_slice(), '.') {
                Some(i) => if i > 0 {
                    i
                } else {
                    last.len()
                },
                None => last.len(),
            };
            let stem = copy_range(last.as_slice(), 0, keep);
            assert(stem@ == stem_of(last@)) by {
                assert(last@.take(last@.len() as int) == last@);
            }
            assert(is_segment(last@));
            let kept = strip_date_prefix(stem.as_slice());
            push_chars(&mut name, kept.as_slice());
        } else {
            assert(without_date_prefix(Seq::<char>::empty()) == Seq::<char>::empty());
        }
        segments.pop();
    } else {
        assert(without_date_prefix(Seq::<char>::empty()) == Seq::<char>::empty());
    }
    let ghost old_stem = file_stem_of(shown);
    assert(name@ == head + without_date_prefix(old_stem));
    assert(crate::paths::views(segments@) == parent_segments(shown));
    assert(is_segment(name@)) by {
        assert forall|i: int| 0 <= i < name@.len() implies name@[i] != '/' by {
            if i < 10 {
                assert(name@[i] == iso_date(*date)[i]);
                lemma_iso_date_chars(*date, i);
            } else if i == 10 {
            } else {
                assert(is_segment(shown.segments.last()));
                if has_date_prefix(old_stem) {
                    assert(name@[i] == old_stem[i]);
                } else {
                    assert(name@[i] == old_stem[i - 11]);
                }
            }
        }
    }
    let base = SitePath { absolute, segments };
    assert(base.well_formed()) by {
        assert forall|i: int| 0 <= i < base@.segments.len() implies is_segment(
            #[trigger] base@.segments[i],
        ) by {
            assert(base@.segments[i] == shown.segments[i]);
        }
    }
    let renamed = base.push(name);
    assert(renamed@ == PathView {
        absolute: shown.segments.len() > 0 && shown.absolute,
        segments: parent_segments(shown).push(
            iso_date(*date) + seq!['-'] + without_date_prefix(file_stem_of(shown)),
        ),
    });
    renamed.with_html_extension().to_text()
}

/// A date in `YYYY-MM-DD` form has ten characters, none of them a slash.
pub proof fn lemma_iso_date_chars(date: PublishDate, i: int)
    requires
        date.well_formed(),
        0 <= i < 10,
    ensures
        iso_date(date).len() == 10,
        iso_date(date)[i] != '/',
{
    let y = date.year as int;
    let m = date.month as int;
    let d = date.day as int;
    assert(0 <= y / 1000 <= 9 && 0 <= (y / 100) % 10 <= 9 && 0 <= (y / 10) % 10 <= 9 && 0 <= y % 10
        <= 9);
    assert(0 <= m / 10 <= 9 && 0 <= m % 10 <= 9 && 0 <= d / 10 <= 9 && 0 <= d % 10 <= 9);
    assert(forall|k: int| 0 <= k <= 9 ==> #[trigger] crate::date::digit(k) != '/');
}

/// The placeholder for the stem of the file name.
pub open spec fn stem_key() -> Seq<char> {
    seq!['{', 's', 't', 'e', 'm', '}']
}

/// The placeholder for the date as `YYYY-MM-DD`.
pub open spec fn date_key() -> Seq<char> {
    seq!['{', 'd', 'a', 't', 'e', '}']
}

/// The placeholder for the year in four digits.
pub open spec fn year_key() -> Seq<char> {
    seq!['{', 'y', 'e', 'a', 'r', '}']
}

/// The placeholder for the month in two digits.
pub open spec fn month_key() -> Seq<char> {
    seq!['{', 'm', 'o', 'n', 't', 'h', '}']
}

/// The placeholder for the day of the month in two digits.
pub open spec fn day_key() -> Seq<char> {
    seq!['{', 'd', 'a', 'y', '}']
}

/// `pattern` with each placeholder replaced by its value, read once from left
/// to right. Text that is no placeholder stays as it is, braces included, and
/// what a placeholder is replaced by is not read again.
pub open spec fn expand(pattern: Seq<char>, stem: Seq<char>, date: PublishDate) -> Seq<char>
    decreases pattern.len(),
{
    if pattern.len() == 0 {
        Seq::empty()
    } else if stem_key().is_prefix_of(pattern) {
        stem + expand(pattern.skip(6), stem, date)
    } else if date_key().is_prefix_of(pattern) {
        iso_date(date) + expand(pattern.skip(6), stem, date)
    } else if year_key().is_prefix_of(pattern) {
        four_digits(date.year as int) + expand(pattern.skip(6), stem, date)
    } else if month_key().is_prefix_of(pattern) {
        two_digits(date.month as int) + expand(pattern.skip(7), stem, date)
    } else if day_key().is_prefix_of(pattern) {
        two_digits(date.day as int) + expand(pattern.skip(5), stem, date)
    } else {
        seq![pattern[0]] + expand(pattern.skip(1), stem, date)
    }
}

/// The extension `.md`.
pub open spec fn md_suffix() -> Seq<char> {
    seq!['.', 'm', 'd']
}

/// The extension `.markdown`.
pub open spec fn markdown_suffix() -> Seq<char> {
    seq!['.', 'm', 'a', 'r', 'k', 'd', 'o', 'w', 'n']
}

/// `name` without its markdown extension, where it has one and something
/// stands before it.
pub open spec fn without_markdown_extension(name: Seq<char>) -> Seq<char> {
    if name.len() > 9 && markdown_suffix().is_suffix_of(name) {
        name.take(name.len() - 9)
    } else if name.len() > 3 && md_suffix().is_suffix_of(name) {
        name.take(name.len() - 3)
    } else {
        name
    }
}

/// `c` is one of the digits `0` to `9`.
pub open spec fn is_ascii_digit(c: char) -> bool {
    '0' <= c <= '9'
}

/// `s` starts with `YYYY-MM-DD-`: four, two and two digits, each group
/// followed by a hyphen.
pub open spec fn has_date_prefix(s: Seq<char>) -> bool {
    &&& s.len() >= 11
    &&& is_ascii_digit(s[0]) && is_ascii_digit(s[1]) && is_ascii_digit(s[2]) && is_ascii_digit(s[3])
    &&& s[4] == '-'
    &&& is_ascii_digit(s[5]) && is_ascii_digit(s[6])
    &&& s[7] == '-'
    &&& is_ascii_digit(s[8]) && is_ascii_digit(s[9])
    &&& s[10] == '-'
}

/// `s` without a leading `YYYY-MM-DD-`.
pub open spec fn without_date_prefix(s: Seq<char>) -> Seq<char> {
    if has_date_prefix(s) {
        s.skip(11)
    } else {
        s
    }
}

/// The stem that stands for the file `filename` in URL patterns.
pub open spec fn slug_of(filename: Seq<char>) -> Seq<char> {
    without_date_prefix(without_markdown_extension(filename))
}

fn is_digit(c: char) -> (r: bool)
    ensures
        r == is_ascii_digit(c),
{
    '0' <= c && c <= '9'
}

/// `s` without a leading `YYYY-MM-DD-`.
pub fn strip_date_prefix(s: &[char]) -> (r: Vec<char>)
    ensures
        r@ == without_date_prefix(s@),
{
    let dated = s.len() >= 11 && is_digit(s[0]) && is_digit(s[1]) && is_digit(s[2]) && is_digit(
        s[3],
    ) && s[4] == '-' && is_digit(s[5]) && is_digit(s[6]) && s[7] == '-' && is_digit(s[8])
        && is_digit(s[9]) && s[10] == '-';
    assert(dated == has_date_prefix(s@));
    let start: usize = if dated {
        11
    } else {
        0
    };
    let r = copy_range(s, start, s.len());
    assert(r@ == without_date_prefix(s@)) by {
        assert(s@.subrange(start as int, s@.len() as int) == s@.skip(start as int));
        assert(s@.skip(0) == s@);
    }
    r
}

/// The stem that stands for the file `filename` in URL patterns.
pub fn slug(filename: &[char]) -> (r: Vec<char>)
    ensures
        r@ == slug_of(filename@),
{
    let md = chars_of(".md");
    let markdown = chars_of(".markdown");
    proof {
        reveal_strlit(".md");
        reveal_strlit(".markdown");
        assert(md@ =~= md_suffix());
        assert(markdown@ =~= markdown_suffix());
    }
    let n = filename.len();
    let end: usize = if n > 9 && ends_with(filename, markdown.as_slice()) {
        n - 9
    } else if n > 3 && ends_with(filename, md.as_slice()) {
        n - 3
    } else {
        n
    };
    assert(filename@.take(end as int) == without_markdown_extension(filename@)) by {
        assert(filename@.take(n as int) == filename@);
    }
    let base = copy_range(filename, 0, end);
    strip_date_prefix(base.as_slice())
}

/// `pattern` with its placeholders replaced by `stem` and the fields of `date`.
pub fn expand_pattern(pattern: &[char], stem: &[char], date: &PublishDate) -> (r: Vec<char>)
    requires
        date.well_formed(),
    ensures
        r@ == expand(pattern@, stem@, *date),
{
    let k_stem = chars_of("{stem}");
    let k_date = chars_of("{date}");
    let k_year = chars_of("{year}");
    let k_month = chars_of("{month}");
    let k_day = chars_of("{day}");
    proof {
        reveal_strlit("{stem}");
        reveal_strlit("{date}");
        reveal_strlit("{year}");
        reveal_strlit("{month}");
        reveal_strlit("{day}");
        assert(k_stem@ =~= stem_key());
        assert(k_date@ =~= date_key());
        assert(k_year@ =~= year_key());
        assert(k_month@ =~= month_key());
        assert(k_day@ =~= day_key());
        assert(pattern@.skip(0) == pattern@);
    }
    let mut out: Vec<char> = Vec::new();
    let mut i: usize = 0;
    while i < pattern.len()
        invariant
            i <= pattern.len(),
            date.well_formed(),
            k_stem@ == stem_key(),
            k_date@ == date_key(),
            k_year@ == year_key(),
            k_month@ == month_key(),
            k_day@ == day_key(),
            out@ + expand(pattern@.skip(i as int), stem@, *date) == expand(pattern@, stem@, *date),
        decreases pattern.len() - i,
    {
        let ghost rest = pattern@.skip(i as int);
        let ghost before = out@;
        proof {
            lemma_prefix_of_rest(pattern@, stem_key(), i as int);
            lemma_prefix_of_rest(pattern@, date_key(), i as int);
            lemma_prefix_of_rest(pattern@, year_key(), i as int);
            lemma_prefix_of_rest(pattern@, month_key(), i as int);
            lemma_prefix_of_rest(pattern@, day_key(), i as int);
            assert(rest.skip(1) == pattern@.skip(i + 1));
            if i + 5 <= pattern.len() {
                assert(rest.skip(5) == pattern@.skip(i + 5));
            }
            if i + 6 <= pattern.len() {
                assert(rest.skip(6) == pattern@.skip(i + 6));
            }
            if i + 7 <= pattern.len() {
                assert(rest.skip(7) == pattern@.skip(i + 7));
            }
        }
        if matches_at(pattern, k_stem.as_slice(), i) {
            push_chars(&mut out, stem);
            i += 6;
            assert(out@ + expand(pattern@.skip(i as int), stem@, *date) == before + (stem@ + expand(
                rest.skip(6),
                stem@,
                *date,
            )));
        } else if matches_at(pattern, k_date.as_slice(), i) {
            let text = crate::date::format_iso_date(date);
            push_chars(&mut out, text.as_slice());
            i += 6;
            assert(out@ + expand(pattern@.skip(i as int), stem@, *date) == before + (iso_date(*date)
                + expand(rest.skip(6), stem@, *date)));
        } else if matches_at(pattern, k_year.as_slice(), i) {
            push_four_digits(&mut out, date.year as u16);
            i += 6;
            assert(out@ + expand(pattern@.skip(i as int), stem@, *date) == before + (four_digits(
                date.year as int,
            ) + expand(rest.skip(6), stem@, *date)));
        } else if matches_at(pattern, k_month.as_slice(), i) {
            push_two_digits(&mut out, date.month);
            i += 7;
            assert(out@ + expand(pattern@.skip(i as int), stem@, *date) == before + (two_digits(
                date.month as int,
            ) + expand(rest.skip(7), stem@, *date)));
        } else if matches_at(pattern, k_day.as_slice(), i) {
            push_two_digits(&mut out, date.day);
            i += 5;
            assert(out@ + expand(pattern@.skip(i as int), stem@, *date) == before + (two_digits(
                date.day as int,
            ) + expand(rest.skip(5), stem@, *date)));
        } else {
            out.push(pattern[i]);
            i += 1;
            assert(out@ + expand(pattern@.skip(i as int), stem@, *date) == before + (seq![rest[0]]
                + expand(rest.skip(1), stem@, *date)));
        }
    }
    assert(out@ + Seq::<char>::empty() == out@);
    out
}

/// The place of a page below the output directory, as `url_pattern` gives it
/// for the file `filename` published on `date`: the placeholders `{stem}`,
/// `{date}`, `{year}`, `{month}` and `{day}` are replaced; the date comes
/// from `date`, never from the file name.
pub fn resolve_url_pattern(url_pattern: &str, filename: &str, date: &PublishDate) -> (r: String)
    requires
        date.well_formed(),
    ensures
        r@ == expand(url_pattern@, slug_of(filename@), *date),
{
    let pattern = chars_of(url_pattern);
    let name = chars_of(filename);
    let stem = slug(name.as_slice());
    let out = expand_pattern(pattern.as_slice(), stem.as_slice(), date);
    string_of(out.as_slice())
}

/// The directory or file, before the page's own ending, at which a page of
/// `content_type` placed at `resolved` is written below `output_root`.
pub open spec fn page_base(content_type: Seq<char>, resolved: Seq<char>, output_root: Seq<char>) -> PathView {
    join(join(path_view(output_root), path_view(content_type)), path_view(resolved))
}

/// The output path of a page: with clean URLs the file `index.html` in the
/// page's own directory, else the page's place with the extension `html`.
pub open spec fn output_location(
    content_type: Seq<char>,
    resolved: Seq<char>,
    output_root: Seq<char>,
    clean_urls: bool,
) -> PathView {
    if clean_urls {
        push_segment(page_base(content_type, resolved, output_root), "index.html"@)
    } else {
        with_html_extension(page_base(content_type, resolved, output_root))
    }
}

/// The output path of a page of `content_type` whose pattern resolved to
/// `resolved_pattern`.
pub fn build_output_path(
    content_type: &str,
    resolved_pattern: &str,
    output_root: &str,
    clean_urls: bool,
) -> (r: String)
    ensures
        r@ == path_text(output_location(content_type@, resolved_pattern@, output_root@, clean_urls)),
{
    let root = SitePath::from_text(output_root);
    let kind = SitePath::from_text(content_type);
    let place = SitePath::from_text(resolved_pattern);
    let base = root.join(kind).join(place);
    if clean_urls {
        let name = chars_of("index.html");
        assert(is_segment(name@)) by {
            reveal_strlit("index.html");
        }
        base.push(name).to_text()
    } else {
        base.with_html_extension().to_text()
    }
}

/// An output path lies below the output directory: where the content type and
/// the resolved pattern are relative and name at least one segment between
/// them, the segments of the output directory lead the segments of the
/// output path, and reading the output path back gives the same path.
pub proof fn lemma_output_below_root(
    content_type: Seq<char>,
    resolved: Seq<char>,
    output_root: Seq<char>,
    clean_urls: bool,
)
    requires
        !crate::paths::is_absolute(content_type),
        !crate::paths::is_absolute(resolved),
        crate::paths::segments(content_type).len() + crate::paths::segments(resolved).len() > 0,
    ensures
        ({
            let out = output_location(content_type, resolved, output_root, clean_urls);
            &&& out.absolute == crate::paths::is_absolute(output_root)
            &&& crate::paths::segments(output_root).is_prefix_of(out.segments)
            &&& out.segments.len() > crate::paths::segments(output_root).len()
            &&& path_view(path_text(out)) == out
        }),
{
    let root = crate::paths::segments(output_root);
    let kind = crate::paths::segments(content_type);
    let place = crate::paths::segments(resolved);
    let base = page_base(content_type, resolved, output_root);
    let out = output_location(content_type, resolved, output_root, clean_urls);
    crate::paths::lemma_split_gives_segments(output_root, Seq::empty());
    crate::paths::lemma_split_gives_segments(content_type, Seq::empty());
    crate::paths::lemma_split_gives_segments(resolved, Seq::empty());
    assert(base.segments == root + kind + place);
    assert(all_segments(base.segments));
    assert(root =~= base.segments.subrange(0, root.len() as int));
    if clean_urls {
        assert(is_segment("index.html"@)) by {
            reveal_strlit("index.html");
        }
        assert(root =~= out.segments.subrange(0, root.len() as int));
        assert(all_segments(out.segments));
    } else {
        let last = base.segments.last();
        assert(is_segment(last));
        if last == crate::paths::parent_segment() {
        } else {
            let name = stem_of(last) + seq!['.'] + crate::paths::html();
            assert(is_segment(name)) by {
                crate::text::lemma_last_index_of(last, '.');
            }
            assert(root =~= out.segments.subrange(0, root.len() as int));
            assert(all_segments(out.segments));
        }
    }
    crate::paths::lemma_path_round_trip(out);
}

} // verus!
