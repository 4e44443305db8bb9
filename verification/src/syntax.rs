//! Syntax highlighting of the code blocks of a page.

use vstd::prelude::*;
use autumnus::formatter::Formatter;
use autumnus::languages::Language;
use autumnus::{themes, HtmlInlineBuilder};
use crate::text::{
    chars_of, copy_range, find_from, find_in, is_space, is_whitespace, lemma_find_from,
    push_chars, push_str, str_eq, string_of, trim, trimmed,
};

verus! {

/// The theme used where none is configured.
pub const DEFAULT_THEME: &'static str = "github_dark";

/// A failure to highlight.
#[derive(Debug)]
pub enum SyntaxError {
    /// The highlighter failed on a block.
    Highlight(String),
    /// The theme, named first, is not known; the reason follows.
    InvalidTheme(String, String),
    /// The page is malformed, or the output is not text.
    Io(String),
}

/// What a `SyntaxError` holds, as texts.
pub enum SyntaxErrorView {
    Highlight(Seq<char>),
    InvalidTheme(Seq<char>, Seq<char>),
    Io(Seq<char>),
}

impl View for SyntaxError {
    type V = SyntaxErrorView;

    open spec fn view(&self) -> SyntaxErrorView {
        match self {
            SyntaxError::Highlight(m) => SyntaxErrorView::Highlight(m@),
            SyntaxError::InvalidTheme(t, m) => SyntaxErrorView::InvalidTheme(t@, m@),
            SyntaxError::Io(m) => SyntaxErrorView::Io(m@),
        }
    }
}

/// What the error says.
pub open spec fn syntax_error_text(e: SyntaxErrorView) -> Seq<char> {
    match e {
        SyntaxErrorView::Highlight(m) => "Failed to highlight code: "@ + m,
        SyntaxErrorView::InvalidTheme(t, m) => "Invalid theme '"@ + t + "': "@ + m,
        SyntaxErrorView::Io(m) => "I/O error during highlighting: "@ + m,
    }
}

impl SyntaxError {
    /// The error as a line of text.
    pub fn to_text(&self) -> (r: String)
        ensures
            r@ == syntax_error_text(self@),
    {
        let mut out: Vec<char> = Vec::new();
        match self {
            SyntaxError::Highlight(m) => {
                push_str(&mut out, "Failed to highlight code: ");
                push_str(&mut out, m.as_str());
                assert(out@ == "Failed to highlight code: "@ + m@) by {
                    assert(Seq::<char>::empty() + "Failed to highlight code: "@
                        == "Failed to highlight code: "@);
                }
            },
            SyntaxError::InvalidTheme(t, m) => {
                push_str(&mut out, "Invalid theme '");
                push_str(&mut out, t.as_str());
                push_str(&mut out, "': ");
                push_str(&mut out, m.as_str());
                assert(out@ == "Invalid theme '"@ + t@ + "': "@ + m@) by {
                    assert(Seq::<char>::empty() + "Invalid theme '"@ == "Invalid theme '"@);
                }
            },
            SyntaxError::Io(m) => {
                push_str(&mut out, "I/O error during highlighting: ");
                push_str(&mut out, m.as_str());
                assert(out@ == "I/O error during highlighting: "@ + m@) by {
                    assert(Seq::<char>::empty() + "I/O error during highlighting: "@
                        == "I/O error during highlighting: "@);
                }
            },
        }
        string_of(out.as_slice())
    }
}

/// The languages that code blocks are highlighted in.
#[derive(Clone, Copy, Debug, PartialEq, Eq, Structural)]
pub enum CodeLanguage {
    Rust,
    Python,
    JavaScript,
    TypeScript,
    Html,
    Css,
    Bash,
    Json,
    Toml,
    Yaml,
    PlainText,
}

/// `s` in lower case, as `str::to_lowercase` gives it.
pub uninterp spec fn lowercase_text(s: Seq<char>) -> Seq<char>;

/// Calls `str::to_lowercase`.
#[verifier::external_body]
fn lowercase(s: &str) -> (r: String)
    ensures
        r@ == lowercase_text(s@),
{
    s.to_lowercase()
}

/// The language that the lower-case name `name` stands for.
pub open spec fn language_named(name: Seq<char>) -> Option<CodeLanguage> {
    if name == "rust"@ {
        Some(CodeLanguage::Rust)
    } else if name == "python"@ || name == "py"@ {
        Some(CodeLanguage::Python)
    } else if name == "javascript"@ || name == "js"@ {
        Some(CodeLanguage::JavaScript)
    } else if name == "typescript"@ || name == "ts"@ {
        Some(CodeLanguage::TypeScript)
    } else if name == "html"@ {
        Some(CodeLanguage::Html)
    } else if name == "css"@ {
        Some(CodeLanguage::Css)
    } else if name == "bash"@ || name == "sh"@ || name == "shell"@ {
        Some(CodeLanguage::Bash)
    } else if name == "json"@ {
        Some(CodeLanguage::Json)
    } else if name == "toml"@ {
        Some(CodeLanguage::Toml)
    } else if name == "yaml"@ || name == "yml"@ {
        Some(CodeLanguage::Yaml)
    } else if name == "plaintext"@ || name == "text"@ || name == "txt"@ {
        Some(CodeLanguage::PlainText)
    } else {
        None
    }
}

/// The language that a code block marked `lang` is written in: the name is
/// trimmed and read without regard to case.
pub open spec fn language_of(lang: Seq<char>) -> Option<CodeLanguage> {
    language_named(lowercase_text(trim(lang)))
}

/// The language that the lower-case name `name` stands for, where it stands
/// for one: `rust`, `python` or `py`, `javascript` or `js`, `typescript` or
/// `ts`, `html`, `css`, `bash`, `sh` or `shell`, `json`, `toml`, `yaml` or
/// `yml`, `plaintext`, `text` or `txt`.
pub fn language_for_name(name: &str) -> (r: Option<CodeLanguage>)
    ensures
        r == language_named(name@),
{
    if str_eq(name, "rust") {
        Some(CodeLanguage::Rust)
    } else if str_eq(name, "python") || str_eq(name, "py") {
        Some(CodeLanguage::Python)
    } else if str_eq(name, "javascript") || str_eq(name, "js") {
        Some(CodeLanguage::JavaScript)
    } else if str_eq(name, "typescript") || str_eq(name, "ts") {
        Some(CodeLanguage::TypeScript)
    } else if str_eq(name, "html") {
        Some(CodeLanguage::Html)
    } else if str_eq(name, "css") {
        Some(CodeLanguage::Css)
    } else if str_eq(name, "bash") || str_eq(name, "sh") || str_eq(name, "shell") {
        Some(CodeLanguage::Bash)
    } else if str_eq(name, "json") {
        Some(CodeLanguage::Json)
    } else if str_eq(name, "toml") {
        Some(CodeLanguage::Toml)
    } else if str_eq(name, "yaml") || str_eq(name, "yml") {
        Some(CodeLanguage::Yaml)
    } else if str_eq(name, "plaintext") || str_eq(name, "text") || str_eq(name, "txt") {
        Some(CodeLanguage::PlainText)
    } else {
        None
    }
}

/// The language that a code block marked `lang` is written in, where the
/// mark is known.
pub fn map_lang_to_autumnus(lang: &str) -> (r: Option<CodeLanguage>)
    ensures
        r == language_of(lang@),
{
    let chars = chars_of(lang);
    let cut = trimmed(chars.as_slice());
    let cut_text = string_of(cut.as_slice());
    let lower = lowercase(cut_text.as_str());
    language_for_name(lower.as_str())
}

/// The reason that `autumnus` gives for not knowing the theme named
/// `theme`, or nothing where it knows the theme.
pub uninterp spec fn theme_error(theme: Seq<char>) -> Option<Seq<char>>;

/// What `autumnus` writes for `code` in the language `lang`, with the theme
/// named `theme`, as HTML with inline styles whose `pre` element has the
/// class `pre_class`: the bytes written, or the reason for which it fails.
pub uninterp spec fn inline_html_bytes(
    code: Seq<char>,
    lang: CodeLanguage,
    theme: Seq<char>,
    pre_class: Seq<char>,
) -> Result<Seq<u8>, Seq<char>>;

/// What `String::from_utf8` says of bytes that are not UTF-8.
pub uninterp spec fn utf8_error_text(bytes: Seq<u8>) -> Seq<char>;

/// Calls `autumnus::themes::get` and hands back the text of its error.
#[verifier::external_body]
fn theme_problem(theme_name: &str) -> (r: Option<String>)
    ensures
        match r {
            Some(m) => theme_error(theme_name@) == Some(m@),
            None => theme_error(theme_name@) is None,
        },
{
    match themes::get(theme_name) {
        Ok(_) => None,
        Err(e) => Some(e.to_string()),
    }
}

/// Builds a formatter with `autumnus::HtmlInlineBuilder` for a theme that
/// `autumnus::themes::get` knows, and runs `Formatter::format` into a vector
/// of bytes. The language is handed over as the variant of
/// `autumnus::languages::Language` that stands at the place of `lang` in the
/// list below, which follows the order of `CodeLanguage`. An error of either
/// call is handed back as its text. Nothing is claimed of the result but
/// that it is a function of the four arguments.
#[verifier::external_body]
fn autumnus_inline_html(code: &str, lang: CodeLanguage, theme_name: &str, pre_class: &str) -> (r:
    Result<Vec<u8>, String>)
    requires
        theme_error(theme_name@) is None,
    ensures
        match r {
            Ok(bytes) => inline_html_bytes(code@, lang, theme_name@, pre_class@) == Ok::<
                Seq<u8>,
                Seq<char>,
            >(bytes@),
            Err(m) => inline_html_bytes(code@, lang, theme_name@, pre_class@) == Err::<
                Seq<u8>,
                Seq<char>,
            >(m@),
        },
{
    let langs = [
        Language::Rust, Language::Python, Language::JavaScript, Language::TypeScript,
        Language::HTML, Language::CSS, Language::Bash, Language::JSON, Language::Toml,
        Language::YAML, Language::PlainText,
    ];
    let builder = HtmlInlineBuilder::new().source(code).lang(langs[lang as usize])
        .theme(themes::get(theme_name).ok()).pre_class(Some(pre_class)).build();
    let mut output = Vec::new();
    match builder {
        Ok(formatter) => match formatter.format(&mut output) {
            Ok(()) => Ok(output),
            Err(e) => Err(e.to_string()),
        },
        Err(e) => Err(e.to_string()),
    }
}

/// Calls `String::from_utf8`: the text that the bytes encode, where they are
/// UTF-8, else the text of the error.
#[verifier::external_body]
fn text_of_utf8(bytes: Vec<u8>) -> (r: Result<String, String>)
    ensures
        match r {
            Ok(s) => vstd::utf8::valid_utf8(bytes@) && s@ == vstd::utf8::decode_utf8(bytes@),
            Err(m) => !vstd::utf8::valid_utf8(bytes@) && m@ == utf8_error_text(bytes@),
        },
{
    match String::from_utf8(bytes) {
        Ok(s) => Ok(s),
        Err(e) => Err(e.to_string()),
    }
}

/// The highlighted form of `code` in the language `lang`: the text that the
/// highlighter writes, or the error of the step that fails — the theme is
/// not known, the highlighter fails, or what it wrote is not text.
pub open spec fn inline_html(code: Seq<char>, lang: CodeLanguage, theme: Seq<char>, pre_class: Seq<char>) -> Result<
    Seq<char>,
    SyntaxErrorView,
> {
    match theme_error(theme) {
        Some(m) => Err(SyntaxErrorView::InvalidTheme(theme, m)),
        None => match inline_html_bytes(code, lang, theme, pre_class) {
            Err(m) => Err(SyntaxErrorView::Highlight(m)),
            Ok(bytes) => if vstd::utf8::valid_utf8(bytes) {
                Ok(vstd::utf8::decode_utf8(bytes))
            } else {
                Err(SyntaxErrorView::Io(utf8_error_text(bytes)))
            },
        },
    }
}

/// The view of a result of highlighting.
pub open spec fn result_view(r: Result<String, SyntaxError>) -> Result<Seq<char>, SyntaxErrorView> {
    match r {
        Ok(s) => Ok(s@),
        Err(e) => Err(e@),
    }
}

/// Highlights `code` in the language `lang` with the theme named `theme_name`.
pub fn highlight_in(code: &str, lang: CodeLanguage, theme_name: &str, pre_class: &str) -> (r: Result<
    String,
    SyntaxError,
>)
    ensures
        result_view(r) == inline_html(code@, lang, theme_name@, pre_class@),
{
    match theme_problem(theme_name) {
        Some(m) => {
            return Err(SyntaxError::InvalidTheme(string_of(chars_of(theme_name).as_slice()), m));
        },
        None => {},
    }
    let bytes = match autumnus_inline_html(code, lang, theme_name, pre_class) {
        Ok(bytes) => bytes,
        Err(m) => {
            return Err(SyntaxError::Highlight(m));
        },
    };
    match text_of_utf8(bytes) {
        Ok(s) => Ok(s),
        Err(m) => Err(SyntaxError::Io(m)),
    }
}

/// The language in which a block marked `lang` is highlighted: plain text
/// where it has no mark or an unknown one.
pub open spec fn block_language(lang: Option<Seq<char>>) -> CodeLanguage {
    match lang {
        Some(l) => match language_of(l) {
            Some(known) => known,
            None => CodeLanguage::PlainText,
        },
        None => CodeLanguage::PlainText,
    }
}

/// The class of the `pre` element of a highlighted block.
pub open spec fn block_class() -> Seq<char> {
    "code-block"@
}

/// The highlighted form of one code block.
pub open spec fn highlighted_block(code: Seq<char>, lang: Option<Seq<char>>, theme: Seq<char>) -> Result<
    Seq<char>,
    SyntaxErrorView,
> {
    inline_html(code, block_language(lang), theme, block_class())
}

/// The view of an optional string.
pub open spec fn option_view(o: Option<&str>) -> Option<Seq<char>> {
    match o {
        Some(s) => Some(s@),
        None => None,
    }
}

/// Highlights one code block in the language marked `lang`, with the theme
/// named `theme_name`.
pub fn highlight_code_block(code: &str, lang: Option<&str>, theme_name: &str) -> (r: Result<
    String,
    SyntaxError,
>)
    ensures
        result_view(r) == highlighted_block(code@, option_view(lang), theme_name@),
{
    let language = match lang {
        Some(l) => match map_lang_to_autumnus(l) {
            Some(known) => known,
            None => CodeLanguage::PlainText,
        },
        None => CodeLanguage::PlainText,
    };
    highlight_in(code, language, theme_name, "code-block")
}

/// The start of a class that names a language.
pub open spec fn language_prefix() -> Seq<char> {
    seq!['l', 'a', 'n', 'g', 'u', 'a', 'g', 'e', '-']
}

/// The language that the class `token` names, where it names one.
pub open spec fn token_language(token: Seq<char>) -> Option<Seq<char>> {
    if language_prefix().is_prefix_of(token) {
        Some(token.skip(9))
    } else {
        None
    }
}

/// The language named by the first class that names one, among `cur`, the
/// class in hand, and the classes of `s` that follow it.
pub open spec fn first_language(s: Seq<char>, cur: Seq<char>) -> Option<Seq<char>>
    decreases s.len(),
{
    if s.len() == 0 {
        token_language(cur)
    } else if is_space(s[0]) {
        match token_language(cur) {
            Some(l) => Some(l),
            None => first_language(s.skip(1), Seq::empty()),
        }
    } else {
        first_language(s.skip(1), cur.push(s[0]))
    }
}

/// The language that the class attribute `class` names: what follows
/// `language-` in the first of its classes that starts so.
pub open spec fn class_language(class: Seq<char>) -> Option<Seq<char>> {
    first_language(class, Seq::empty())
}

fn language_of_token(token: &[char]) -> (r: Option<Vec<char>>)
    ensures
        match r {
            Some(l) => token_language(token@) == Some(l@),
            None => token_language(token@) is None,
        },
{
    let prefix = chars_of("language-");
    proof {
        reveal_strlit("language-");
        assert(prefix@ =~= language_prefix());
    }
    if crate::text::starts_with(token, prefix.as_slice()) {
        Some(copy_range(token, 9, token.len()))
    } else {
        None
    }
}

/// The language named in a class attribute, where one is named.
pub fn class_language_chars(class: &[char]) -> (r: Option<Vec<char>>)
    ensures
        match r {
            Some(l) => class_language(class@) == Some(l@),
            None => class_language(class@) is None,
        },
{
    let mut cur: Vec<char> = Vec::new();
    let mut i: usize = 0;
    assert(class@.skip(0) == class@);
    while i < class.len()
        invariant
            i <= class.len(),
            class_language(class@) == first_language(class@.skip(i as int), cur@),
        decreases class.len() - i,
    {
        let c = class[i];
        assert(class@.skip(i as int)[0] == c);
        assert(class@.skip(i as int).skip(1) == class@.skip(i + 1));
        if is_whitespace(c) {
            match language_of_token(cur.as_slice()) {
                Some(l) => {
                    return Some(l);
                },
                None => {},
            }
            cur = Vec::new();
        } else {
            cur.push(c);
        }
        i += 1;
    }
    language_of_token(cur.as_slice())
}

/// The language that the class attribute `class` names, as in
/// `hljs language-python`, where it names one.
pub fn extract_language_from_class(class: &str) -> (r: Option<String>)
    ensures
        match r {
            Some(l) => class_language(class@) == Some(l@),
            None => class_language(class@) is None,
        },
{
    let chars = chars_of(class);
    match class_language_chars(chars.as_slice()) {
        Some(l) => Some(string_of(l.as_slice())),
        None => None,
    }
}

/// The language that the tag `tag` names in its class attribute.
pub open spec fn tag_language(tag: Seq<char>) -> Option<Seq<char>> {
    match find_from(tag, "class=\""@, 0) {
        Some(at) => match find_from(tag, seq!['"'], at + 7) {
            Some(end) => class_language(tag.subrange(at + 7, end)),
            None => None,
        },
        None => None,
    }
}

/// What the error for a block without an end says.
pub open spec fn missing_close_message() -> Seq<char> {
    "Malformed HTML: missing closing </code></pre>"@
}

/// What the error for a tag without an end says.
pub open spec fn missing_tag_end_message() -> Seq<char> {
    "Malformed HTML: missing '>' in <code> tag"@
}

/// `r` with `prefix` in front of it, where `r` is a text.
pub open spec fn prepend(prefix: Seq<char>, r: Result<Seq<char>, SyntaxErrorView>) -> Result<
    Seq<char>,
    SyntaxErrorView,
> {
    match r {
        Ok(s) => Ok(prefix + s),
        Err(e) => Err(e),
    }
}

/// `html` from `pos` on, with every code block highlighted.
///
/// A block starts where `<pre><code` stands. Its opening tag runs to the
/// first `>` from there, its code from the end of that tag to the next
/// `</code></pre>`. The text outside the blocks stays as it is. The first
/// block that has no end, or that cannot be highlighted, fails the whole.
pub open spec fn highlight_from(html: Seq<char>, pos: int, theme: Seq<char>) -> Result<
    Seq<char>,
    SyntaxErrorView,
>
    decreases html.len() - pos,
    via highlight_from_decreases
{
    if pos < 0 || pos > html.len() {
        Ok(Seq::empty())
    } else {
        match find_from(html, "<pre><code"@, pos) {
            None => Ok(html.skip(pos)),
            Some(start) => match find_from(html, seq!['>'], start) {
                None => Err(SyntaxErrorView::Io(missing_tag_end_message())),
                Some(gt) => match find_from(html, "</code></pre>"@, gt + 1) {
                    None => Err(SyntaxErrorView::Io(missing_close_message())),
                    Some(close) => match highlighted_block(
                        html.subrange(gt + 1, close),
                        tag_language(html.subrange(start, gt + 1)),
                        theme,
                    ) {
                        Err(e) => Err(e),
                        Ok(block) => prepend(
                            html.subrange(pos, start) + block,
                            highlight_from(html, close + "</code></pre>"@.len(), theme),
                        ),
                    },
                },
            },
        }
    }
}

#[via_fn]
proof fn highlight_from_decreases(html: Seq<char>, pos: int, theme: Seq<char>) {
    if 0 <= pos <= html.len() {
        lemma_find_from(html, "<pre><code"@, pos);
        match find_from(html, "<pre><code"@, pos) {
            Some(start) => {
                lemma_find_from(html, seq!['>'], start);
                match find_from(html, seq!['>'], start) {
                    Some(gt) => {
                        lemma_find_from(html, "</code></pre>"@, gt + 1);
                    },
                    None => {},
                }
            },
            None => {},
        }
    }
}

/// The opening tag of a block is the `<pre>` tag that `<pre><code` starts
/// with, and it names no language. So the code of a block takes in the
/// `<code>` tag behind it, and every block is highlighted as plain text.
pub proof fn lemma_block_opens_with_pre(html: Seq<char>, start: int)
    requires
        crate::text::occurs_at(html, "<pre><code"@, start),
    ensures
        find_from(html, seq!['>'], start) == Some(start + 4),
        tag_language(html.subrange(start, start + 5)) is None,
{
    reveal_strlit("<pre><code");
    reveal_strlit("class=\"");
    let key = "<pre><code"@;
    let gt = seq!['>'];
    assert forall|j: int| start <= j < start + 10 implies html[j] == key[j - start] by {
        assert(html.subrange(start, start + 10)[j - start] == html[j]);
    }
    lemma_find_from(html, gt, start);
    assert(html.subrange(start + 4, start + 5) =~= gt);
    assert(crate::text::occurs_at(html, gt, start + 4));
    assert forall|j: int| start <= j < start + 4 implies !crate::text::occurs_at(html, gt, j) by {
        if crate::text::occurs_at(html, gt, j) {
            assert(html.subrange(j, j + 1)[0] == '>');
        }
    }
    let tag = html.subrange(start, start + 5);
    assert(find_from(tag, "class=\""@, 0) is None);
}

/// `html` with every code block highlighted.
pub open spec fn highlighted(html: Seq<char>, theme: Seq<char>) -> Result<Seq<char>, SyntaxErrorView> {
    highlight_from(html, 0, theme)
}

fn language_of_tag(tag: &[char]) -> (r: Option<Vec<char>>)
    ensures
        match r {
            Some(l) => tag_language(tag@) == Some(l@),
            None => tag_language(tag@) is None,
        },
{
    let key = chars_of("class=\"");
    let quote = vec!['"'];
    assert(quote@ =~= seq!['"']);
    proof {
        reveal_strlit("class=\"");
    }
    match find_in(tag, key.as_slice(), 0) {
        Some(at) => match find_in(tag, quote.as_slice(), at + 7) {
            Some(end) => {
                let class = copy_range(tag, at + 7, end);
                class_language_chars(class.as_slice())
            },
            None => None,
        },
        None => None,
    }
}

/// Highlights every code block of `html` with the theme named `theme_name`.
/// The text outside the blocks is kept as it is.
pub fn highlight_html(html: &str, theme_name: &str) -> (r: Result<String, SyntaxError>)
    ensures
        result_view(r) == highlighted(html@, theme_name@),
{
    let text = chars_of(html);
    let open = chars_of("<pre><code");
    let close_tag = chars_of("</code></pre>");
    let gt_key = vec!['>'];
    assert(gt_key@ =~= seq!['>']);
    let mut out: Vec<char> = Vec::new();
    let mut pos: usize = 0;
    assert(prepend(out@, highlight_from(text@, 0, theme_name@)) == highlighted(html@, theme_name@))
        by {
        assert(forall|s: Seq<char>| Seq::<char>::empty() + s =~= s);
    }
    loop
        invariant
            pos <= text.len(),
            text@ == html@,
            open@ == "<pre><code"@,
            close_tag@ == "</code></pre>"@,
            gt_key@ == seq!['>'],
            prepend(out@, highlight_from(text@, pos as int, theme_name@)) == highlighted(
                html@,
                theme_name@,
            ),
        decreases text.len() - pos,
    {
        proof {
            lemma_find_from(text@, open@, pos as int);
        }
        let start = match find_in(text.as_slice(), open.as_slice(), pos) {
            Some(start) => start,
            None => {
                let rest = copy_range(text.as_slice(), pos, text.len());
                push_chars(&mut out, rest.as_slice());
                return Ok(string_of(out.as_slice()));
            },
        };
        proof {
            lemma_find_from(text@, gt_key@, start as int);
        }
        let gt = match find_in(text.as_slice(), gt_key.as_slice(), start) {
            Some(gt) => gt,
            None => {
                return Err(
                    SyntaxError::Io("Malformed HTML: missing '>' in <code> tag".to_string()),
                );
            },
        };
        proof {
            lemma_find_from(text@, close_tag@, gt + 1);
        }
        let close = match find_in(text.as_slice(), close_tag.as_slice(), gt + 1) {
            Some(close) => close,
            None => {
                return Err(
                    SyntaxError::Io("Malformed HTML: missing closing </code></pre>".to_string()),
                );
            },
        };
        let tag = copy_range(text.as_slice(), start, gt + 1);
        let code = copy_range(text.as_slice(), gt + 1, close);
        let lang = language_of_tag(tag.as_slice());
        let code_text = string_of(code.as_slice());
        let block = match lang {
            Some(l) => {
                let l_text = string_of(l.as_slice());
                highlight_code_block(code_text.as_str(), Some(l_text.as_str()), theme_name)
            },
            None => highlight_code_block(code_text.as_str(), None, theme_name),
        };
        let block = match block {
            Ok(block) => block,
            Err(e) => {
                return Err(e);
            },
        };
        let ghost before = out@;
        let before_block = copy_range(text.as_slice(), pos, start);
        push_chars(&mut out, before_block.as_slice());
        push_str(&mut out, block.as_str());
        let ghost next = close + close_tag@.len();
        assert(prepend(out@, highlight_from(text@, next as int, theme_name@)) == prepend(
            before,
            prepend(
                text@.subrange(pos as int, start as int) + block@,
                highlight_from(text@, next as int, theme_name@),
            ),
        )) by {
            assert(forall|s: Seq<char>|
                out@ + s =~= before + (text@.subrange(pos as int, start as int) + block@ + s));
        }
        pos = close + close_tag.len();
    }
}

} // verus!
