//! The errors with which the stages of a build fail.

use vstd::prelude::*;
use crate::text::push_str;

verus! {

/// A failure while static files are processed.
#[derive(Debug)]
pub enum StaticError {
    /// The file at `path` could not be read, written or found.
    Io { path: String, message: String },
}

/// A failure while a content file is loaded or transformed.
#[derive(Debug)]
pub enum ContentError {
    /// The file at `path` could not be read.
    Io { path: String, message: String },
    /// The metadata file at `path` is not valid TOML, or lacks a field.
    TomlParse { path: String, message: String },
    /// The body of the file at `path` could not be turned into HTML.
    MarkdownParsingFailed { path: String, message: String },
    /// A code block of the file at `path` could not be highlighted.
    SyntaxHighlighting { path: String, message: String },
}

/// What a `ContentError` holds, as texts.
pub enum ContentErrorView {
    Io { path: Seq<char>, message: Seq<char> },
    TomlParse { path: Seq<char>, message: Seq<char> },
    MarkdownParsingFailed { path: Seq<char>, message: Seq<char> },
    SyntaxHighlighting { path: Seq<char>, message: Seq<char> },
}

impl View for ContentError {
    type V = ContentErrorView;

    open spec fn view(&self) -> ContentErrorView {
        match self {
            ContentError::Io { path, message } => ContentErrorView::Io {
                path: path@,
                message: message@,
            },
            ContentError::TomlParse { path, message } => ContentErrorView::TomlParse {
                path: path@,
                message: message@,
            },
            ContentError::MarkdownParsingFailed { path, message } => {
                ContentErrorView::MarkdownParsingFailed { path: path@, message: message@ }
            },
            ContentError::SyntaxHighlighting { path, message } => {
                ContentErrorView::SyntaxHighlighting { path: path@, message: message@ }
            },
        }
    }
}

/// What a static-file error says.
pub open spec fn static_error_text(path: Seq<char>, message: Seq<char>) -> Seq<char> {
    "I/O error processing static file \""@ + path + "\": "@ + message
}

impl StaticError {
    /// The error as a line of text.
    pub fn to_text(&self) -> (r: String)
        ensures
            self matches StaticError::Io { path, message } && r@ == static_error_text(path@, message@),
    {
        match self {
            StaticError::Io { path, message } => {
                let mut out: Vec<char> = Vec::new();
                push_str(&mut out, "I/O error processing static file \"");
                push_str(&mut out, path.as_str());
                push_str(&mut out, "\": ");
                push_str(&mut out, message.as_str());
                assert(out@ == static_error_text(path@, message@)) by {
                    assert(Seq::<char>::empty() + "I/O error processing static file \""@
                        == "I/O error processing static file \""@);
                }
                crate::text::string_of(out.as_slice())
            },
        }
    }
}

} // verus!
