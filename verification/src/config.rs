//! The site configuration: read once at the start of a build, never changed.

use vstd::prelude::*;
use crate::paths::views;
use crate::sort::{are_distinct, distinct};
use crate::text::{chars_of, first_index, first_index_from, str_eq};

verus! {

/// The settings of one content type.
#[derive(Clone, Debug)]
pub struct ContentTypeConfig {
    /// Template of the type's index page.
    pub index_template: String,
    /// Template of each page of the type.
    pub content_template: String,
    /// Pattern of the output location, with the placeholders `{stem}`,
    /// `{date}`, `{year}`, `{month}` and `{day}`.
    pub url_pattern: Option<String>,
    /// Older way of naming outputs: `"default"` or `"date"`.
    pub output_naming: Option<String>,
    /// Whether pages of the type go into the feed; they do where nothing is set.
    pub rss_include: Option<bool>,
}

/// A content type with its name.
#[derive(Clone, Debug)]
pub struct ContentTypeEntry {
    pub name: String,
    pub settings: ContentTypeConfig,
}

/// A static file that is copied to the root of the output: the name it gets
/// there, and where it lies below the static directory.
#[derive(Clone, Debug)]
pub struct RootStaticEntry {
    pub output_name: String,
    pub source: String,
}

/// A redirect from one URL path to another.
#[derive(Clone, Debug)]
pub struct RedirectEntry {
    pub from: String,
    pub to: String,
}

/// A variable handed to the templates.
#[derive(Clone, Debug)]
pub struct DynamicEntry {
    pub key: String,
    pub value: String,
}

/// The settings of the site as a whole.
#[derive(Clone, Debug)]
pub struct SiteConfig {
    pub title: String,
    pub tagline: String,
    pub domain: String,
    pub author: String,
    pub output_dir: String,
    pub content_dir: String,
    pub template_dir: String,
    pub static_dir: String,
    pub site_index_template: String,
    pub syntax_highlighting_enabled: bool,
    pub syntax_highlighting_theme: String,
    pub root_static: Vec<RootStaticEntry>,
    pub sitemap_enabled: bool,
    pub rss_enabled: bool,
    pub allow_dangerous_html: bool,
    pub header_uri_fragment: bool,
    pub clean_urls: bool,
    pub asset_hashing_enabled: bool,
    pub asset_manifest_path: Option<String>,
}

/// The whole configuration.
#[derive(Clone, Debug)]
pub struct Config {
    pub site: SiteConfig,
    /// The declared content types. What is written out of them is written
    /// in the order of their names, whatever the order here.
    pub content: Vec<ContentTypeEntry>,
    pub dynamic: Vec<DynamicEntry>,
    pub redirects: Vec<RedirectEntry>,
}

/// The names of `entries`, in order.
pub open spec fn type_names(entries: Seq<ContentTypeEntry>) -> Seq<Seq<char>> {
    entries.map_values(|e: ContentTypeEntry| e.name@)
}

/// The names under which `entries` are written to the root of the output.
pub open spec fn root_names(entries: Seq<RootStaticEntry>) -> Seq<Seq<char>> {
    entries.map_values(|e: RootStaticEntry| e.output_name@)
}

/// The names of the variables `entries`.
pub open spec fn dynamic_keys(entries: Seq<DynamicEntry>) -> Seq<Seq<char>> {
    entries.map_values(|e: DynamicEntry| e.key@)
}

/// The URL paths that `entries` redirect from.
pub open spec fn redirect_sources(entries: Seq<RedirectEntry>) -> Seq<Seq<char>> {
    entries.map_values(|e: RedirectEntry| e.from@)
}

/// The names of `entries` as vectors of characters.
pub fn type_name_chars(entries: &Vec<ContentTypeEntry>) -> (r: Vec<Vec<char>>)
    ensures
        views(r@) == type_names(entries@),
{
    let mut r: Vec<Vec<char>> = Vec::new();
    let mut i: usize = 0;
    while i < entries.len()
        invariant
            i <= entries.len(),
            views(r@) == type_names(entries@).take(i as int),
        decreases entries.len() - i,
    {
        let name = chars_of(entries[i].name.as_str());
        let ghost before = views(r@);
        r.push(name);
        assert(views(r@) =~= before.push(name@));
        assert(views(r@) =~= type_names(entries@).take(i + 1));
        i += 1;
    }
    assert(type_names(entries@).take(i as int) == type_names(entries@));
    r
}

fn root_name_chars(entries: &Vec<RootStaticEntry>) -> (r: Vec<Vec<char>>)
    ensures
        views(r@) == root_names(entries@),
{
    let mut r: Vec<Vec<char>> = Vec::new();
    let mut i: usize = 0;
    while i < entries.len()
        invariant
            i <= entries.len(),
            views(r@) == root_names(entries@).take(i as int),
        decreases entries.len() - i,
    {
        let name = chars_of(entries[i].output_name.as_str());
        let ghost before = views(r@);
        r.push(name);
        assert(views(r@) =~= before.push(name@));
        assert(views(r@) =~= root_names(entries@).take(i + 1));
        i += 1;
    }
    assert(root_names(entries@).take(i as int) == root_names(entries@));
    r
}

fn dynamic_key_chars(entries: &Vec<DynamicEntry>) -> (r: Vec<Vec<char>>)
    ensures
        views(r@) == dynamic_keys(entries@),
{
    let mut r: Vec<Vec<char>> = Vec::new();
    let mut i: usize = 0;
    while i < entries.len()
        invariant
            i <= entries.len(),
            views(r@) == dynamic_keys(entries@).take(i as int),
        decreases entries.len() - i,
    {
        let name = chars_of(entries[i].key.as_str());
        let ghost before = views(r@);
        r.push(name);
        assert(views(r@) =~= before.push(name@));
        assert(views(r@) =~= dynamic_keys(entries@).take(i + 1));
        i += 1;
    }
    assert(dynamic_keys(entries@).take(i as int) == dynamic_keys(entries@));
    r
}

fn redirect_source_chars(entries: &Vec<RedirectEntry>) -> (r: Vec<Vec<char>>)
    ensures
        views(r@) == redirect_sources(entries@),
{
    let mut r: Vec<Vec<char>> = Vec::new();
    let mut i: usize = 0;
    while i < entries.len()
        invariant
            i <= entries.len(),
            views(r@) == redirect_sources(entries@).take(i as int),
        decreases entries.len() - i,
    {
        let name = chars_of(entries[i].from.as_str());
        let ghost before = views(r@);
        r.push(name);
        assert(views(r@) =~= before.push(name@));
        assert(views(r@) =~= redirect_sources(entries@).take(i + 1));
        i += 1;
    }
    assert(redirect_sources(entries@).take(i as int) == redirect_sources(entries@));
    r
}

impl Config {
    /// Each list of the configuration is a map: no two content types have
    /// the same name, no two root files are written under one name, no
    /// variable is set twice, and no URL path is redirected twice.
    pub open spec fn well_formed(&self) -> bool {
        &&& distinct(type_names(self.content@))
        &&& distinct(root_names(self.site.root_static@))
        &&& distinct(dynamic_keys(self.dynamic@))
        &&& distinct(redirect_sources(self.redirects@))
    }

    /// The settings of the content type `name`, where it is declared: those
    /// of the first entry of that name.
    pub open spec fn settings_of(&self, name: Seq<char>) -> Option<ContentTypeConfig> {
        match first_index(type_names(self.content@), name) {
            Some(i) => Some(self.content[i].settings),
            None => None,
        }
    }

    /// The settings of the content type `name`, where it is declared.
    pub fn find_content_type(&self, name: &str) -> (r: Option<&ContentTypeConfig>)
        ensures
            match r {
                Some(c) => self.settings_of(name@) == Some(*c),
                None => self.settings_of(name@) is None,
            },
    {
        let ghost names = type_names(self.content@);
        let mut i: usize = 0;
        while i < self.content.len()
            invariant
                i <= self.content.len(),
                names == type_names(self.content@),
                first_index(names, name@) == first_index_from(names, name@, i as int),
            decreases self.content.len() - i,
        {
            assert(names[i as int] == self.content[i as int].name@);
            if str_eq(self.content[i].name.as_str(), name) {
                return Some(&self.content[i].settings);
            }
            i += 1;
        }
        None
    }

    /// Whether no two content types have the same name.
    pub fn has_unique_types(&self) -> (r: bool)
        ensures
            r == distinct(type_names(self.content@)),
    {
        let names = type_name_chars(&self.content);
        are_distinct(&names)
    }

    /// Whether no key occurs twice in any list of the configuration.
    pub fn is_well_formed(&self) -> (r: bool)
        ensures
            r == self.well_formed(),
    {
        let types = type_name_chars(&self.content);
        let roots = root_name_chars(&self.site.root_static);
        let variables = dynamic_key_chars(&self.dynamic);
        let sources = redirect_source_chars(&self.redirects);
        are_distinct(&types) && are_distinct(&roots) && are_distinct(&variables) && are_distinct(
            &sources,
        )
    }
}

} // verus!
