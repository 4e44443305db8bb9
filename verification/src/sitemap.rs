//! The sitemap: one entry for the homepage, one for the index of each
//! content type, one for each page.

use vstd::prelude::*;
use crate::config::{type_name_chars, type_names, Config};
use crate::paths::views;
use crate::sort::{
    as_ints, distinct, in_rising_order, is_rising_order, lemma_order_ignores_arrangement,
    lemma_rising_order, order_rising, rising_order, text_before,
};
use crate::content::LoadedContent;
use crate::date::{format_iso_date, iso_date, PublishDate};
use crate::paths::{path_text, path_view, strip_prefix, SitePath};
use crate::text::{
    chars_of, contains, copy_range, ends_with, forward_slashes, lemma_contains_self,
    lemma_contains_within, push_chars, push_str, string_of, with_forward_slashes,
};

verus! {

/// The address of the site: `https://` and the domain.
pub open spec fn base_url(config: Config) -> Seq<char> {
    "https://"@ + config.site.domain@
}

/// The path of a page from the output directory, with forward slashes; the
/// whole path where the page does not lie below the output directory.
pub open spec fn relative_url(output_path: Seq<char>, output_dir: Seq<char>) -> Seq<char> {
    with_forward_slashes(
        match strip_prefix(path_view(output_path), path_view(output_dir)) {
            Some(rest) => path_text(rest),
            None => output_path,
        },
    )
}

/// The ending of the path of a page under clean URLs.
pub open spec fn index_suffix() -> Seq<char> {
    "/index.html"@
}

/// The address of a page below the address of the site, without a leading
/// slash: with clean URLs, a page written as `slug/index.html` is addressed
/// as `slug/`.
pub open spec fn page_address(output_path: Seq<char>, output_dir: Seq<char>, clean_urls: bool) -> Seq<
    char,
> {
    let raw = relative_url(output_path, output_dir);
    if clean_urls && index_suffix().is_suffix_of(raw) {
        raw.take(raw.len() - index_suffix().len()) + seq!['/']
    } else {
        raw
    }
}

/// A file path as the path of a URL: with forward slashes.
pub fn path_to_url(path: &str) -> (r: String)
    ensures
        r@ == with_forward_slashes(path@),
{
    let chars = chars_of(path);
    let r = forward_slashes(chars.as_slice());
    string_of(r.as_slice())
}

/// The address of the page written at `output_path`, below the address of
/// the site.
pub fn page_url_path(output_path: &str, output_dir: &str, clean_urls: bool) -> (r: Vec<char>)
    ensures
        r@ == page_address(output_path@, output_dir@, clean_urls),
{
    let page = SitePath::from_text(output_path);
    let base = SitePath::from_text(output_dir);
    let relative = match page.strip_prefix(&base) {
        Some(rest) => rest.to_chars(),
        None => chars_of(output_path),
    };
    let raw = forward_slashes(relative.as_slice());
    let suffix = chars_of("/index.html");
    if clean_urls && ends_with(raw.as_slice(), suffix.as_slice()) {
        let mut r = copy_range(raw.as_slice(), 0, raw.len() - suffix.len());
        r.push('/');
        r
    } else {
        raw
    }
}

/// The line of an entry that gives the day of the last change.
pub open spec fn lastmod_line(lastmod: Option<PublishDate>) -> Seq<char> {
    match lastmod {
        Some(d) => if d.well_formed() {
            "    <lastmod>"@ + iso_date(d) + "</lastmod>\n"@
        } else {
            Seq::empty()
        },
        None => Seq::empty(),
    }
}

/// The element that holds the address `base_url` followed by `path`.
pub open spec fn loc_element(base_url: Seq<char>, path: Seq<char>) -> Seq<char> {
    "<loc>"@ + base_url + path + "</loc>"@
}

/// One entry of the sitemap.
pub open spec fn url_entry(base_url: Seq<char>, path: Seq<char>, lastmod: Option<PublishDate>) -> Seq<
    char,
> {
    "  <url>\n    "@ + loc_element(base_url, path) + ("\n"@ + lastmod_line(lastmod) + "  </url>\n"@)
}

/// Appends one entry of the sitemap to `out`.
pub fn push_url_entry(out: &mut Vec<char>, base_url: &[char], path: &[char], lastmod: Option<&PublishDate>)
    ensures
        final(out)@ == old(out)@ + url_entry(
            base_url@,
            path@,
            match lastmod {
                Some(d) => Some(*d),
                None => None,
            },
        ),
{
    let ghost before = out@;
    let mut entry: Vec<char> = Vec::new();
    push_str(&mut entry, "  <url>\n    ");
    push_str(&mut entry, "<loc>");
    push_chars(&mut entry, base_url);
    push_chars(&mut entry, path);
    push_str(&mut entry, "</loc>");
    push_str(&mut entry, "\n");
    match lastmod {
        Some(d) => {
            if d.is_well_formed() {
                push_str(&mut entry, "    <lastmod>");
                let day = format_iso_date(d);
                push_chars(&mut entry, day.as_slice());
                push_str(&mut entry, "</lastmod>\n");
            }
        },
        None => {},
    }
    push_str(&mut entry, "  </url>\n");
    assert(entry@ =~= url_entry(
        base_url@,
        path@,
        match lastmod {
            Some(d) => Some(*d),
            None => None,
        },
    ));
    push_chars(out, entry.as_slice());
}

/// One entry of the sitemap: the address, and the day of the last change
/// where one is given.
pub fn format_url_entry(base_url: &str, path: &str, lastmod: Option<&PublishDate>) -> (r: String)
    ensures
        r@ == url_entry(
            base_url@,
            path@,
            match lastmod {
                Some(d) => Some(*d),
                None => None,
            },
        ),
{
    let mut out: Vec<char> = Vec::new();
    let base = chars_of(base_url);
    let p = chars_of(path);
    push_url_entry(&mut out, base.as_slice(), p.as_slice(), lastmod);
    assert(forall|s: Seq<char>| Seq::<char>::empty() + s =~= s);
    string_of(out.as_slice())
}

/// The path of the index of the content type `name`.
pub open spec fn type_index_address(name: Seq<char>) -> Seq<char> {
    seq!['/'] + name + seq!['/']
}

/// The entries for the indexes of the content types named `names`, in the
/// order of `names`.
pub open spec fn type_entries(base_url: Seq<char>, names: Seq<Seq<char>>) -> Seq<char>
    decreases names.len(),
{
    if names.len() == 0 {
        Seq::empty()
    } else {
        type_entries(base_url, names.drop_last()) + url_entry(
            base_url,
            type_index_address(names.last()),
            None,
        )
    }
}

/// The names of the declared content types in the order of a dictionary:
/// the order in which their indexes are listed, whatever the order of the
/// declarations.
pub open spec fn listed_types(config: Config) -> Seq<Seq<char>> {
    in_rising_order(type_names(config.content@))
}

/// The entries for the pages `pages`, in order.
pub open spec fn page_entries(config: Config, pages: Seq<LoadedContent>) -> Seq<char>
    decreases pages.len(),
{
    if pages.len() == 0 {
        Seq::empty()
    } else {
        page_entries(config, pages.drop_last()) + url_entry(
            base_url(config),
            seq!['/'] + page_address(
                pages.last().output_path@,
                config.site.output_dir@,
                config.site.clean_urls,
            ),
            Some(pages.last().content.meta.date),
        )
    }
}

/// The first lines of a sitemap.
pub open spec fn sitemap_head() -> Seq<char> {
    "<?xml version=\"1.0\" encoding=\"UTF-8\"?>\n<urlset xmlns=\"http://www.sitemaps.org/schemas/sitemap/0.9\">\n"@
}

/// The sitemap of a site with the pages `pages`.
pub open spec fn sitemap_text(config: Config, pages: Seq<LoadedContent>) -> Seq<char> {
    sitemap_head() + url_entry(base_url(config), seq!['/'], None) + type_entries(
        base_url(config),
        listed_types(config),
    ) + page_entries(config, pages) + "</urlset>\n"@
}

/// The sitemap: an entry for the homepage, then one for the index of each
/// declared content type, in the order of their names, then one for each
/// page with the day of its publication.
pub fn generate_sitemap(config: &Config, loaded_contents: &Vec<LoadedContent>) -> (r: String)
    ensures
        r@ == sitemap_text(*config, loaded_contents@),
{
    let mut out: Vec<char> = Vec::new();
    push_str(
        &mut out,
        "<?xml version=\"1.0\" encoding=\"UTF-8\"?>\n<urlset xmlns=\"http://www.sitemaps.org/schemas/sitemap/0.9\">\n",
    );
    assert(out@ == sitemap_head()) by {
        assert(forall|s: Seq<char>| Seq::<char>::empty() + s =~= s);
    }
    let mut base: Vec<char> = Vec::new();
    push_str(&mut base, "https://");
    push_str(&mut base, config.site.domain.as_str());
    assert(base@ == base_url(*config)) by {
        assert(forall|s: Seq<char>| Seq::<char>::empty() + s =~= s);
    }
    let root = vec!['/'];
    assert(root@ =~= seq!['/']);
    push_url_entry(&mut out, base.as_slice(), root.as_slice(), None);
    let ghost head = out@;
    let names = type_name_chars(&config.content);
    let order = order_rising(&names);
    let ghost listed = listed_types(*config);
    let mut i: usize = 0;
    assert(out@ == head + type_entries(base@, listed.take(0))) by {
        assert(forall|s: Seq<char>| s + Seq::<char>::empty() =~= s);
    }
    while i < order.len()
        invariant
            i <= order.len(),
            base@ == base_url(*config),
            listed == listed_types(*config),
            views(names@) == type_names(config.content@),
            as_ints(order@) == rising_order(views(names@)),
            is_rising_order(views(names@), as_ints(order@)),
            out@ == head + type_entries(base@, listed.take(i as int)),
        decreases order.len() - i,
    {
        let ghost upto = listed.take(i + 1);
        assert(upto.drop_last() == listed.take(i as int));
        assert(as_ints(order@)[i as int] == order[i as int]);
        let k = order[i];
        assert(0 <= k < names.len());
        assert(upto.last() == names[k as int]@);
        let mut path: Vec<char> = Vec::new();
        path.push('/');
        push_chars(&mut path, names[k].as_slice());
        path.push('/');
        assert(path@ =~= type_index_address(names[k as int]@));
        push_url_entry(&mut out, base.as_slice(), path.as_slice(), None);
        assert(out@ =~= head + (type_entries(base@, upto.drop_last()) + url_entry(
            base@,
            path@,
            None,
        )));
        i += 1;
    }
    assert(listed.take(i as int) == listed);
    let ghost types_done = out@;
    let mut k: usize = 0;
    assert(out@ == types_done + page_entries(*config, loaded_contents@.take(0))) by {
        assert(forall|s: Seq<char>| s + Seq::<char>::empty() =~= s);
    }
    while k < loaded_contents.len()
        invariant
            k <= loaded_contents.len(),
            base@ == base_url(*config),
            out@ == types_done + page_entries(*config, loaded_contents@.take(k as int)),
        decreases loaded_contents.len() - k,
    {
        let ghost upto = loaded_contents@.take(k + 1);
        assert(upto.drop_last() == loaded_contents@.take(k as int));
        assert(upto.last() == loaded_contents[k as int]);
        let page = &loaded_contents[k];
        let address = page_url_path(
            page.output_path.as_str(),
            config.site.output_dir.as_str(),
            config.site.clean_urls,
        );
        let mut path: Vec<char> = Vec::new();
        path.push('/');
        push_chars(&mut path, address.as_slice());
        assert(path@ =~= seq!['/'] + address@);
        push_url_entry(&mut out, base.as_slice(), path.as_slice(), Some(&page.content.meta.date));
        assert(out@ =~= types_done + (page_entries(*config, upto.drop_last()) + url_entry(
            base@,
            path@,
            Some(page.content.meta.date),
        )));
        k += 1;
    }
    assert(loaded_contents@.take(k as int) == loaded_contents@);
    push_str(&mut out, "</urlset>\n");
    string_of(out.as_slice())
}

/// An entry holds the element with its address.
pub proof fn lemma_entry_holds_loc(base_url: Seq<char>, path: Seq<char>, lastmod: Option<PublishDate>)
    ensures
        contains(url_entry(base_url, path, lastmod), loc_element(base_url, path)),
{
    let loc = loc_element(base_url, path);
    lemma_contains_self(loc);
    lemma_contains_within("  <url>\n    "@, loc, "\n"@ + lastmod_line(lastmod) + "  </url>\n"@, loc);
}

/// The entries for the indexes hold the address of the index of each name.
pub proof fn lemma_type_entries_hold(base_url: Seq<char>, names: Seq<Seq<char>>, i: int)
    requires
        0 <= i < names.len(),
    ensures
        contains(type_entries(base_url, names), loc_element(base_url, type_index_address(names[i]))),
    decreases names.len(),
{
    let loc = loc_element(base_url, type_index_address(names[i]));
    let head = type_entries(base_url, names.drop_last());
    let last = url_entry(base_url, type_index_address(names.last()), None);
    if i == names.len() - 1 {
        lemma_entry_holds_loc(base_url, type_index_address(names[i]), None);
        lemma_contains_within(head, last, Seq::empty(), loc);
        assert(head + last + Seq::<char>::empty() =~= head + last);
    } else {
        lemma_type_entries_hold(base_url, names.drop_last(), i);
        assert(names.drop_last()[i] == names[i]);
        lemma_contains_within(Seq::empty(), head, last, loc);
        assert(Seq::<char>::empty() + head + last =~= head + last);
    }
}

/// The list of the indexes does not depend on the order in which the
/// content types are declared: two configurations that declare the same
/// types, none of them twice, list them alike.
pub proof fn lemma_listing_ignores_declaration_order(a: Config, b: Config)
    requires
        distinct(type_names(a.content@)),
        distinct(type_names(b.content@)),
        forall|i: int|
            0 <= i < a.content.len() ==> type_names(b.content@).contains(
                #[trigger] type_names(a.content@)[i],
            ),
        forall|i: int|
            0 <= i < b.content.len() ==> type_names(a.content@).contains(
                #[trigger] type_names(b.content@)[i],
            ),
    ensures
        listed_types(a) == listed_types(b),
{
    lemma_order_ignores_arrangement(type_names(a.content@), type_names(b.content@));
}

/// The indexes of the content types are listed in the order of their names:
/// the list holds every declared name, and no name in it stands behind one
/// that it stands before in the dictionary.
pub proof fn lemma_types_listed_in_order(config: Config)
    ensures
        listed_types(config).len() == config.content.len(),
        forall|i: int|
            0 <= i < config.content.len() ==> listed_types(config).contains(
                #[trigger] config.content[i].name@,
            ),
        forall|a: int, b: int|
            0 <= a < b < listed_types(config).len() ==> !text_before(
                listed_types(config)[b],
                listed_types(config)[a],
            ),
{
    let names = type_names(config.content@);
    let order = rising_order(names);
    let listed = listed_types(config);
    lemma_rising_order(names);
    assert forall|i: int| 0 <= i < config.content.len() implies listed.contains(
        #[trigger] config.content[i].name@,
    ) by {
        assert(order.contains(i));
        let k = choose|k: int| 0 <= k < order.len() && order[k] == i;
        assert(listed[k] == names[i]);
    }
}

/// A sitemap made of no pages still names the homepage and the index of
/// every declared content type.
pub proof fn lemma_empty_sitemap_names_indexes(config: Config)
    ensures
        contains(
            sitemap_text(config, Seq::empty()),
            loc_element(base_url(config), seq!['/']),
        ),
        forall|i: int|
            0 <= i < config.content.len() ==> contains(
                sitemap_text(config, Seq::empty()),
                loc_element(
                    base_url(config),
                    type_index_address(#[trigger] config.content[i].name@),
                ),
            ),
{
    let base = base_url(config);
    let home = url_entry(base, seq!['/'], None);
    let listed = listed_types(config);
    let types = type_entries(base, listed);
    let pages = page_entries(config, Seq::empty());
    let tail = "</urlset>\n"@;
    let whole = sitemap_text(config, Seq::empty());
    lemma_entry_holds_loc(base, seq!['/'], None);
    lemma_contains_within(sitemap_head(), home, types + pages + tail, loc_element(base, seq!['/']));
    assert(sitemap_head() + home + (types + pages + tail) =~= whole);
    lemma_types_listed_in_order(config);
    assert forall|i: int| 0 <= i < config.content.len() implies contains(
        whole,
        loc_element(base, type_index_address(#[trigger] config.content[i].name@)),
    ) by {
        let name = config.content[i].name@;
        assert(listed.contains(name));
        let k = choose|k: int| 0 <= k < listed.len() && listed[k] == name;
        lemma_type_entries_hold(base, listed, k);
        lemma_contains_within(
            sitemap_head() + home,
            types,
            pages + tail,
            loc_element(base, type_index_address(name)),
        );
        assert(sitemap_head() + home + types + (pages + tail) =~= whole);
    }
}

} // verus!
