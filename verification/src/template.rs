//! What an index page shows: the pages of one content type, or all of them,
//! newest first, each with what the templates print of it.

use vstd::prelude::*;
use crate::config::Config;
use crate::content::{excerpt_html, get_excerpt_html, LoadedContent};
use crate::date::{four_digits, push_four_digits, push_two_digits, two_digits, PublishDate};
use crate::paths::{path_text, path_view, strip_prefix, SitePath};
use crate::rss::summary_pattern;
use crate::sort::{as_ints, is_newest_first, newest_first, order_newest_first};
use crate::text::{push_str, str_eq, string_of};

verus! {

/// The English name of the month `month`, counted from 1; empty for other numbers.
pub open spec fn month_name(month: int) -> Seq<char> {
    if month == 1 {
        "January"@
    } else if month == 2 {
        "February"@
    } else if month == 3 {
        "March"@
    } else if month == 4 {
        "April"@
    } else if month == 5 {
        "May"@
    } else if month == 6 {
        "June"@
    } else if month == 7 {
        "July"@
    } else if month == 8 {
        "August"@
    } else if month == 9 {
        "September"@
    } else if month == 10 {
        "October"@
    } else if month == 11 {
        "November"@
    } else if month == 12 {
        "December"@
    } else {
        Seq::empty()
    }
}

/// The date as `January 15, 2024`; empty where the fields of the date are
/// out of range.
pub open spec fn long_date(d: PublishDate) -> Seq<char> {
    if d.well_formed() {
        month_name(d.month as int) + seq![' '] + two_digits(d.day as int) + seq![',', ' ']
            + four_digits(d.year as int)
    } else {
        Seq::empty()
    }
}

/// The date as `January 15, 2024`.
pub fn format_long_date(d: &PublishDate) -> (r: String)
    ensures
        r@ == long_date(*d),
{
    if !d.is_well_formed() {
        return String::new();
    }
    let mut out: Vec<char> = Vec::new();
    let name = if d.month == 1 {
        "January"
    } else if d.month == 2 {
        "February"
    } else if d.month == 3 {
        "March"
    } else if d.month == 4 {
        "April"
    } else if d.month == 5 {
        "May"
    } else if d.month == 6 {
        "June"
    } else if d.month == 7 {
        "July"
    } else if d.month == 8 {
        "August"
    } else if d.month == 9 {
        "September"
    } else if d.month == 10 {
        "October"
    } else if d.month == 11 {
        "November"
    } else {
        "December"
    };
    push_str(&mut out, name);
    assert(out@ == month_name(d.month as int)) by {
        assert(forall|t: Seq<char>| Seq::<char>::empty() + t =~= t);
    }
    out.push(' ');
    push_two_digits(&mut out, d.day);
    out.push(',');
    out.push(' ');
    push_four_digits(&mut out, d.year as u16);
    assert(out@ =~= long_date(*d));
    string_of(out.as_slice())
}

/// The path of a page from the output directory; the whole path where the
/// page does not lie below the output directory.
pub open spec fn page_filename(output_path: Seq<char>, output_dir: Seq<char>) -> Seq<char> {
    match strip_prefix(path_view(output_path), path_view(output_dir)) {
        Some(rest) => path_text(rest),
        None => output_path,
    }
}

/// A page as an index shows it.
#[derive(Debug)]
pub struct ContentItem<'a> {
    /// The page itself: its HTML, its metadata and its content type.
    pub page: &'a LoadedContent,
    /// The date of publication, written out.
    pub formatted_date: String,
    /// The path of the page from the output directory.
    pub filename: String,
    /// The excerpt of the page as HTML.
    pub excerpt: String,
}

impl<'a> ContentItem<'a> {
    /// The item shows `page` as the configuration `config` has it shown.
    pub open spec fn shows(&self, config: Config, page: LoadedContent) -> bool {
        &&& *self.page == page
        &&& self.formatted_date@ == long_date(page.content.meta.date)
        &&& self.filename@ == page_filename(page.output_path@, config.site.output_dir@)
        &&& self.excerpt@ == excerpt_html(
            page.content.data@,
            summary_pattern(),
            config.site.allow_dangerous_html,
        )
    }
}

/// The item for one page.
pub fn content_item<'a>(config: &Config, page: &'a LoadedContent) -> (item: ContentItem<'a>)
    ensures
        item.shows(*config, *page),
{
    let path = SitePath::from_text(page.output_path.as_str());
    let base = SitePath::from_text(config.site.output_dir.as_str());
    let filename = match path.strip_prefix(&base) {
        Some(rest) => rest.to_text(),
        None => page.output_path.clone(),
    };
    ContentItem {
        page,
        formatted_date: format_long_date(&page.content.meta.date),
        filename,
        excerpt: get_excerpt_html(
            page.content.data.as_str(),
            "## Context",
            config.site.allow_dangerous_html,
        ),
    }
}

/// `page` belongs on the index for `content_type`: every page does where no
/// type is given.
pub open spec fn on_index(page: LoadedContent, content_type: Option<Seq<char>>) -> bool {
    match content_type {
        Some(t) => page.content_type@ == t,
        None => true,
    }
}

/// The indexes of the pages that belong on the index for `content_type`, in
/// the order of `pages`.
pub open spec fn index_members(pages: Seq<LoadedContent>, content_type: Option<Seq<char>>) -> Seq<int>
    decreases pages.len(),
{
    if pages.len() == 0 {
        Seq::empty()
    } else if on_index(pages.last(), content_type) {
        index_members(pages.drop_last(), content_type).push(pages.len() - 1)
    } else {
        index_members(pages.drop_last(), content_type)
    }
}

/// The indexes of the pages of an index, newest first.
pub open spec fn index_order(pages: Seq<LoadedContent>, content_type: Option<Seq<char>>) -> Seq<int> {
    let members = index_members(pages, content_type);
    newest_first(crate::rss::dates_at(pages, members)).map_values(|k: int| members[k])
}

/// The members of an index are indexes of pages of its type, each once and in rising order.
pub proof fn lemma_index_members(pages: Seq<LoadedContent>, content_type: Option<Seq<char>>)
    ensures
        forall|k: int|
            0 <= k < index_members(pages, content_type).len() ==> 0 <= #[trigger] index_members(
                pages,
                content_type,
            )[k] < pages.len() && on_index(
                pages[index_members(pages, content_type)[k]],
                content_type,
            ),
        forall|i: int|
            0 <= i < pages.len() && on_index(#[trigger] pages[i], content_type) ==> index_members(
                pages,
                content_type,
            ).contains(i),
    decreases pages.len(),
{
    if pages.len() > 0 {
        let head = pages.drop_last();
        lemma_index_members(head, content_type);
        let before = index_members(head, content_type);
        let all = index_members(pages, content_type);
        assert forall|k: int| 0 <= k < all.len() implies 0 <= #[trigger] all[k] < pages.len()
            && on_index(pages[all[k]], content_type) by {
            if k < before.len() {
                assert(all[k] == before[k]);
                assert(head[before[k]] == pages[before[k]]);
            }
        }
        assert forall|i: int| 0 <= i < pages.len() && on_index(
            #[trigger] pages[i],
            content_type,
        ) implies all.contains(i) by {
            if i < head.len() {
                assert(head[i] == pages[i]);
                assert(before.contains(i));
                let k = choose|k: int| 0 <= k < before.len() && before[k] == i;
                assert(all[k] == i);
            } else {
                assert(all[all.len() - 1] == i);
            }
        }
    }
}

/// The pages that the index for `content_type` shows, newest first; the
/// index of the whole site, given no type, shows every page.
pub fn index_items<'a>(
    config: &Config,
    loaded_contents: &'a Vec<LoadedContent>,
    content_type: Option<&str>,
) -> (items: Vec<ContentItem<'a>>)
    ensures
        items@.len() == index_order(
            loaded_contents@,
            crate::syntax::option_view(content_type),
        ).len(),
        forall|k: int|
            0 <= k < items@.len() ==> {
                let i = index_order(loaded_contents@, crate::syntax::option_view(content_type))[k];
                0 <= i < loaded_contents@.len() && (#[trigger] items@[k]).shows(
                    *config,
                    loaded_contents@[i],
                )
            },
{
    let ghost kind = crate::syntax::option_view(content_type);
    let mut members: Vec<usize> = Vec::new();
    let mut dates: Vec<PublishDate> = Vec::new();
    let mut i: usize = 0;
    assert(as_ints(members@) =~= index_members(loaded_contents@.take(0), kind));
    assert(dates@ =~= crate::rss::dates_at(loaded_contents@, as_ints(members@)));
    while i < loaded_contents.len()
        invariant
            i <= loaded_contents.len(),
            kind == crate::syntax::option_view(content_type),
            as_ints(members@) == index_members(loaded_contents@.take(i as int), kind),
            dates@ == crate::rss::dates_at(loaded_contents@, as_ints(members@)),
        decreases loaded_contents.len() - i,
    {
        let ghost upto = loaded_contents@.take(i + 1);
        assert(upto.drop_last() == loaded_contents@.take(i as int));
        assert(upto.last() == loaded_contents[i as int]);
        let belongs = match content_type {
            Some(t) => str_eq(loaded_contents[i].content_type.as_str(), t),
            None => true,
        };
        if belongs {
            let ghost before = as_ints(members@);
            members.push(i);
            dates.push(loaded_contents[i].content.meta.date);
            assert(as_ints(members@) =~= before.push(i as int));
            assert(dates@ =~= crate::rss::dates_at(loaded_contents@, as_ints(members@)));
        }
        i += 1;
    }
    assert(loaded_contents@.take(i as int) == loaded_contents@);
    let ghost member_ints = as_ints(members@);
    proof {
        lemma_index_members(loaded_contents@, kind);
    }
    let order = order_newest_first(&dates);
    let ghost full = index_order(loaded_contents@, kind);
    let mut items: Vec<ContentItem<'a>> = Vec::new();
    let mut k: usize = 0;
    while k < order.len()
        invariant
            k <= order.len(),
            order.len() == members.len(),
            full == index_order(loaded_contents@, kind),
            full.len() == order.len(),
            member_ints == as_ints(members@),
            member_ints == index_members(loaded_contents@, kind),
            dates@ == crate::rss::dates_at(loaded_contents@, member_ints),
            as_ints(order@) == newest_first(dates@),
            is_newest_first(dates@, as_ints(order@)),
            forall|j: int|
                0 <= j < member_ints.len() ==> 0 <= #[trigger] member_ints[j]
                    < loaded_contents.len(),
            items@.len() == k,
            forall|j: int|
                0 <= j < k ==> 0 <= full[j] < loaded_contents@.len() && (#[trigger] items@[j]).shows(
                    *config,
                    loaded_contents@[full[j]],
                ),
        decreases order.len() - k,
    {
        assert(as_ints(order@)[k as int] == order[k as int]);
        let m = order[k];
        assert(0 <= m < members.len());
        assert(member_ints[m as int] == members[m as int]);
        let index = members[m];
        assert(full[k as int] == index);
        let item = content_item(config, &loaded_contents[index]);
        items.push(item);
        k += 1;
    }
    items
}

} // verus!
