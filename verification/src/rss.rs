//! The RSS feed: one item for each page of a content type that is not kept
//! out of it, newest first.

use vstd::prelude::*;
use crate::config::Config;
use crate::content::{excerpt_html, get_excerpt_html, LoadedContent};
use crate::date::{format_rfc2822, rfc2822_or_empty, PublishDate};
use crate::sitemap::{base_url, page_address, page_url_path};
use crate::sort::{as_ints, is_newest_first, newest_first, order_newest_first};
use crate::text::{chars_of, push_chars, push_str, string_of};

verus! {

/// What stands for `c` in XML text.
pub open spec fn escaped_char(c: char) -> Seq<char> {
    if c == '&' {
        "&amp;"@
    } else if c == '<' {
        "&lt;"@
    } else if c == '>' {
        "&gt;"@
    } else if c == '"' {
        "&quot;"@
    } else if c == '\'' {
        "&apos;"@
    } else {
        seq![c]
    }
}

/// `s` with the five characters that XML reserves replaced by their entities.
pub open spec fn escaped(s: Seq<char>) -> Seq<char>
    decreases s.len(),
{
    if s.len() == 0 {
        Seq::empty()
    } else {
        escaped(s.drop_last()) + escaped_char(s.last())
    }
}

/// Appends `s` to `out`, escaped for XML.
pub fn push_escaped(out: &mut Vec<char>, s: &str)
    ensures
        final(out)@ == old(out)@ + escaped(s@),
{
    let ghost before = out@;
    let chars = chars_of(s);
    let mut i: usize = 0;
    assert(out@ == before + escaped(chars@.take(0))) by {
        assert(forall|t: Seq<char>| t + Seq::<char>::empty() =~= t);
    }
    while i < chars.len()
        invariant
            i <= chars.len(),
            out@ == before + escaped(chars@.take(i as int)),
        decreases chars.len() - i,
    {
        let ghost upto = chars@.take(i + 1);
        assert(upto.drop_last() == chars@.take(i as int));
        assert(upto.last() == chars[i as int]);
        let ghost so_far = out@;
        let c = chars[i];
        if c == '&' {
            push_str(out, "&amp;");
        } else if c == '<' {
            push_str(out, "&lt;");
        } else if c == '>' {
            push_str(out, "&gt;");
        } else if c == '"' {
            push_str(out, "&quot;");
        } else if c == '\'' {
            push_str(out, "&apos;");
        } else {
            out.push(c);
        }
        assert(out@ =~= so_far + escaped_char(c));
        assert(out@ =~= before + (escaped(upto.drop_last()) + escaped_char(c)));
        i += 1;
    }
    assert(chars@.take(i as int) == chars@);
}

/// `s` with `&`, `<`, `>`, `"` and `'` replaced by their XML entities.
pub fn xml_escape(s: &str) -> (r: String)
    ensures
        r@ == escaped(s@),
{
    let mut out: Vec<char> = Vec::new();
    push_escaped(&mut out, s);
    assert(forall|t: Seq<char>| Seq::<char>::empty() + t =~= t);
    string_of(out.as_slice())
}

/// Pages of `content_type` go into the feed: they do unless the type is
/// declared and says otherwise.
pub open spec fn in_feed(config: Config, content_type: Seq<char>) -> bool {
    match config.settings_of(content_type) {
        Some(c) => match c.rss_include {
            Some(b) => b,
            None => true,
        },
        None => true,
    }
}

/// Whether pages of `content_type` go into the feed.
pub fn should_include_in_rss(config: &Config, content_type: &str) -> (r: bool)
    ensures
        r == in_feed(*config, content_type@),
{
    match config.find_content_type(content_type) {
        Some(c) => match c.rss_include {
            Some(b) => b,
            None => true,
        },
        None => true,
    }
}

/// The pattern that opens the excerpt of a body.
pub open spec fn summary_pattern() -> Seq<char> {
    "## Context"@
}

/// The address of a page in the feed.
pub open spec fn item_url(config: Config, page: LoadedContent) -> Seq<char> {
    base_url(config) + seq!['/'] + page_address(
        page.output_path@,
        config.site.output_dir@,
        config.site.clean_urls,
    )
}

/// The description of an item: the excerpt of the page, where it has one.
pub open spec fn item_description(config: Config, page: LoadedContent) -> Seq<char> {
    let excerpt = excerpt_html(page.content.data@, summary_pattern(), config.site.allow_dangerous_html);
    if excerpt.len() > 0 {
        "      <description>"@ + escaped(excerpt) + "</description>\n"@
    } else {
        Seq::empty()
    }
}

/// One item of the feed.
pub open spec fn item_text(config: Config, page: LoadedContent) -> Seq<char> {
    "    <item>\n      <title>"@ + escaped(page.content.meta.title@) + "</title>\n      <link>"@
        + item_url(config, page) + "</link>\n      <guid>"@ + item_url(config, page)
        + "</guid>\n"@ + item_description(config, page) + "      <author>"@ + escaped(
        page.content.meta.author@,
    ) + "</author>\n      <pubDate>"@ + rfc2822_or_empty(page.content.meta.date)
        + "</pubDate>\n    </item>\n"@
}

/// Appends one item of the feed to `out`.
pub fn push_item(out: &mut Vec<char>, config: &Config, page: &LoadedContent)
    ensures
        final(out)@ == old(out)@ + item_text(*config, *page),
{
    let ghost before = out@;
    let mut url: Vec<char> = Vec::new();
    push_str(&mut url, "https://");
    push_str(&mut url, config.site.domain.as_str());
    url.push('/');
    let address = page_url_path(
        page.output_path.as_str(),
        config.site.output_dir.as_str(),
        config.site.clean_urls,
    );
    push_chars(&mut url, address.as_slice());
    assert(url@ =~= item_url(*config, *page));
    let mut item: Vec<char> = Vec::new();
    push_str(&mut item, "    <item>\n      <title>");
    push_escaped(&mut item, page.content.meta.title.as_str());
    push_str(&mut item, "</title>\n      <link>");
    push_chars(&mut item, url.as_slice());
    push_str(&mut item, "</link>\n      <guid>");
    push_chars(&mut item, url.as_slice());
    push_str(&mut item, "</guid>\n");
    let excerpt = get_excerpt_html(
        page.content.data.as_str(),
        "## Context",
        config.site.allow_dangerous_html,
    );
    let ghost described = item@;
    if excerpt.as_str().unicode_len() > 0 {
        push_str(&mut item, "      <description>");
        push_escaped(&mut item, excerpt.as_str());
        push_str(&mut item, "</description>\n");
    }
    assert(item@ =~= described + item_description(*config, *page));
    push_str(&mut item, "      <author>");
    push_escaped(&mut item, page.content.meta.author.as_str());
    push_str(&mut item, "</author>\n      <pubDate>");
    let published = format_rfc2822(&page.content.meta.date);
    push_str(&mut item, published.as_str());
    push_str(&mut item, "</pubDate>\n    </item>\n");
    assert(item@ =~= item_text(*config, *page));
    push_chars(out, item.as_slice());
}

/// One item of the feed: title, address, excerpt, author and the time of
/// publication in RFC 2822 form.
pub fn format_item(config: &Config, content: &LoadedContent) -> (r: String)
    ensures
        r@ == item_text(*config, *content),
{
    let mut out: Vec<char> = Vec::new();
    push_item(&mut out, config, content);
    assert(forall|t: Seq<char>| Seq::<char>::empty() + t =~= t);
    string_of(out.as_slice())
}

/// The indexes of the pages that go into the feed, in the order of `pages`.
pub open spec fn feed_members(config: Config, pages: Seq<LoadedContent>) -> Seq<int>
    decreases pages.len(),
{
    if pages.len() == 0 {
        Seq::empty()
    } else if in_feed(config, pages.last().content_type@) {
        feed_members(config, pages.drop_last()).push(pages.len() - 1)
    } else {
        feed_members(config, pages.drop_last())
    }
}

/// The dates of the pages at `members`.
pub open spec fn dates_at(pages: Seq<LoadedContent>, members: Seq<int>) -> Seq<PublishDate> {
    members.map_values(|i: int| pages[i].content.meta.date)
}

/// The indexes of the pages of the feed, newest first.
pub open spec fn feed_order(config: Config, pages: Seq<LoadedContent>) -> Seq<int> {
    let members = feed_members(config, pages);
    newest_first(dates_at(pages, members)).map_values(|k: int| members[k])
}

/// The items for the pages at `order`, in that order.
pub open spec fn items_text(config: Config, pages: Seq<LoadedContent>, order: Seq<int>) -> Seq<char>
    decreases order.len(),
{
    if order.len() == 0 {
        Seq::empty()
    } else {
        items_text(config, pages, order.drop_last()) + item_text(config, pages[order.last()])
    }
}

/// The lines of the feed that describe the site.
pub open spec fn feed_head(config: Config) -> Seq<char> {
    "<?xml version=\"1.0\" encoding=\"UTF-8\"?>\n<rss version=\"2.0\" xmlns:atom=\"http://www.w3.org/2005/Atom\">\n  <channel>\n    <title>"@
        + escaped(config.site.title@) + "</title>\n    <link>"@ + base_url(config)
        + "</link>\n    <description>"@ + escaped(config.site.tagline@)
        + "</description>\n    <language>en</language>\n    <managingEditor>"@ + escaped(
        config.site.author@,
    ) + "</managingEditor>\n    <atom:link href=\""@ + base_url(config)
        + "/feed.xml\" rel=\"self\" type=\"application/rss+xml\"/>\n"@
}

/// The feed of a site with the pages `pages`.
pub open spec fn rss_text(config: Config, pages: Seq<LoadedContent>) -> Seq<char> {
    feed_head(config) + items_text(config, pages, feed_order(config, pages))
        + "  </channel>\n</rss>\n"@
}

/// The members of the feed are indexes of pages.
pub proof fn lemma_feed_members(config: Config, pages: Seq<LoadedContent>)
    ensures
        forall|k: int|
            0 <= k < feed_members(config, pages).len() ==> 0 <= #[trigger] feed_members(
                config,
                pages,
            )[k] < pages.len(),
    decreases pages.len(),
{
    if pages.len() > 0 {
        lemma_feed_members(config, pages.drop_last());
        let head = feed_members(config, pages.drop_last());
        let all = feed_members(config, pages);
        assert forall|k: int| 0 <= k < all.len() implies 0 <= #[trigger] all[k] < pages.len() by {
            if k < head.len() {
                assert(all[k] == head[k]);
            }
        }
    }
}

/// The RSS 2.0 feed of the site: the pages whose content type is not kept
/// out of the feed, from the newest to the oldest.
pub fn generate_rss(config: &Config, loaded_contents: &Vec<LoadedContent>) -> (r: String)
    ensures
        r@ == rss_text(*config, loaded_contents@),
{
    let mut out: Vec<char> = Vec::new();
    push_str(
        &mut out,
        "<?xml version=\"1.0\" encoding=\"UTF-8\"?>\n<rss version=\"2.0\" xmlns:atom=\"http://www.w3.org/2005/Atom\">\n  <channel>\n    <title>",
    );
    assert(forall|t: Seq<char>| Seq::<char>::empty() + t =~= t);
    push_escaped(&mut out, config.site.title.as_str());
    push_str(&mut out, "</title>\n    <link>");
    push_str(&mut out, "https://");
    push_str(&mut out, config.site.domain.as_str());
    push_str(&mut out, "</link>\n    <description>");
    push_escaped(&mut out, config.site.tagline.as_str());
    push_str(&mut out, "</description>\n    <language>en</language>\n    <managingEditor>");
    push_escaped(&mut out, config.site.author.as_str());
    push_str(&mut out, "</managingEditor>\n    <atom:link href=\"");
    push_str(&mut out, "https://");
    push_str(&mut out, config.site.domain.as_str());
    push_str(&mut out, "/feed.xml\" rel=\"self\" type=\"application/rss+xml\"/>\n");
    assert(out@ =~= feed_head(*config));
    let mut members: Vec<usize> = Vec::new();
    let mut dates: Vec<PublishDate> = Vec::new();
    let mut i: usize = 0;
    assert(as_ints(members@) =~= feed_members(*config, loaded_contents@.take(0)));
    assert(dates@ =~= dates_at(loaded_contents@, as_ints(members@)));
    while i < loaded_contents.len()
        invariant
            i <= loaded_contents.len(),
            as_ints(members@) == feed_members(*config, loaded_contents@.take(i as int)),
            dates@ == dates_at(loaded_contents@, as_ints(members@)),
        decreases loaded_contents.len() - i,
    {
        let ghost upto = loaded_contents@.take(i + 1);
        assert(upto.drop_last() == loaded_contents@.take(i as int));
        assert(upto.last() == loaded_contents[i as int]);
        if should_include_in_rss(config, loaded_contents[i].content_type.as_str()) {
            let ghost before = as_ints(members@);
            members.push(i);
            dates.push(loaded_contents[i].content.meta.date);
            assert(as_ints(members@) =~= before.push(i as int));
            assert(dates@ =~= dates_at(loaded_contents@, as_ints(members@)));
        }
        i += 1;
    }
    assert(loaded_contents@.take(i as int) == loaded_contents@);
    let ghost member_ints = as_ints(members@);
    proof {
        lemma_feed_members(*config, loaded_contents@);
    }
    let order = order_newest_first(&dates);
    let ghost full = feed_order(*config, loaded_contents@);
    assert(full.len() == order.len());
    let ghost head = out@;
    let mut k: usize = 0;
    assert(out@ == head + items_text(*config, loaded_contents@, full.take(0))) by {
        assert(forall|t: Seq<char>| t + Seq::<char>::empty() =~= t);
    }
    while k < order.len()
        invariant
            k <= order.len(),
            order.len() == members.len(),
            full == feed_order(*config, loaded_contents@),
            full.len() == order.len(),
            member_ints == as_ints(members@),
            member_ints == feed_members(*config, loaded_contents@),
            dates@ == dates_at(loaded_contents@, member_ints),
            as_ints(order@) == newest_first(dates@),
            is_newest_first(dates@, as_ints(order@)),
            forall|j: int|
                0 <= j < member_ints.len() ==> 0 <= #[trigger] member_ints[j]
                    < loaded_contents.len(),
            out@ == head + items_text(*config, loaded_contents@, full.take(k as int)),
        decreases order.len() - k,
    {
        let ghost upto = full.take(k + 1);
        assert(upto.drop_last() == full.take(k as int));
        assert(as_ints(order@)[k as int] == order[k as int]);
        let m = order[k];
        assert(0 <= m < members.len());
        assert(member_ints[m as int] == members[m as int]);
        let index = members[m];
        assert(upto.last() == index);
        let ghost so_far = out@;
        push_item(&mut out, config, &loaded_contents[index]);
        assert(out@ =~= head + (items_text(*config, loaded_contents@, upto.drop_last()) + item_text(
            *config,
            loaded_contents[index as int],
        )));
        k += 1;
    }
    assert(full.take(k as int) == full);
    push_str(&mut out, "  </channel>\n</rss>\n");
    string_of(out.as_slice())
}

} // verus!
