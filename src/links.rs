use vstd::prelude::*;

use crate::html::{opt_views, select_attrs, selected_attrs, views};
use crate::text::{occurs_at, occurs_here};

verus! {

/// Selects the anchors inside the directory's page-navigation list.
pub const PAGER_ANCHORS: &'static str = "ul[class=\"pager lfr-pagination-buttons\"] a";

/// Selects the anchors that lead to a member's detail page.
pub const MEMBER_ANCHORS: &'static str = "a[class=\"lm\"]";

/// A link is followed only when it is absolute: it starts with `http://` or
/// `https://`.
pub open spec fn is_absolute(h: Seq<char>) -> bool {
    occurs_at(h, seq!['h', 't', 't', 'p', ':', '/', '/'], 0)
        || occurs_at(h, seq!['h', 't', 't', 'p', 's', ':', '/', '/'], 0)
}

/// The absolute links among `hrefs`, in their order; an element without the
/// attribute yields nothing.
pub open spec fn absolute_links(hrefs: Seq<Option<Seq<char>>>) -> Seq<Seq<char>>
    decreases hrefs.len(),
{
    if hrefs.len() == 0 {
        Seq::empty()
    } else {
        let rest = absolute_links(hrefs.drop_last());
        match hrefs.last() {
            Some(h) => if is_absolute(h) {
                rest.push(h)
            } else {
                rest
            },
            None => rest,
        }
    }
}

/// The links that a page yields for one selector: nothing where the selector
/// does not parse.
pub open spec fn links_for(html: Seq<char>, selector: Seq<char>) -> Seq<Seq<char>> {
    match selected_attrs(html, selector, seq!['h', 'r', 'e', 'f']) {
        Some(hrefs) => absolute_links(hrefs),
        None => Seq::empty(),
    }
}

fn absolute(h: &str) -> (r: bool)
    ensures
        r == is_absolute(h@),
{
    let len = h.unicode_len();
    let http = "http://";
    let https = "https://";
    proof {
        reveal_strlit("http://");
        reveal_strlit("https://");
        assert(http@ =~= seq!['h', 't', 't', 'p', ':', '/', '/']);
        assert(https@ =~= seq!['h', 't', 't', 'p', 's', ':', '/', '/']);
    }
    occurs_here(h, len, http, http.unicode_len(), 0) || occurs_here(h, len, https, https.unicode_len(), 0)
}

/// Keeps the absolute links among the attribute values, in their order.
pub fn keep_absolute(hrefs: &Vec<Option<String>>) -> (r: Vec<String>)
    ensures
        views(r@) == absolute_links(opt_views(hrefs@)),
{
    let mut r: Vec<String> = Vec::new();
    let mut i: usize = 0;
    while i < hrefs.len()
        invariant
            i <= hrefs@.len(),
            views(r@) == absolute_links(opt_views(hrefs@.take(i as int))),
        decreases hrefs@.len() - i,
    {
        proof {
            assert(opt_views(hrefs@.take(i + 1)).drop_last() =~= opt_views(hrefs@.take(i as int)));
        }
        match &hrefs[i] {
            Some(h) => {
                if absolute(h.as_str()) {
                    r.push(h.clone());
                    assert(views(r@) =~= views(r@.drop_last()).push(h@));
                }
            },
            None => {},
        }
        i = i + 1;
    }
    assert(hrefs@.take(i as int) =~= hrefs@);
    r
}

fn links_of(body: &str, selector: &str) -> (r: Vec<String>)
    ensures
        views(r@) == links_for(body@, selector@),
{
    let href = "href";
    proof {
        reveal_strlit("href");
        assert(href@ =~= seq!['h', 'r', 'e', 'f']);
    }
    match select_attrs(body, selector, href) {
        Some(hrefs) => keep_absolute(&hrefs),
        None => {
            let r: Vec<String> = Vec::new();
            assert(views(r@) =~= Seq::empty());
            r
        },
    }
}

/// The absolute links of a page's navigation list, in document order,
/// duplicates kept.
pub fn extract_pagination_links(body: &str) -> (r: Vec<String>)
    ensures
        views(r@) == links_for(body@, PAGER_ANCHORS@),
{
    links_of(body, PAGER_ANCHORS)
}

/// The absolute links to members' detail pages anywhere in a page, in
/// document order, duplicates kept.
pub fn extract_enterprise_links(body: &str) -> (r: Vec<String>)
    ensures
        views(r@) == links_for(body@, MEMBER_ANCHORS@),
{
    links_of(body, MEMBER_ANCHORS)
}

} // verus!
