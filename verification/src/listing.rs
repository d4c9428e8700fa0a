use vstd::prelude::*;
use kuchiki::traits::TendrilSink;

use crate::text::{join, join_strings, views};
use crate::urls::opt_view;

verus! {

/// For each element of the HTML document `html` that the CSS selector `selector` matches, in
/// document order, its attribute `attribute` where it has one; `None` where the selector
/// does not parse.
pub uninterp spec fn selected_attributes(
    html: Seq<char>,
    selector: Seq<char>,
    attribute: Seq<char>,
) -> Option<Seq<Option<Seq<char>>>>;

/// The views of a list of optional strings.
pub open spec fn opt_views(v: Seq<Option<String>>) -> Seq<Option<Seq<char>>> {
    v.map_values(|o: Option<String>| opt_view(o))
}

/// Parses `html` with `kuchiki::parse_html`, selects the elements that `selector` matches
/// with `NodeRef::select`, and reads the attribute `attribute` of each with
/// `Attributes::get`. Claims that the outcome is `selected_attributes` of the arguments.
#[verifier::external_body]
fn select_attribute(html: &str, selector: &str, attribute: &str) -> (r: Result<Vec<Option<String>>, ()>)
    ensures
        match r {
            Ok(v) => selected_attributes(html@, selector@, attribute@) == Some(opt_views(v@)),
            Err(_) => selected_attributes(html@, selector@, attribute@) is None,
        },
{
    let document = kuchiki::parse_html().one(html);
    let selected = document.select(selector)?;
    Ok(selected.map(|a| a.attributes.borrow().get(attribute).map(String::from)).collect())
}

/// The selector of the links to the rooms on a page of search results.
pub const LISTING_SELECTOR: &'static str = "html body #main #container #content ul li a:nth-of-type(2)";

/// The links of the rooms on the page of search results `html`, one for each matched
/// element; `None` where the selector does not apply.
pub open spec fn listing_links(html: Seq<char>) -> Option<Seq<Option<Seq<char>>>> {
    selected_attributes(
        html,
        "html body #main #container #content ul li a:nth-of-type(2)"@,
        "href"@,
    )
}

/// The links are read from the `href` of the second link of each list item inside the results
/// container `#main #container #content`, and nowhere else: the selector that the search
/// passes to the parser is `LISTING_SELECTOR`, which is exactly that.
pub proof fn lemma_listing_reads_results_container(html: Seq<char>)
    ensures
        LISTING_SELECTOR@ == "html body #main #container #content ul li a:nth-of-type(2)"@,
        listing_links(html) == selected_attributes(html, LISTING_SELECTOR@, "href"@),
        listing_links(html) == selected_attributes(
            html,
            "html body #main #container #content ul li a:nth-of-type(2)"@,
            "href"@,
        ),
{
}

/// Every matched element has a link.
pub open spec fn links_complete(html: Seq<char>) -> bool {
    listing_links(html) matches Some(v) && forall|i: int| 0 <= i < v.len() ==> v[i] is Some
}

/// The links of a complete listing.
pub open spec fn link_texts(html: Seq<char>) -> Seq<Seq<char>> {
    listing_links(html).unwrap().map_values(|o: Option<Seq<char>>| o.unwrap())
}

/// The view of the separator between the links of the listing.
pub open spec fn line_separator() -> Seq<char> {
    "\n"@
}

/// The outcome of the search: the links of the rooms, one per line.
#[derive(Debug, PartialEq, Eq)]
pub enum SearchError {
    Listing(String),
}

/// Reads the links of the rooms from the page of search results `html` and hands them back,
/// one per line, as the error of the search: the page itself is not kept.
pub fn search(html: &str) -> (r: Result<Vec<u8>, SearchError>)
    requires
        links_complete(html@),
    ensures
        r matches Err(SearchError::Listing(m)) && m@ == join(link_texts(html@), line_separator()),
{
    let links = match select_attribute(html, LISTING_SELECTOR, "href") {
        Ok(v) => v,
        Err(_) => Vec::new(),
    };
    let mut hrefs: Vec<String> = Vec::new();
    let n = links.len();
    let mut i: usize = 0;
    while i < n
        invariant
            n == links@.len(),
            i <= n,
            listing_links(html@) == Some(opt_views(links@)),
            links_complete(html@),
            views(hrefs@) == link_texts(html@).take(i as int),
        decreases n - i,
    {
        assert(opt_views(links@)[i as int] is Some);
        match &links[i] {
            Some(h) => {
                let ghost before = hrefs@;
                hrefs.push(h.clone());
                assert(opt_views(links@)[i as int] == Some(h@));
                assert(link_texts(html@)[i as int] == h@);
                assert(views(hrefs@) =~= views(before).push(h@));
            },
            None => {},
        }
        assert(views(hrefs@) =~= link_texts(html@).take(i + 1));
        i = i + 1;
    }
    assert(link_texts(html@).take(n as int) =~= link_texts(html@));
    Err(SearchError::Listing(join_strings(&hrefs, "\n")))
}

/// As `search`, but hands back `None` where the selector does not apply to the page or a
/// matched element has no link.
pub fn try_search(html: &str) -> (r: Option<Result<Vec<u8>, SearchError>>)
    ensures
        r is Some <==> links_complete(html@),
        r matches Some(res) ==> (res matches Err(SearchError::Listing(m)) && m@ == join(
            link_texts(html@),
            line_separator(),
        )),
{
    match select_attribute(html, LISTING_SELECTOR, "href") {
        Ok(links) => {
            let n = links.len();
            let mut i: usize = 0;
            while i < n
                invariant
                    n == links@.len(),
                    i <= n,
                    listing_links(html@) == Some(opt_views(links@)),
                    forall|j: int| 0 <= j < i ==> (#[trigger] opt_views(links@)[j]) is Some,
                decreases n - i,
            {
                if links[i].is_none() {
                    assert(opt_views(links@)[i as int] is None);
                    return None;
                }
                i = i + 1;
            }
            Some(search(html))
        },
        Err(_) => None,
    }
}

} // verus!
