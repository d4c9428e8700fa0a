use room_finder::listing::{search, try_search, SearchError};

const PAGE: &str = r#"<html><body><div id="main"><div id="container"><div id="content">
<ul>
<li><a href="/fav/1">fav</a><a href="/en/room/1.html">Room 1</a></li>
<li><a href="/fav/2">fav</a><a href="/en/room/2.html">Room 2</a></li>
<li><a href="/fav/3">only one link</a></li>
</ul></div></div></div></body></html>"#;

#[test]
fn search_lists_the_second_link_of_each_entry() {
    assert_eq!(
        search(PAGE),
        Err(SearchError::Listing("/en/room/1.html\n/en/room/2.html".to_string()))
    );
    assert_eq!(
        try_search(PAGE),
        Some(Err(SearchError::Listing("/en/room/1.html\n/en/room/2.html".to_string())))
    );
}

#[test]
fn search_of_an_empty_page_lists_nothing() {
    assert_eq!(try_search("<html></html>"), Some(Err(SearchError::Listing(String::new()))));
}

#[test]
fn missing_link_is_reported_as_none() {
    let page = r#"<html><body><div id="main"><div id="container"><div id="content">
<ul><li><a href="/fav">fav</a><a name="x">no link</a></li></ul></div></div></div></body></html>"#;
    assert_eq!(try_search(page), None);
}
