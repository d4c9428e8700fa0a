use room_finder::form::{OderDirection, OrderBy, Permanent, Search, Student};

#[test]
fn test() {
    let search = Search { state: "zurich-stadt".to_string(), ..Default::default() };
    assert_eq!(
        search.to_query(),
        "query=&priceMin=0&priceMax=1500&state=zurich-stadt&permanent=all&student=none&orderBy=%40sortDate&orderDir=descending&startSearchMate=true&wgStartSearch=true&start=0"
    );
}

#[test]
fn default_search_matches_the_site_defaults() {
    let search = Search::default();
    assert_eq!(search.query, "");
    assert_eq!(search.priceMin, 0);
    assert_eq!(search.priceMax, 1500);
    assert_eq!(search.state, "");
    assert_eq!(search.permanent, Permanent::all);
    assert_eq!(search.student, Student::none);
    assert_eq!(search.orderBy, OrderBy::sortDate);
    assert_eq!(search.orderDir, OderDirection::descending);
    assert!(search.startSearchMate);
    assert!(search.wgStartSearch);
    assert_eq!(search.start, 0);
}

#[test]
fn form_fields_follow_the_field_order() {
    let search = Search { priceMax: 900, start: 20, wgStartSearch: false, ..Default::default() };
    let fields = search.form_fields();
    let names: Vec<&str> = fields.iter().map(|(k, _)| k.as_str()).collect();
    assert_eq!(
        names,
        vec![
            "query", "priceMin", "priceMax", "state", "permanent", "student", "orderBy",
            "orderDir", "startSearchMate", "wgStartSearch", "start"
        ]
    );
    assert_eq!(fields[2].1, "900");
    assert_eq!(fields[6].1, "@sortDate");
    assert_eq!(fields[9].1, "false");
    assert_eq!(fields[10].1, "20");
}

#[test]
fn query_escapes_spaces_and_reserved_characters() {
    let search = Search {
        query: "a b&c=d".to_string(),
        state: "zürich".to_string(),
        priceMin: 4294967295,
        ..Default::default()
    };
    let q = search.to_query();
    assert!(q.starts_with("query=a+b%26c%3Dd&priceMin=4294967295&priceMax=1500&state=z%C3%BCrich&"));
}
