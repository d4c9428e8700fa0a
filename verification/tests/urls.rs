use room_finder::urls::{host_of, route_url, ROUTE_BASE};

#[test]
fn route_url_joins_coordinates_with_semicolons() {
    let coordinates = vec!["8.5417,47.3769".to_string(), "8.5500,47.3667".to_string()];
    assert_eq!(
        route_url(&coordinates).unwrap(),
        "http://router.project-osrm.org/route/v1/driving/8.5417,47.3769;8.5500,47.3667"
    );
}

#[test]
fn route_url_of_no_coordinates_is_the_base() {
    assert_eq!(route_url(&Vec::new()).unwrap(), ROUTE_BASE);
}

#[test]
fn host_of_reads_the_host() {
    assert_eq!(host_of("https://nominatim.openstreetmap.org/search?q=x"), "nominatim.openstreetmap.org");
    assert_eq!(host_of("http://router.project-osrm.org/route"), "router.project-osrm.org");
    assert_eq!(host_of("data:text/plain,hi"), "");
    assert_eq!(host_of("no url at all"), "");
}
