use room_finder::rooms::{cheapest_listed, room_less, room_links, Room};

fn room(cost: u16, address: &str, href: Option<&str>) -> Room {
    Room { cost, address: address.to_string(), href: href.map(|h| h.to_string()) }
}

#[test]
fn display_right_aligns_the_cost() {
    assert_eq!(room(850, "Bahnhofstrasse 1", None).display(), " 850 Bahnhofstrasse 1");
    assert_eq!(room(5, "X", None).display(), "   5 X");
    assert_eq!(room(1200, "Y", None).display(), "1200 Y");
    assert_eq!(room(12000, "Z", None).display(), "12000 Z");
}

#[test]
fn url_resolves_the_link() {
    let r = room(700, "Somewhere 3", Some("/en/wgzimmer/rooms/123.html"));
    assert_eq!(
        r.url("https://www.wgzimmer.ch/en/wgzimmer/search/mate.html").as_deref(),
        Some("https://www.wgzimmer.ch/en/wgzimmer/rooms/123.html")
    );
    let relative = room(700, "Somewhere 3", Some("other.html"));
    assert_eq!(
        relative.url("https://www.wgzimmer.ch/en/list/").as_deref(),
        Some("https://www.wgzimmer.ch/en/list/other.html")
    );
    assert_eq!(room(700, "No link", None).url("https://www.wgzimmer.ch/"), None);
    assert_eq!(r.url("not a base"), None);
}

#[test]
fn room_order_is_cost_then_address_then_link() {
    let a = room(500, "B", None);
    let b = room(600, "A", None);
    let c = room(600, "B", None);
    let d = room(600, "B", Some("x"));
    let e = room(600, "B", Some("y"));
    let all = [&a, &b, &c, &d, &e];
    for (i, x) in all.iter().enumerate() {
        for (j, y) in all.iter().enumerate() {
            assert_eq!(room_less(x, y), i < j);
            assert_eq!(room_less(x, y), x < y);
        }
    }
}

#[test]
fn cheapest_listed_sorts_filters_and_takes() {
    let rooms = vec![
        room(900, "D", None),
        room(400, "", Some("no-address")),
        room(700, "C", None),
        room(700, "B", Some("b")),
        room(1200, "E", None),
        room(650, "A", None),
    ];
    let shown = cheapest_listed(&rooms, 3);
    assert_eq!(shown, vec![room(650, "A", None), room(700, "B", Some("b")), room(700, "C", None)]);
}

#[test]
fn cheapest_listed_with_few_rooms_takes_all_listed() {
    let rooms = vec![room(300, "", None), room(900, "Z", None), room(800, "Y", None)];
    assert_eq!(cheapest_listed(&rooms, 3), vec![room(800, "Y", None), room(900, "Z", None)]);
    assert_eq!(cheapest_listed(&Vec::new(), 3), Vec::<Room>::new());
    assert_eq!(cheapest_listed(&rooms, 0), Vec::<Room>::new());
}

#[test]
fn cheapest_listed_keeps_duplicates() {
    let rooms = vec![room(500, "A", None), room(500, "A", None), room(400, "B", None)];
    assert_eq!(
        cheapest_listed(&rooms, 3),
        vec![room(400, "B", None), room(500, "A", None), room(500, "A", None)]
    );
}

#[test]
fn room_derefs_to_its_address() {
    let r = room(500, "Langstrasse 10", None);
    assert_eq!(r.len(), 14);
    assert!(r.starts_with("Lang"));
}

#[test]
fn room_links_skip_rooms_without_a_link() {
    let rooms = vec![
        room(500, "A", Some("/en/room/a.html")),
        room(600, "B", None),
        room(700, "C", Some("c.html")),
    ];
    assert_eq!(
        room_links(&rooms, "https://www.wgzimmer.ch/en/"),
        vec![
            "https://www.wgzimmer.ch/en/room/a.html".to_string(),
            "https://www.wgzimmer.ch/en/c.html".to_string()
        ]
    );
    assert_eq!(room_links(&rooms, "relative/base"), Vec::<String>::new());
}
