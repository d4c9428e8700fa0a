use room_finder::goals::{Goal, Time, Trip};

#[test]
fn times_parse_as_hours_and_minutes() {
    let t = Time::parse("07:30").unwrap();
    assert_eq!(t, Time { hour: 7, minute: 30, second: 0 });
    let t = Time::parse("23:59").unwrap();
    assert_eq!((t.hour, t.minute), (23, 59));
    assert!(Time::parse("24:00").is_err());
    assert!(Time::parse("12:60").is_err());
    assert!(Time::parse("noon").is_err());
    assert!(Time::parse("12:30:15").is_err());
}

#[test]
fn goals_deref_to_their_address() {
    let g = Goal {
        address: "ETH Zentrum".to_string(),
        trips: vec![Trip::To(Time::parse("08:00").unwrap()), Trip::From(Time::parse("18:15").unwrap())],
    };
    assert_eq!(g.as_str(), "ETH Zentrum");
    assert_eq!(g.trips[1], Trip::From(Time { hour: 18, minute: 15, second: 0 }));
}
