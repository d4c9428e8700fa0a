use room_finder::location::{check_address, first_found, LocationError};

#[test]
fn empty_address_is_refused() {
    assert_eq!(check_address(""), Err(LocationError::EmptyAddress));
    assert_eq!(check_address("Zurich"), Ok(()));
    assert_eq!(LocationError::EmptyAddress.message(), "Empty address");
}

#[test]
fn first_place_is_the_location() {
    assert_eq!(first_found("Zurich", vec![(1, 2), (3, 4)]), Ok((1, 2)));
    let missing: Result<(i32, i32), _> = first_found("Nowhere 1", Vec::new());
    assert_eq!(missing, Err(LocationError::NotFound("Nowhere 1".to_string())));
    assert_eq!(missing.unwrap_err().message(), "Nowhere 1");
}
