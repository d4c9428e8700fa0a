use vstd::prelude::*;

verus! {

/// Why an address has no location.
#[derive(Debug, PartialEq, Eq)]
pub enum LocationError {
    /// The address is empty.
    EmptyAddress,
    /// The geocoder found no place for the address.
    NotFound(String),
}

impl LocationError {
    /// The text of the error: `Empty address`, or the address that was not found.
    pub fn message(&self) -> (r: String)
        ensures
            r@ == match self {
                LocationError::EmptyAddress => "Empty address"@,
                LocationError::NotFound(a) => a@,
            },
    {
        match self {
            LocationError::EmptyAddress => String::from_str("Empty address"),
            LocationError::NotFound(a) => a.clone(),
        }
    }
}

/// Refuses an empty address before it is looked up.
pub fn check_address(address: &str) -> (r: Result<(), LocationError>)
    ensures
        r is Ok <==> address@.len() > 0,
        r is Err ==> r == Err::<(), LocationError>(LocationError::EmptyAddress),
{
    if address.is_empty() {
        Err(LocationError::EmptyAddress)
    } else {
        Ok(())
    }
}

/// The location of `address`: the first of the places the geocoder `found` for it.
pub fn first_found<T>(address: &str, found: Vec<T>) -> (r: Result<T, LocationError>)
    ensures
        match r {
            Ok(place) => found@.len() > 0 && place == found@[0],
            Err(e) => found@.len() == 0 && (e matches LocationError::NotFound(a) && a@ == address@),
        },
{
    let mut found = found;
    if found.len() == 0 {
        Err(LocationError::NotFound(String::from_str(address)))
    } else {
        Ok(found.remove(0))
    }
}

} // verus!
