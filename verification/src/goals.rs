use vstd::prelude::*;
use chrono::Timelike;

verus! {

/// The error of `chrono` when a text does not parse as a time.
#[verifier::external_type_specification]
#[verifier::external_body]
pub struct ExTimeParseError(chrono::ParseError);

/// The hour, minute and second of the time that `chrono::NaiveTime::parse_from_str` reads
/// from `input` in `format`, or `None` where it fails.
pub uninterp spec fn parsed_time(input: Seq<char>, format: Seq<char>) -> Option<(u32, u32, u32)>;

/// Calls `chrono::NaiveTime::parse_from_str` and hands back the hour, minute and second of
/// the time. Claims that the outcome is `parsed_time` of the arguments; as chrono documents,
/// that the hour is below 24 and the minute and second below 60 (`Timelike`), and that the
/// seconds are zero where the format `%H:%M` has none (`parse_from_str`).
#[verifier::external_body]
fn parse_time(input: &str, format: &str) -> (r: Result<(u32, u32, u32), chrono::ParseError>)
    ensures
        match r {
            Ok(t) => parsed_time(input@, format@) == Some(t) && t.0 < 24 && t.1 < 60 && t.2 < 60,
            Err(_) => parsed_time(input@, format@) is None,
        },
        r is Ok && format@ == "%H:%M"@ ==> r.unwrap().2 == 0,
{
    chrono::NaiveTime::parse_from_str(input, format).map(|t| (t.hour(), t.minute(), t.second()))
}

/// The format of the times of a trip: hours and minutes, `HH:MM`.
pub const TIME_FORMAT: &'static str = "%H:%M";

/// The view of `TIME_FORMAT`.
pub open spec fn time_format() -> Seq<char> {
    "%H:%M"@
}

/// A time of day.
#[derive(Debug, Clone, Copy, PartialEq, Eq, Structural, Hash)]
pub struct Time {
    pub hour: u32,
    pub minute: u32,
    pub second: u32,
}

impl Time {
    /// Reads a time written `HH:MM`.
    pub fn parse(text: &str) -> (r: Result<Time, chrono::ParseError>)
        ensures
            match r {
                Ok(t) => parsed_time(text@, time_format()) == Some((t.hour, t.minute, t.second))
                    && t.hour < 24 && t.minute < 60 && t.second == 0,
                Err(_) => parsed_time(text@, time_format()) is None,
            },
    {
        match parse_time(text, TIME_FORMAT) {
            Ok((hour, minute, second)) => Ok(Time { hour, minute, second }),
            Err(e) => Err(e),
        }
    }
}

/// A trip to a goal: leaving from it at a time, or arriving at it by a time.
#[derive(Debug, Clone, Copy, PartialEq, Eq, Structural, Hash)]
pub enum Trip {
    From(Time),
    To(Time),
}

/// A place that a room should be near, with the trips made to it.
#[derive(Debug)]
pub struct Goal {
    pub address: String,
    pub trips: Vec<Trip>,
}

impl core::ops::Deref for Goal {
    type Target = String;

    fn deref(&self) -> (r: &String)
        ensures
            *r == self.address,
    {
        &self.address
    }
}

} // verus!
