pub mod text;
pub mod rooms;
pub mod form;
pub mod goals;
pub mod location;
pub mod listing;
pub mod limiter;
pub mod urls;
