//! Recognition of North-American phone numbers, with or without an
//! international prefix, proved against a grammar stated in spec functions.
pub mod pattern;
pub mod phone;

pub use phone::{verify_phone_number_with_country_code, verify_phone_number_without_country_code};
