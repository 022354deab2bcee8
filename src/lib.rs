//! Turns the answers of a weather provider, a time-zone provider and a
//! sunrise provider into the records and envelopes that the service returns.
//!
//! The providers' JSON reaches the library as a `json::JsonValue`; the
//! modules below read it against the schema each provider promises, build
//! the addresses at which the providers are asked, and format the UTC offset
//! that the sunrise provider takes.

pub mod error;
pub mod text;
pub mod number;
pub mod json;
pub mod coordinates;
pub mod offset;
pub mod timezone;
pub mod forecast;
pub mod solar;
pub mod envelope;
