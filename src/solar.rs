use vstd::prelude::*;

use crate::coordinates::Coordinates;
use crate::error::ServiceError;
use crate::json::{field, field_of, get, JsonValue};
use crate::offset::{format_offset, offset_of};
use crate::text::{push_signed, signed_digits};
use crate::timezone::TimezoneInfo;

verus! {

/// The query of a sunrise request: the position as `LAT,LON`, and the first
/// and last dates as `YYYY-MM-DD`.
pub struct Info {
    pub coordinates: String,
    pub start_date: String,
    pub end_date: String,
}

/// The UTC timestamp (in seconds) that chrono reads from `text` under the
/// strftime `format`, where it reads one.
pub uninterp spec fn utc_timestamp_of(text: Seq<char>, format: Seq<char>) -> Option<i64>;

/// Relies on chrono's `NaiveDateTime::parse_from_str`, read as UTC through
/// `and_utc` and `timestamp`: the result depends on the text and the format
/// alone.
#[verifier::external_body]
fn parse_utc_timestamp(text: &str, format: &str) -> (r: Option<i64>)
    ensures
        r == utc_timestamp_of(text@, format@),
{
    match chrono::NaiveDateTime::parse_from_str(text, format) {
        Ok(d) => Some(d.and_utc().timestamp()),
        Err(_) => None,
    }
}

/// The instant at which a `YYYY-MM-DD` date begins in UTC, where the date
/// can be read.
pub open spec fn midnight_of(date: Seq<char>) -> Option<i64> {
    utc_timestamp_of(date + " 00:00:00"@, "%Y-%m-%d %H:%M:%S"@)
}

/// Whole days from `start` to `end` (timestamps in seconds), rounded toward
/// zero.
pub open spec fn days_between(start: int, end: int) -> int {
    let d = end - start;
    if d >= 0 {
        d / 86400
    } else {
        -((-d) / 86400)
    }
}

/// Whole days from the timestamp `start` to the timestamp `end`, rounded
/// toward zero; negative where `end` comes first.
pub fn span_days(start: i64, end: i64) -> (r: i64)
    ensures
        r as int == days_between(start as int, end as int),
{
    let d: i128 = end as i128 - start as i128;
    if d >= 0 {
        (d / 86400) as i64
    } else {
        -((-d) / 86400) as i64
    }
}

/// The number of days from `start_date` to `end_date`, both `YYYY-MM-DD`
/// and read as UTC midnight; an invalid input where either cannot be read.
/// A zero or negative span is returned as it is.
pub fn day_span(start_date: &str, end_date: &str) -> (r: Result<i64, ServiceError>)
    ensures
        r is Ok == (midnight_of(start_date@) is Some && midnight_of(end_date@) is Some),
        r matches Ok(days) ==> days as int == days_between(
            midnight_of(start_date@)->Some_0 as int,
            midnight_of(end_date@)->Some_0 as int,
        ),
        r matches Err(e) ==> e == ServiceError::InvalidInput,
{
    let start_text = String::from_str(start_date).concat(" 00:00:00");
    let end_text = String::from_str(end_date).concat(" 00:00:00");
    let start = parse_utc_timestamp(start_text.as_str(), "%Y-%m-%d %H:%M:%S");
    let end = parse_utc_timestamp(end_text.as_str(), "%Y-%m-%d %H:%M:%S");
    match (start, end) {
        (Some(a), Some(b)) => Ok(span_days(a, b)),
        _ => Err(ServiceError::InvalidInput),
    }
}

/// The address at which the sunrise provider is asked about `c`, for `days`
/// days from `date`, with times given at `offset`.
pub open spec fn sunrise_url_text(c: Coordinates, date: Seq<char>, offset: Seq<char>, days: int) -> Seq<char> {
    "https://api.met.no/weatherapi/sunrise/2.0/.json?lat="@ + c.lat@ + "&lon="@ + c.lon@ + "&date="@
        + date + "&offset="@ + offset + "&days="@ + signed_digits(days)
}

/// The address at which the sunrise provider is asked about `c`, for `days`
/// days from `date`, with times given at `offset`.
pub fn sunrise_url(c: &Coordinates, date: &str, offset: &str, days: i64) -> (r: String)
    ensures
        r@ == sunrise_url_text(*c, date@, offset@, days as int),
{
    let mut url = String::from_str("https://api.met.no/weatherapi/sunrise/2.0/.json?lat=");
    url.append(c.lat.as_str());
    url.append("&lon=");
    url.append(c.lon.as_str());
    url.append("&date=");
    url.append(date);
    url.append("&offset=");
    url.append(offset);
    url.append("&days=");
    push_signed(&mut url, days);
    proof {
        assert(url@ =~= sunrise_url_text(*c, date@, offset@, days as int));
    }
    url
}

impl Info {
    /// The sunrise request for this query at `c`, in the time zone `tz`: from
    /// the start date, over the days up to the end date, with the offset
    /// formatted for the provider. An invalid input where a date cannot be
    /// read; a mismatch where the offset is too large to format.
    pub fn sunrise_request(&self, c: &Coordinates, tz: &TimezoneInfo) -> (r: Result<String, ServiceError>)
        ensures
            r is Ok == (midnight_of(self.start_date@) is Some && midnight_of(self.end_date@) is Some
                && offset_of(tz.offset_seconds@) is Some),
            r matches Ok(url) ==> url@ == sunrise_url_text(
                *c,
                self.start_date@,
                offset_of(tz.offset_seconds@)->Some_0,
                days_between(
                    midnight_of(self.start_date@)->Some_0 as int,
                    midnight_of(self.end_date@)->Some_0 as int,
                ),
            ),
            r matches Err(e) ==> (e == ServiceError::InvalidInput) == (midnight_of(self.start_date@) is None
                || midnight_of(self.end_date@) is None),
            r matches Err(e) ==> e == ServiceError::InvalidInput || e
                == ServiceError::UpstreamSchemaMismatch,
    {
        let days = match day_span(self.start_date.as_str(), self.end_date.as_str()) {
            Ok(d) => d,
            Err(e) => {
                return Err(e);
            },
        };
        let offset = match format_offset(tz.offset_seconds.as_str()) {
            Some(o) => o,
            None => {
                return Err(ServiceError::UpstreamSchemaMismatch);
            },
        };
        Ok(sunrise_url(c, self.start_date.as_str(), offset.as_str(), days))
    }
}

/// The sun times of the sunrise provider's answer: the array under
/// `location.time`.
pub open spec fn solar_times_of(payload: JsonValue) -> Option<JsonValue> {
    match get(get(Some(payload), "location"@), "time"@) {
        Some(JsonValue::Array(items)) => Some(JsonValue::Array(items)),
        _ => None,
    }
}

/// The array under `location.time` of the sunrise provider's answer, as it
/// stands; a mismatch where there is none.
pub fn solar_times(payload: &JsonValue) -> (r: Result<&JsonValue, ServiceError>)
    ensures
        r is Ok == solar_times_of(*payload) is Some,
        r matches Ok(v) ==> Some(*v) == solar_times_of(*payload),
        r matches Err(e) ==> e == ServiceError::UpstreamSchemaMismatch,
{
    match field_of(field(payload, "location"), "time") {
        Some(v) => match v {
            JsonValue::Array(_) => Ok(v),
            _ => Err(ServiceError::UpstreamSchemaMismatch),
        },
        None => Err(ServiceError::UpstreamSchemaMismatch),
    }
}

/// Two instants a whole number `k` of days apart are `k` days apart, in
/// either order.
pub proof fn whole_day_span(start: int, k: int)
    ensures
        days_between(start, start + 86400 * k) == k,
{
    if k >= 0 {
        assert((86400 * k) / 86400 == k) by (nonlinear_arith);
    } else {
        assert((86400 * (-k)) / 86400 == -k) by (nonlinear_arith);
    }
}

} // verus!
