use vstd::prelude::*;

use crate::coordinates::Coordinates;
use crate::error::ServiceError;
use crate::json::{field, field_of, get, number_of, str_of, JsonValue};
use crate::offset::{format_offset, offset_of};

verus! {

/// The time zone of a position: its identifier (an IANA zone name) and its
/// current offset from UTC in seconds, as the JSON number the provider gave,
/// kept exactly. The offset in hours is that number divided by 3600.
pub struct TimezoneInfo {
    pub timezone_id: String,
    pub offset_seconds: String,
}

/// What the time-zone provider's answer says: the identifier under
/// `timeZone`, and the offset under `currentUtcOffset.seconds`, which may
/// be any JSON number (`19800`, `19800.0`, `1.98e4`).
pub open spec fn timezone_of(payload: JsonValue) -> Result<(Seq<char>, Seq<char>), ServiceError> {
    let seconds = number_of(get(get(Some(payload), "currentUtcOffset"@), "seconds"@));
    let id = str_of(get(Some(payload), "timeZone"@));
    if seconds is Some && id is Some {
        Ok((id->Some_0, seconds->Some_0))
    } else {
        Err(ServiceError::UpstreamSchemaMismatch)
    }
}

/// The address at which the time-zone provider is asked about `c`.
pub open spec fn timezone_url_text(c: Coordinates) -> Seq<char> {
    "https://www.timeapi.io/api/TimeZone/coordinate?latitude="@ + c.lat@ + "&longitude="@ + c.lon@
}

/// The address at which the time-zone provider is asked about `c`.
pub fn timezone_url(c: &Coordinates) -> (r: String)
    ensures
        r@ == timezone_url_text(*c),
{
    let mut url = String::from_str("https://www.timeapi.io/api/TimeZone/coordinate?latitude=");
    url.append(c.lat.as_str());
    url.append("&longitude=");
    url.append(c.lon.as_str());
    url
}

/// Reads the time-zone provider's answer. The offset is carried over as
/// the number the provider gave, exactly.
pub fn timezone_from_payload(payload: &JsonValue) -> (r: Result<TimezoneInfo, ServiceError>)
    ensures
        r is Ok == timezone_of(*payload) is Ok,
        r matches Ok(info) ==> timezone_of(*payload) == Ok::<(Seq<char>, Seq<char>), ServiceError>(
            (info.timezone_id@, info.offset_seconds@),
        ),
        r matches Err(e) ==> e == ServiceError::UpstreamSchemaMismatch,
{
    let seconds = match field_of(field(payload, "currentUtcOffset"), "seconds") {
        Some(JsonValue::Number(t)) => t.clone(),
        _ => {
            return Err(ServiceError::UpstreamSchemaMismatch);
        },
    };
    match field(payload, "timeZone") {
        Some(JsonValue::Str(id)) => Ok(TimezoneInfo { timezone_id: id.clone(), offset_seconds: seconds }),
        _ => Err(ServiceError::UpstreamSchemaMismatch),
    }
}

impl TimezoneInfo {
    /// The offset as the sunrise provider takes it (`+05:30`); none where
    /// it is too large to format.
    pub fn formatted_offset(&self) -> (r: Option<String>)
        ensures
            r.is_some() == offset_of(self.offset_seconds@).is_some(),
            r.is_some() ==> r.unwrap()@ == offset_of(self.offset_seconds@).unwrap(),
    {
        format_offset(self.offset_seconds.as_str())
    }
}

} // verus!
