use vstd::prelude::*;

use crate::coordinates::Coordinates;
use crate::forecast::ForecastRecord;
use crate::timezone::TimezoneInfo;

verus! {

/// The answer to a forecast request: the records, the time zone of the
/// position, and the position itself.
pub struct ForecastInfo {
    pub forecast: Vec<ForecastRecord>,
    pub timezone_id: String,
    pub offset_seconds: String,
    pub coordinates: Coordinates,
}

impl ForecastInfo {
    /// Puts a forecast and the time zone of its position together.
    pub fn new(forecast: Vec<ForecastRecord>, timezone: TimezoneInfo, coordinates: Coordinates) -> (r: ForecastInfo)
        ensures
            r.forecast@ == forecast@,
            r.timezone_id == timezone.timezone_id,
            r.offset_seconds == timezone.offset_seconds,
            r.coordinates == coordinates,
    {
        ForecastInfo {
            forecast,
            timezone_id: timezone.timezone_id,
            offset_seconds: timezone.offset_seconds,
            coordinates,
        }
    }
}

/// The answer to a sunrise request: the position, the provider's sun times
/// as JSON text, and the identifier of the position's time zone.
pub struct SolarData {
    pub coordinates: Coordinates,
    pub solar_data: String,
    pub timezone: String,
}

impl SolarData {
    /// Puts the sun times of a position and its time zone together.
    pub fn new(coordinates: Coordinates, solar_data: String, timezone: TimezoneInfo) -> (r: SolarData)
        ensures
            r.coordinates == coordinates,
            r.solar_data == solar_data,
            r.timezone == timezone.timezone_id,
    {
        SolarData { coordinates, solar_data, timezone: timezone.timezone_id }
    }
}

} // verus!
