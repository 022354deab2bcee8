use weather_forecast::coordinates::{parse_coordinates, Coordinates};
use weather_forecast::envelope::{ForecastInfo, SolarData};
use weather_forecast::error::ServiceError;
use weather_forecast::forecast::{forecast_from_payload, forecast_url, format_forecast, record_from};
use weather_forecast::json::{field, same_text, JsonValue};
use weather_forecast::solar::{day_span, solar_times, span_days, sunrise_url, Info};
use weather_forecast::timezone::{timezone_from_payload, timezone_url, TimezoneInfo};

fn num(t: &str) -> JsonValue {
    JsonValue::Number(String::from(t))
}

fn text(t: &str) -> JsonValue {
    JsonValue::Str(String::from(t))
}

fn obj(members: Vec<(&str, JsonValue)>) -> JsonValue {
    JsonValue::Object(members.into_iter().map(|(k, v)| (String::from(k), v)).collect())
}

fn outlook(amount: &str, symbol: &str) -> JsonValue {
    obj(vec![
        ("summary", obj(vec![("symbol_code", text(symbol))])),
        ("details", obj(vec![("precipitation_amount", num(amount))])),
    ])
}

fn entry(time: &str, data: Vec<(&str, JsonValue)>) -> JsonValue {
    obj(vec![("time", text(time)), ("data", obj(data))])
}

fn instant() -> JsonValue {
    obj(vec![(
        "details",
        obj(vec![("air_temperature", num("12.3")), ("relative_humidity", num("81"))]),
    )])
}

fn coords(lat: &str, lon: &str) -> Coordinates {
    Coordinates::new(lat, lon).unwrap()
}

#[test]
fn six_hour_outlook_without_next_hour() {
    let series = vec![entry(
        "2024-01-01T00:00:00Z",
        vec![("instant", instant()), ("next_6_hours", outlook("0.4", "rain"))],
    )];
    let records = format_forecast(&series).unwrap();
    assert_eq!(records.len(), 1);
    let r = &records[0];
    assert_eq!(r.time, "2024-01-01T00:00:00Z");
    assert_eq!(
        r.weather,
        vec![
            (String::from("air_temperature"), String::from("12.3")),
            (String::from("relative_humidity"), String::from("81")),
        ]
    );
    let six = r.next_6_hours.as_ref().unwrap();
    assert_eq!(six.precipitations, "0.4");
    assert_eq!(six.symbol, "rain");
    assert!(r.next_hour.is_none());
}

#[test]
fn missing_details_is_schema_mismatch() {
    let good = entry("2024-01-01T00:00:00Z", vec![("instant", instant())]);
    let bad = entry("2024-01-01T01:00:00Z", vec![("instant", obj(vec![]))]);
    assert_eq!(format_forecast(&vec![good, bad]).err(), Some(ServiceError::UpstreamSchemaMismatch));
}

#[test]
fn missing_time_is_schema_mismatch() {
    let e = obj(vec![("data", obj(vec![("instant", instant())]))]);
    assert_eq!(record_from(&e).err(), Some(ServiceError::UpstreamSchemaMismatch));
}

#[test]
fn null_outlook_is_absent() {
    let e = entry(
        "2024-01-01T00:00:00Z",
        vec![("instant", instant()), ("next_6_hours", JsonValue::Null), ("next_1_hours", outlook("0", "cloudy"))],
    );
    let r = record_from(&e).unwrap();
    assert!(r.next_6_hours.is_none());
    let one = r.next_hour.unwrap();
    assert_eq!(one.precipitations, "0");
    assert_eq!(one.symbol, "cloudy");
}

#[test]
fn malformed_outlook_is_schema_mismatch() {
    let broken = obj(vec![("summary", obj(vec![("symbol_code", text("rain"))]))]);
    let e = entry("2024-01-01T00:00:00Z", vec![("instant", instant()), ("next_1_hours", broken)]);
    assert_eq!(record_from(&e).err(), Some(ServiceError::UpstreamSchemaMismatch));
}

#[test]
fn non_numeric_measurement_is_schema_mismatch() {
    let details = obj(vec![("details", obj(vec![("air_temperature", text("warm"))]))]);
    let e = entry("2024-01-01T00:00:00Z", vec![("instant", details)]);
    assert_eq!(record_from(&e).err(), Some(ServiceError::UpstreamSchemaMismatch));
}

#[test]
fn empty_series_gives_no_records() {
    assert_eq!(format_forecast(&vec![]).unwrap().len(), 0);
}

#[test]
fn payload_keeps_series_length_and_order() {
    let series = vec![
        entry("2024-01-01T00:00:00Z", vec![("instant", instant())]),
        entry("2024-01-01T01:00:00Z", vec![("instant", instant())]),
        entry("2024-01-01T02:00:00Z", vec![("instant", instant())]),
    ];
    let payload = obj(vec![
        ("type", text("Feature")),
        ("properties", obj(vec![("timeseries", JsonValue::Array(series))])),
    ]);
    let records = forecast_from_payload(&payload).unwrap();
    assert_eq!(records.len(), 3);
    assert_eq!(records[0].time, "2024-01-01T00:00:00Z");
    assert_eq!(records[2].time, "2024-01-01T02:00:00Z");
}

#[test]
fn payload_without_series_is_schema_mismatch() {
    let payload = obj(vec![("properties", obj(vec![("timeseries", JsonValue::Null)]))]);
    assert_eq!(forecast_from_payload(&payload).err(), Some(ServiceError::UpstreamSchemaMismatch));
}

#[test]
fn forecast_envelope_echoes_position() {
    let series = vec![
        entry("2024-01-01T00:00:00Z", vec![("instant", instant())]),
        entry("2024-01-01T01:00:00Z", vec![("instant", instant())]),
    ];
    let payload = obj(vec![("properties", obj(vec![("timeseries", JsonValue::Array(series))]))]);
    let forecast = forecast_from_payload(&payload).unwrap();
    let tz = TimezoneInfo { timezone_id: String::from("Asia/Kabul"), offset_seconds: String::from("16200") };
    let info = ForecastInfo::new(forecast, tz, coords("34", "65"));
    assert_eq!(info.forecast.len(), 2);
    assert_eq!(info.coordinates.lat, "34");
    assert_eq!(info.coordinates.lon, "65");
    assert_eq!(info.timezone_id, "Asia/Kabul");
    assert_eq!(info.offset_seconds, "16200");
}

#[test]
fn solar_envelope_holds_parts() {
    let tz = TimezoneInfo { timezone_id: String::from("Asia/Kabul"), offset_seconds: String::from("16200") };
    let data = SolarData::new(coords("34", "65"), String::from("[]"), tz);
    assert_eq!(data.solar_data, "[]");
    assert_eq!(data.timezone, "Asia/Kabul");
    assert_eq!(data.coordinates.lat, "34");
}

#[test]
fn forecast_address() {
    assert_eq!(
        forecast_url(&coords("34", "65")),
        "https://api.met.no/weatherapi/locationforecast/2.0/compact?lat=34&lon=65"
    );
}

#[test]
fn timezone_answer_is_read() {
    let payload = obj(vec![
        ("timeZone", text("Asia/Kolkata")),
        ("currentUtcOffset", obj(vec![("seconds", num("19800"))])),
    ]);
    let tz = timezone_from_payload(&payload).unwrap();
    assert_eq!(tz.timezone_id, "Asia/Kolkata");
    assert_eq!(tz.offset_seconds, "19800");
}

#[test]
fn negative_timezone_offset_is_exact() {
    let payload = obj(vec![
        ("timeZone", text("America/St_Johns")),
        ("currentUtcOffset", obj(vec![("seconds", num("-12600"))])),
    ]);
    let tz = timezone_from_payload(&payload).unwrap();
    assert_eq!(tz.offset_seconds, "-12600");
    assert_eq!(tz.formatted_offset(), Some(String::from("-03:-30")));
}

#[test]
fn timezone_answer_without_fields_is_schema_mismatch() {
    let no_zone = obj(vec![("currentUtcOffset", obj(vec![("seconds", num("0"))]))]);
    assert_eq!(timezone_from_payload(&no_zone).err(), Some(ServiceError::UpstreamSchemaMismatch));
    let text_seconds = obj(vec![
        ("timeZone", text("UTC")),
        ("currentUtcOffset", obj(vec![("seconds", text("0"))])),
    ]);
    assert_eq!(timezone_from_payload(&text_seconds).err(), Some(ServiceError::UpstreamSchemaMismatch));
    let null_seconds = obj(vec![
        ("timeZone", text("UTC")),
        ("currentUtcOffset", obj(vec![("seconds", JsonValue::Null)])),
    ]);
    assert_eq!(timezone_from_payload(&null_seconds).err(), Some(ServiceError::UpstreamSchemaMismatch));
    let no_offset = obj(vec![("timeZone", text("UTC"))]);
    assert_eq!(timezone_from_payload(&no_offset).err(), Some(ServiceError::UpstreamSchemaMismatch));
}

#[test]
fn timezone_seconds_may_be_any_number() {
    for seconds in ["19800.0", "1.98e4", "1.98E4", "19800.5", "1e400"] {
        let payload = obj(vec![
            ("timeZone", text("Asia/Kolkata")),
            ("currentUtcOffset", obj(vec![("seconds", num(seconds))])),
        ]);
        let tz = timezone_from_payload(&payload).unwrap();
        assert_eq!(tz.timezone_id, "Asia/Kolkata");
        assert_eq!(tz.offset_seconds, seconds);
    }
}

#[test]
fn sunrise_request_with_unformattable_offset_is_schema_mismatch() {
    let info = Info {
        coordinates: String::from("34,65"),
        start_date: String::from("2024-01-01"),
        end_date: String::from("2024-01-03"),
    };
    let c = parse_coordinates(&info.coordinates).unwrap();
    let tz = TimezoneInfo { timezone_id: String::from("UTC"), offset_seconds: String::from("1e400") };
    assert_eq!(info.sunrise_request(&c, &tz).err(), Some(ServiceError::UpstreamSchemaMismatch));
}

#[test]
fn repeated_measurement_keeps_last() {
    let details = obj(vec![("details", obj(vec![
        ("air_temperature", text("warm")),
        ("wind_speed", num("3.1")),
        ("air_temperature", num("12.3")),
    ]))]);
    let e = entry("2024-01-01T00:00:00Z", vec![("instant", details)]);
    let r = record_from(&e).unwrap();
    assert_eq!(
        r.weather,
        vec![
            (String::from("wind_speed"), String::from("3.1")),
            (String::from("air_temperature"), String::from("12.3")),
        ]
    );
}

#[test]
fn repeated_measurement_must_end_in_number() {
    let details = obj(vec![("details", obj(vec![
        ("air_temperature", num("12.3")),
        ("air_temperature", JsonValue::Null),
    ]))]);
    let e = entry("2024-01-01T00:00:00Z", vec![("instant", details)]);
    assert_eq!(record_from(&e).err(), Some(ServiceError::UpstreamSchemaMismatch));
}

#[test]
fn repeated_member_name_takes_last() {
    let v = obj(vec![("timeZone", text("first")), ("timeZone", text("second"))]);
    match field(&v, "timeZone") {
        Some(JsonValue::Str(s)) => assert_eq!(s, "second"),
        _ => panic!("expected a string"),
    }
}

#[test]
fn timezone_address() {
    assert_eq!(
        timezone_url(&coords("-33.87", "151.21")),
        "https://www.timeapi.io/api/TimeZone/coordinate?latitude=-33.87&longitude=151.21"
    );
}

#[test]
fn coordinates_split_at_comma() {
    let c = parse_coordinates("34,65").unwrap();
    assert_eq!(c.lat, "34");
    assert_eq!(c.lon, "65");
}

#[test]
fn coordinates_written_plainly() {
    let c = parse_coordinates("+34.50,6.5e1").unwrap();
    assert_eq!(c.lat, "34.5");
    assert_eq!(c.lon, "65");
    let d = parse_coordinates(".5,5.").unwrap();
    assert_eq!(d.lat, "0.5");
    assert_eq!(d.lon, "5");
}

#[test]
fn coordinates_ignore_third_part() {
    let c = parse_coordinates("1.5,-2.25,9").unwrap();
    assert_eq!(c.lat, "1.5");
    assert_eq!(c.lon, "-2.25");
}

#[test]
fn malformed_coordinates_are_invalid() {
    assert_eq!(parse_coordinates("34").err(), Some(ServiceError::InvalidInput));
    assert_eq!(parse_coordinates("a,b").err(), Some(ServiceError::InvalidInput));
    assert_eq!(parse_coordinates("34,").err(), Some(ServiceError::InvalidInput));
    assert_eq!(parse_coordinates("3.4.5,4").err(), Some(ServiceError::InvalidInput));
    assert_eq!(parse_coordinates("1e401,4").err(), Some(ServiceError::InvalidInput));
    assert_eq!(Coordinates::new("-", "1").err(), Some(ServiceError::InvalidInput));
}

#[test]
fn two_day_span() {
    assert_eq!(day_span("2024-01-01", "2024-01-03"), Ok(2));
    assert_eq!(day_span("2024-01-03", "2024-01-01"), Ok(-2));
    assert_eq!(day_span("2024-02-28", "2024-03-01"), Ok(2));
    assert_eq!(day_span("2024-01-01", "2024-01-01"), Ok(0));
}

#[test]
fn unreadable_date_is_invalid() {
    assert_eq!(day_span("2024-13-01", "2024-01-03"), Err(ServiceError::InvalidInput));
    assert_eq!(day_span("2024-01-01", "tomorrow"), Err(ServiceError::InvalidInput));
}

#[test]
fn span_rounds_toward_zero() {
    assert_eq!(span_days(0, 86400 * 2), 2);
    assert_eq!(span_days(0, 86399), 0);
    assert_eq!(span_days(86399, 0), 0);
    assert_eq!(span_days(0, -86400 * 3 - 5), -3);
    assert_eq!(span_days(i64::MIN, i64::MAX), 213503982334601);
}

#[test]
fn sunrise_request_carries_span() {
    let info = Info {
        coordinates: String::from("34,65"),
        start_date: String::from("2024-01-01"),
        end_date: String::from("2024-01-03"),
    };
    let c = parse_coordinates(&info.coordinates).unwrap();
    let tz = TimezoneInfo { timezone_id: String::from("Asia/Kabul"), offset_seconds: String::from("16200") };
    let url = info.sunrise_request(&c, &tz).unwrap();
    assert_eq!(
        url,
        "https://api.met.no/weatherapi/sunrise/2.0/.json?lat=34&lon=65&date=2024-01-01&offset=+04:30&days=2"
    );
    assert!(url.ends_with("&days=2"));
}

#[test]
fn sunrise_request_with_bad_date_is_invalid() {
    let info = Info {
        coordinates: String::from("34,65"),
        start_date: String::from("01/01/2024"),
        end_date: String::from("2024-01-03"),
    };
    let c = parse_coordinates(&info.coordinates).unwrap();
    let tz = TimezoneInfo { timezone_id: String::from("UTC"), offset_seconds: String::from("0") };
    assert_eq!(info.sunrise_request(&c, &tz).err(), Some(ServiceError::InvalidInput));
}

#[test]
fn sunrise_address_with_negative_span() {
    assert_eq!(
        sunrise_url(&coords("1", "2"), "2024-01-05", "-05:00", -3),
        "https://api.met.no/weatherapi/sunrise/2.0/.json?lat=1&lon=2&date=2024-01-05&offset=-05:00&days=-3"
    );
}

#[test]
fn solar_times_are_found() {
    let times = JsonValue::Array(vec![obj(vec![("date", text("2024-01-01"))])]);
    let payload = obj(vec![("location", obj(vec![("height", num("0")), ("time", times)]))]);
    match solar_times(&payload).unwrap() {
        JsonValue::Array(items) => assert_eq!(items.len(), 1),
        _ => panic!("expected the time array"),
    }
}

#[test]
fn missing_solar_times_are_schema_mismatch() {
    let payload = obj(vec![("location", obj(vec![("height", num("0"))]))]);
    assert_eq!(solar_times(&payload).err(), Some(ServiceError::UpstreamSchemaMismatch));
}

#[test]
fn members_found_by_exact_name() {
    let v = obj(vec![("time", text("a")), ("timeZone", text("b"))]);
    match field(&v, "timeZone") {
        Some(JsonValue::Str(s)) => assert_eq!(s, "b"),
        _ => panic!("expected a string"),
    }
    assert!(field(&v, "zone").is_none());
    assert!(field(&text("x"), "time").is_none());
    assert!(same_text("abc", "abc"));
    assert!(!same_text("abc", "abd"));
}
