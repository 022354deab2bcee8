use vstd::prelude::*;

use crate::coordinates::Coordinates;
use crate::error::ServiceError;
use crate::json::{array_of, field, field_of, get, number_of, option_value, same_text, str_of, JsonValue};

verus! {

/// The short-range outlook of one forecast step: the expected precipitation
/// (as the provider's number text) and the provider's weather symbol.
pub struct NextForecastRecord {
    pub precipitations: String,
    pub symbol: String,
}

pub struct NextForecastRecordView {
    pub precipitations: Seq<char>,
    pub symbol: Seq<char>,
}

impl View for NextForecastRecord {
    type V = NextForecastRecordView;

    open spec fn view(&self) -> NextForecastRecordView {
        NextForecastRecordView { precipitations: self.precipitations@, symbol: self.symbol@ }
    }
}

/// One step of the forecast: its timestamp as the provider wrote it, the
/// instantaneous measurements by name (each as the provider's number text),
/// and the outlooks for the next six hours and the next hour, where given.
pub struct ForecastRecord {
    pub time: String,
    pub weather: Vec<(String, String)>,
    pub next_6_hours: Option<NextForecastRecord>,
    pub next_hour: Option<NextForecastRecord>,
}

pub struct ForecastRecordView {
    pub time: Seq<char>,
    pub weather: Seq<(Seq<char>, Seq<char>)>,
    pub next_6_hours: Option<NextForecastRecordView>,
    pub next_hour: Option<NextForecastRecordView>,
}

pub open spec fn outlook_view(n: Option<NextForecastRecord>) -> Option<NextForecastRecordView> {
    match n {
        Some(x) => Some(x@),
        None => None,
    }
}

pub open spec fn pairs_view(pairs: Seq<(String, String)>) -> Seq<(Seq<char>, Seq<char>)> {
    Seq::new(pairs.len(), |i: int| (pairs[i].0@, pairs[i].1@))
}

impl View for ForecastRecord {
    type V = ForecastRecordView;

    open spec fn view(&self) -> ForecastRecordView {
        ForecastRecordView {
            time: self.time@,
            weather: pairs_view(self.weather@),
            next_6_hours: outlook_view(self.next_6_hours),
            next_hour: outlook_view(self.next_hour),
        }
    }
}

pub open spec fn records_view(records: Seq<ForecastRecord>) -> Seq<ForecastRecordView> {
    Seq::new(records.len(), |i: int| records[i]@)
}

/// The number text of a measurement.
pub open spec fn measurement_text(v: JsonValue) -> Seq<char> {
    match v {
        JsonValue::Number(t) => t@,
        _ => Seq::empty(),
    }
}

/// Whether no member after the `i`-th has its name.
pub open spec fn is_last_of_name(members: Seq<(String, JsonValue)>, i: int) -> bool {
    forall|j: int| i < j < members.len() ==> (#[trigger] members[j]).0@ != members[i].0@
}

/// The measurements among the first `n` members: each member that is the
/// last of its name, in order, as a name and its number text.
pub open spec fn measurements(members: Seq<(String, JsonValue)>, n: nat) -> Seq<(Seq<char>, Seq<char>)>
    decreases n,
{
    if n == 0 {
        Seq::empty()
    } else {
        let earlier = measurements(members, (n - 1) as nat);
        if is_last_of_name(members, n - 1) {
            earlier.push((members[n - 1].0@, measurement_text(members[n - 1].1)))
        } else {
            earlier
        }
    }
}

/// The measurements of `details`: an object whose members are numbers. A
/// repeated name keeps its last member, which must be a number; the earlier
/// ones are overridden and not read.
pub open spec fn weather_of(details: Option<JsonValue>) -> Option<Seq<(Seq<char>, Seq<char>)>> {
    match details {
        Some(JsonValue::Object(members)) => {
            if forall|i: int|
                0 <= i < members@.len() && is_last_of_name(members@, i) ==> (
                #[trigger] members@[i]).1 is Number {
                Some(measurements(members@, members@.len()))
            } else {
                None
            }
        },
        _ => None,
    }
}

proof fn lemma_measurements_from_last(members: Seq<(String, JsonValue)>, n: nat)
    requires
        n <= members.len(),
    ensures
        forall|k: int|
            0 <= k < measurements(members, n).len() ==> exists|i: int|
                0 <= i < n && is_last_of_name(members, i) && (#[trigger] measurements(members, n)[k]).0
                    == members[i].0@,
    decreases n,
{
    if n > 0 {
        lemma_measurements_from_last(members, (n - 1) as nat);
        let earlier = measurements(members, (n - 1) as nat);
        assert forall|k: int| 0 <= k < measurements(members, n).len() implies exists|i: int|
            0 <= i < n && is_last_of_name(members, i) && (#[trigger] measurements(members, n)[k]).0
                == members[i].0@ by {
            if k < earlier.len() {
                assert(measurements(members, n)[k] == earlier[k]);
            } else {
                let i = n - 1;
                assert(is_last_of_name(members, i));
            }
        }
    }
}

/// No two measurements of an object share a name.
pub proof fn measurement_names_unique(members: Seq<(String, JsonValue)>, n: nat)
    requires
        n <= members.len(),
    ensures
        forall|a: int, b: int|
            0 <= a < b < measurements(members, n).len() ==> (#[trigger] measurements(members, n)[a]).0
                != (#[trigger] measurements(members, n)[b]).0,
    decreases n,
{
    if n > 0 {
        measurement_names_unique(members, (n - 1) as nat);
        lemma_measurements_from_last(members, (n - 1) as nat);
        let earlier = measurements(members, (n - 1) as nat);
        let all = measurements(members, n);
        assert forall|a: int, b: int| 0 <= a < b < all.len() implies (#[trigger] all[a]).0 != (
        #[trigger] all[b]).0 by {
            if b < earlier.len() {
                assert(all[a] == earlier[a]);
                assert(all[b] == earlier[b]);
            } else {
                assert(all[a] == earlier[a]);
                let i = choose|i: int|
                    0 <= i < n - 1 && is_last_of_name(members, i) && (#[trigger] earlier[a]).0
                        == members[i].0@;
                assert(members[n - 1].0@ != members[i].0@);
            }
        }
    }
}

/// An outlook: none where the provider gives none or `null`; else it must
/// hold `details.precipitation_amount` as a number and `summary.symbol_code`
/// as a string.
pub open spec fn outlook_of(v: Option<JsonValue>) -> Result<
    Option<NextForecastRecordView>,
    ServiceError,
> {
    match v {
        None => Ok(None),
        Some(JsonValue::Null) => Ok(None),
        Some(_) => {
            let amount = number_of(get(get(v, "details"@), "precipitation_amount"@));
            let symbol = str_of(get(get(v, "summary"@), "symbol_code"@));
            if amount is Some && symbol is Some {
                Ok(Some(NextForecastRecordView { precipitations: amount->Some_0, symbol: symbol->Some_0 }))
            } else {
                Err(ServiceError::UpstreamSchemaMismatch)
            }
        },
    }
}

/// The record of one time-series entry. `time` and `data.instant.details`
/// are required; the outlooks `data.next_6_hours` and `data.next_1_hours`
/// are optional.
pub open spec fn record_of(entry: JsonValue) -> Result<ForecastRecordView, ServiceError> {
    let data = get(Some(entry), "data"@);
    let time = str_of(get(Some(entry), "time"@));
    let weather = weather_of(get(get(data, "instant"@), "details"@));
    let six = outlook_of(get(data, "next_6_hours"@));
    let one = outlook_of(get(data, "next_1_hours"@));
    if time is Some && weather is Some && six is Ok && one is Ok {
        Ok(
            ForecastRecordView {
                time: time->Some_0,
                weather: weather->Some_0,
                next_6_hours: six->Ok_0,
                next_hour: one->Ok_0,
            },
        )
    } else {
        Err(ServiceError::UpstreamSchemaMismatch)
    }
}

/// The records of a time series, in its order; a mismatch if any entry
/// lacks what its record needs.
pub open spec fn forecast_of(entries: Seq<JsonValue>) -> Result<Seq<ForecastRecordView>, ServiceError> {
    if forall|i: int| 0 <= i < entries.len() ==> (#[trigger] record_of(entries[i])) is Ok {
        Ok(Seq::new(entries.len(), |i: int| record_of(entries[i])->Ok_0))
    } else {
        Err(ServiceError::UpstreamSchemaMismatch)
    }
}

/// Whether the `i`-th member is the last of its name.
fn last_of_name(members: &Vec<(String, JsonValue)>, i: usize) -> (r: bool)
    requires
        i < members@.len(),
    ensures
        r == is_last_of_name(members@, i as int),
{
    let n = members.len();
    let mut j: usize = i + 1;
    while j < n
        invariant
            n == members@.len(),
            i < j <= members@.len(),
            forall|k: int| i < k < j ==> (#[trigger] members@[k]).0@ != members@[i as int].0@,
        decreases n - j,
    {
        if same_text(members[j].0.as_str(), members[i].0.as_str()) {
            assert(members@[j as int].0@ == members@[i as int].0@);
            return false;
        }
        j += 1;
    }
    true
}

/// Copies the measurements out of `details`.
fn weather_from(details: Option<&JsonValue>) -> (r: Option<Vec<(String, String)>>)
    ensures
        r.is_some() == weather_of(option_value(details)).is_some(),
        r.is_some() ==> pairs_view(r.unwrap()@) == weather_of(option_value(details)).unwrap(),
{
    match details {
        Some(JsonValue::Object(members)) => {
            let mut out: Vec<(String, String)> = Vec::new();
            let mut i: usize = 0;
            while i < members.len()
                invariant
                    i <= members@.len(),
                    option_value(details) == Some(JsonValue::Object(*members)),
                    forall|j: int|
                        0 <= j < i && is_last_of_name(members@, j) ==> (#[trigger] members@[j]).1 is Number,
                    pairs_view(out@) == measurements(members@, i as nat),
                decreases members.len() - i,
            {
                let ghost before = out@;
                if last_of_name(members, i) {
                    match &members[i].1 {
                        JsonValue::Number(t) => {
                            out.push((members[i].0.clone(), t.clone()));
                        },
                        _ => {
                            return None;
                        },
                    }
                    assert(pairs_view(out@) =~= pairs_view(before).push(
                        (members@[i as int].0@, measurement_text(members@[i as int].1)),
                    ));
                }
                i += 1;
            }
            Some(out)
        },
        _ => None,
    }
}

/// Reads an outlook, where one is given.
fn outlook_from(v: Option<&JsonValue>) -> (r: Result<Option<NextForecastRecord>, ServiceError>)
    ensures
        r is Ok == outlook_of(option_value(v)) is Ok,
        r matches Ok(n) ==> outlook_view(n) == outlook_of(option_value(v))->Ok_0,
        r matches Err(e) ==> outlook_of(option_value(v)) == Err::<Option<NextForecastRecordView>, ServiceError>(e),
{
    match v {
        None => Ok(None),
        Some(JsonValue::Null) => Ok(None),
        Some(_) => {
            let amount = field_of(field_of(v, "details"), "precipitation_amount");
            let symbol = field_of(field_of(v, "summary"), "symbol_code");
            match (amount, symbol) {
                (Some(JsonValue::Number(a)), Some(JsonValue::Str(s))) => Ok(
                    Some(NextForecastRecord { precipitations: a.clone(), symbol: s.clone() }),
                ),
                _ => Err(ServiceError::UpstreamSchemaMismatch),
            }
        },
    }
}

/// The record of one time-series entry.
pub fn record_from(entry: &JsonValue) -> (r: Result<ForecastRecord, ServiceError>)
    ensures
        r is Ok == record_of(*entry) is Ok,
        r matches Ok(rec) ==> rec@ == record_of(*entry)->Ok_0,
        r matches Err(e) ==> e == ServiceError::UpstreamSchemaMismatch,
{
    let data = field(entry, "data");
    let time = match field(entry, "time") {
        Some(JsonValue::Str(t)) => t.clone(),
        _ => {
            return Err(ServiceError::UpstreamSchemaMismatch);
        },
    };
    let weather = match weather_from(field_of(field_of(data, "instant"), "details")) {
        Some(w) => w,
        None => {
            return Err(ServiceError::UpstreamSchemaMismatch);
        },
    };
    let next_6_hours = match outlook_from(field_of(data, "next_6_hours")) {
        Ok(n) => n,
        Err(e) => {
            return Err(e);
        },
    };
    let next_hour = match outlook_from(field_of(data, "next_1_hours")) {
        Ok(n) => n,
        Err(e) => {
            return Err(e);
        },
    };
    Ok(ForecastRecord { time, weather, next_6_hours, next_hour })
}

/// Turns the provider's time series into forecast records, one per entry and
/// in the same order. Any entry that lacks `time` or `data.instant.details`,
/// or holds a malformed outlook, fails the whole series.
pub fn format_forecast(array: &Vec<JsonValue>) -> (r: Result<Vec<ForecastRecord>, ServiceError>)
    ensures
        r is Ok == forecast_of(array@) is Ok,
        r matches Ok(v) ==> forecast_of(array@) == Ok::<Seq<ForecastRecordView>, ServiceError>(
            records_view(v@),
        ),
        r matches Ok(v) ==> v@.len() == array@.len(),
        r matches Err(e) ==> e == ServiceError::UpstreamSchemaMismatch,
{
    let mut out: Vec<ForecastRecord> = Vec::new();
    let mut i: usize = 0;
    while i < array.len()
        invariant
            i <= array@.len(),
            out@.len() == i,
            forall|j: int| 0 <= j < i ==> (#[trigger] record_of(array@[j])) is Ok,
            forall|j: int| 0 <= j < i ==> (#[trigger] out@[j])@ == record_of(array@[j])->Ok_0,
        decreases array.len() - i,
    {
        match record_from(&array[i]) {
            Ok(rec) => {
                out.push(rec);
            },
            Err(e) => {
                assert(!(record_of(array@[i as int]) is Ok));
                return Err(e);
            },
        }
        i += 1;
    }
    assert(records_view(out@) =~= forecast_of(array@)->Ok_0);
    Ok(out)
}

/// The time series of the weather provider's answer: the array under
/// `properties.timeseries`.
pub open spec fn timeseries_of(payload: JsonValue) -> Option<Seq<JsonValue>> {
    array_of(get(get(Some(payload), "properties"@), "timeseries"@))
}

/// The forecast that the weather provider's answer holds: a mismatch where
/// it has no time series, else the records of its entries.
pub open spec fn payload_forecast_of(payload: JsonValue) -> Result<Seq<ForecastRecordView>, ServiceError> {
    match timeseries_of(payload) {
        Some(entries) => forecast_of(entries),
        None => Err(ServiceError::UpstreamSchemaMismatch),
    }
}

/// Reads the weather provider's answer into forecast records, one for each
/// entry of `properties.timeseries`, in its order.
pub fn forecast_from_payload(payload: &JsonValue) -> (r: Result<Vec<ForecastRecord>, ServiceError>)
    ensures
        r is Ok == payload_forecast_of(*payload) is Ok,
        r matches Ok(v) ==> payload_forecast_of(*payload) == Ok::<Seq<ForecastRecordView>, ServiceError>(
            records_view(v@),
        ),
        r matches Ok(v) ==> v@.len() == timeseries_of(*payload)->Some_0.len(),
        r matches Err(e) ==> e == ServiceError::UpstreamSchemaMismatch,
{
    match field_of(field(payload, "properties"), "timeseries") {
        Some(JsonValue::Array(entries)) => {
            format_forecast(entries)
        },
        _ => Err(ServiceError::UpstreamSchemaMismatch),
    }
}

/// The address at which the weather provider is asked about `c`.
pub open spec fn forecast_url_text(c: Coordinates) -> Seq<char> {
    "https://api.met.no/weatherapi/locationforecast/2.0/compact?lat="@ + c.lat@ + "&lon="@ + c.lon@
}

/// The address at which the weather provider is asked about `c`.
pub fn forecast_url(c: &Coordinates) -> (r: String)
    ensures
        r@ == forecast_url_text(*c),
{
    let mut url = String::from_str("https://api.met.no/weatherapi/locationforecast/2.0/compact?lat=");
    url.append(c.lat.as_str());
    url.append("&lon=");
    url.append(c.lon.as_str());
    url
}

/// A time series in which one entry lacks `data.instant.details` gives no
/// forecast, but a schema mismatch.
pub proof fn missing_details_fails(entries: Seq<JsonValue>, i: int)
    requires
        0 <= i < entries.len(),
        get(get(get(Some(entries[i]), "data"@), "instant"@), "details"@) is None,
    ensures
        forecast_of(entries) == Err::<Seq<ForecastRecordView>, ServiceError>(
            ServiceError::UpstreamSchemaMismatch,
        ),
{
    assert(!(record_of(entries[i]) is Ok));
}

/// An entry whose `data` has no `next_1_hours` gives a record without a
/// next-hour outlook; its six-hour outlook is read from `data.next_6_hours`
/// on its own.
pub proof fn absent_outlook_is_none(entry: JsonValue)
    requires
        get(get(Some(entry), "data"@), "next_1_hours"@) is None,
        record_of(entry) is Ok,
    ensures
        record_of(entry)->Ok_0.next_hour is None,
        record_of(entry)->Ok_0.next_6_hours == outlook_of(
            get(get(Some(entry), "data"@), "next_6_hours"@),
        )->Ok_0,
{
}

} // verus!
