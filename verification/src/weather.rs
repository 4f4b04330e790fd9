//! Weather: the snapshot built from an Open-Meteo forecast answer (current
//! block, hourly pressure and precipitation, daily mean temperatures).
//! Fixed-point units: hundredths of a degree Fahrenheit, of a mph, of a
//! degree of direction, of a millibar, of a millimetre of precipitation.
use vstd::prelude::*;
use crate::calendar::{parse_hourly_time, parsed_hourly_instant, parsed_date, CalendarDate, is_instant};
use crate::conditions::{PrecipRecent, PressurePoint, Sky, TempPoint};
use crate::numeric::{sum_of, ints_of};

verus! {

/// One hour of forecast.
#[derive(Clone, Copy, Debug)]
pub struct HourlyForecastPoint {
    pub time: i64,
    pub pressure_mb: i32,
    pub sky: Sky,
    pub wind_mph: i32,
}

/// Current conditions and the trailing series the trends are derived from.
#[derive(Debug)]
pub struct WeatherSnapshot {
    pub air_temp_f: i32,
    pub sky: Sky,
    pub wind_mph: i32,
    pub wind_direction_deg: i32,
    pub pressure_mb: i32,
    pub precip_recent: PrecipRecent,
    pub pressure_points: Vec<PressurePoint>,
    pub temp_points: Vec<TempPoint>,
}

/// The `current` block of the forecast answer.
#[derive(Clone, Copy, Debug)]
pub struct CurrentBlock {
    pub temperature_2m: i32,
    pub wind_speed_10m: i32,
    pub wind_direction_10m: i32,
    pub weather_code: u32,
    pub pressure_msl: i32,
}

/// The `hourly` block: parallel series of time stamps, pressures and
/// precipitation amounts.
#[derive(Debug)]
pub struct HourlyBlock {
    pub time: Vec<String>,
    pub pressure_msl: Vec<i32>,
    pub precipitation: Vec<i32>,
}

/// The `daily` block: parallel series of dates and mean temperatures.
#[derive(Debug)]
pub struct DailyBlock {
    pub time: Vec<String>,
    pub temperature_2m_mean: Vec<i32>,
}

#[derive(Debug)]
pub struct OpenMeteoResponse {
    pub current: CurrentBlock,
    pub hourly: HourlyBlock,
    pub daily: DailyBlock,
}

/// WMO weather codes: 0-1 clear/mainly clear, 2 partly cloudy, everything
/// else (overcast, fog, precipitation) counts as overcast.
pub open spec fn sky_of_code(code: int) -> Sky {
    if code == 0 || code == 1 {
        Sky::Clear
    } else if code == 2 {
        Sky::PartlyCloudy
    } else {
        Sky::Overcast
    }
}

/// WMO codes 0 and 1 (clear, mainly clear) are a clear sky, 2 partly
/// cloudy, every other code (overcast, fog, precipitation) overcast.
pub proof fn sky_code_law(code: int)
    ensures
        (code == 0 || code == 1) <==> sky_of_code(code) == Sky::Clear,
        code == 2 <==> sky_of_code(code) == Sky::PartlyCloudy,
        (code != 0 && code != 1 && code != 2) <==> sky_of_code(code) == Sky::Overcast,
{
}

pub fn sky_from_weather_code(code: u32) -> (r: Sky)
    ensures
        r == sky_of_code(code as int),
{
    match code {
        0 | 1 => Sky::Clear,
        2 => Sky::PartlyCloudy,
        _ => Sky::Overcast,
    }
}

/// 10 mm or more over a day is heavy, more than 0.5 mm light, else dry
/// (amounts in hundredths of a millimetre).
pub open spec fn precip_of(mm_24h: int) -> PrecipRecent {
    if mm_24h >= 1000 {
        PrecipRecent::Heavy
    } else if mm_24h > 50 {
        PrecipRecent::Light
    } else {
        PrecipRecent::Dry
    }
}

/// Dry < Light < Heavy.
pub open spec fn precip_rank(p: PrecipRecent) -> int {
    match p {
        PrecipRecent::Dry => 0,
        PrecipRecent::Light => 1,
        PrecipRecent::Heavy => 2,
    }
}

/// Recent rain: 10 mm or more in the last day is heavy, more than 0.5 mm
/// light, else dry (hundredths of a millimetre); more rain never reads as
/// less.
pub proof fn precip_law(a: int, b: int)
    ensures
        a >= 1000 ==> precip_of(a) == PrecipRecent::Heavy,
        50 < a < 1000 ==> precip_of(a) == PrecipRecent::Light,
        a <= 50 ==> precip_of(a) == PrecipRecent::Dry,
        a <= b ==> precip_rank(precip_of(a)) <= precip_rank(precip_of(b)),
{
}

pub fn classify_precip(mm_24h: i64) -> (r: PrecipRecent)
    ensures
        r == precip_of(mm_24h as int),
{
    if mm_24h >= 1000 {
        PrecipRecent::Heavy
    } else if mm_24h > 50 {
        PrecipRecent::Light
    } else {
        PrecipRecent::Dry
    }
}

/// The last `min(24, len)` amounts of the series.
pub open spec fn last_day(s: Seq<i32>) -> Seq<i32> {
    if s.len() <= 24 {
        s
    } else {
        s.skip(s.len() - 24)
    }
}

/// The readings whose time stamps parse, pairing the `i`-th stamp with the
/// `i`-th pressure, over the first `n` pairs.
pub open spec fn pressure_points_of(times: Seq<String>, values: Seq<i32>, n: int) -> Seq<PressurePoint>
    decreases n,
{
    if n <= 0 {
        Seq::empty()
    } else {
        let prev = pressure_points_of(times, values, n - 1);
        match parsed_hourly_instant(times[n - 1]@) {
            Some(t) => prev.push(PressurePoint { time: t, pressure_mb: values[n - 1] }),
            None => prev,
        }
    }
}

/// The daily means whose dates parse, pairing the `i`-th date with the
/// `i`-th mean, over the first `n` pairs.
pub open spec fn temp_points_of(dates: Seq<String>, values: Seq<i32>, n: int) -> Seq<(Option<(i32, u32)>, i32)>
    decreases n,
{
    if n <= 0 {
        Seq::empty()
    } else {
        let prev = temp_points_of(dates, values, n - 1);
        match parsed_date(dates[n - 1]@) {
            Some(d) => prev.push((Some(d), values[n - 1])),
            None => prev,
        }
    }
}

pub open spec fn temp_point_view(p: TempPoint) -> (Option<(i32, u32)>, i32) {
    (Some((p.date.year_of() as i32, p.date.ordinal_of() as u32)), p.mean_temp_f)
}

pub open spec fn min_len(a: int, b: int) -> int {
    if a < b {
        a
    } else {
        b
    }
}

fn sum_last_day(s: &Vec<i32>) -> (r: i64)
    ensures
        r == sum_of(ints_of(last_day(s@))),
{
    let start: usize = if s.len() <= 24 {
        0
    } else {
        s.len() - 24
    };
    let ghost tail = last_day(s@);
    assert(tail =~= s@.skip(start as int));
    let mut sum: i64 = 0;
    let mut i: usize = start;
    while i < s.len()
        invariant
            start <= i <= s@.len(),
            s@.len() - start <= 24,
            tail =~= s@.skip(start as int),
            sum == sum_of(ints_of(tail.take(i - start))),
            -(i - start) * 2147483648 <= sum <= (i - start) * 2147483648,
        decreases s.len() - i,
    {
        proof {
            assert(ints_of(tail.take(i - start + 1)).drop_last() =~= ints_of(tail.take(i - start)));
        }
        sum = sum + s[i] as i64;
        i = i + 1;
    }
    proof {
        assert(tail.take(i - start) =~= tail);
    }
    sum
}

/// Builds the weather snapshot from a forecast answer.
pub fn build_snapshot(resp: OpenMeteoResponse) -> (r: WeatherSnapshot)
    ensures
        r.air_temp_f == resp.current.temperature_2m,
        r.sky == sky_of_code(resp.current.weather_code as int),
        r.wind_mph == resp.current.wind_speed_10m,
        r.wind_direction_deg == resp.current.wind_direction_10m,
        r.pressure_mb == resp.current.pressure_msl,
        r.precip_recent == precip_of(sum_of(ints_of(last_day(resp.hourly.precipitation@)))),
        r.pressure_points@ == pressure_points_of(
            resp.hourly.time@,
            resp.hourly.pressure_msl@,
            min_len(resp.hourly.time@.len() as int, resp.hourly.pressure_msl@.len() as int),
        ),
        r.temp_points@.map_values(|p: TempPoint| temp_point_view(p)) == temp_points_of(
            resp.daily.time@,
            resp.daily.temperature_2m_mean@,
            min_len(resp.daily.time@.len() as int, resp.daily.temperature_2m_mean@.len() as int),
        ),
        forall|i: int| 0 <= i < r.pressure_points@.len() ==> is_instant(#[trigger] r.pressure_points@[i].time as int),
{
    let sky = sky_from_weather_code(resp.current.weather_code);
    let precip_recent = classify_precip(sum_last_day(&resp.hourly.precipitation));

    let hourly = &resp.hourly;
    let n = if hourly.time.len() < hourly.pressure_msl.len() {
        hourly.time.len()
    } else {
        hourly.pressure_msl.len()
    };
    let mut pressure_points: Vec<PressurePoint> = Vec::new();
    let mut i: usize = 0;
    while i < n
        invariant
            i <= n,
            n <= hourly.time@.len(),
            n <= hourly.pressure_msl@.len(),
            pressure_points@ == pressure_points_of(hourly.time@, hourly.pressure_msl@, i as int),
            forall|j: int| 0 <= j < pressure_points@.len() ==> is_instant(#[trigger] pressure_points@[j].time as int),
        decreases n - i,
    {
        match parse_hourly_time(hourly.time[i].as_str()) {
            Some(t) => {
                pressure_points.push(PressurePoint { time: t, pressure_mb: hourly.pressure_msl[i] });
            },
            None => {},
        }
        i = i + 1;
    }

    let daily = &resp.daily;
    let m = if daily.time.len() < daily.temperature_2m_mean.len() {
        daily.time.len()
    } else {
        daily.temperature_2m_mean.len()
    };
    let mut temp_points: Vec<TempPoint> = Vec::new();
    let mut j: usize = 0;
    while j < m
        invariant
            j <= m,
            m <= daily.time@.len(),
            m <= daily.temperature_2m_mean@.len(),
            temp_points@.map_values(|p: TempPoint| temp_point_view(p)) == temp_points_of(
                daily.time@,
                daily.temperature_2m_mean@,
                j as int,
            ),
        decreases m - j,
    {
        let ghost before = temp_points@;
        match CalendarDate::parse(daily.time[j].as_str()) {
            Some(date) => {
                temp_points.push(TempPoint { date, mean_temp_f: daily.temperature_2m_mean[j] });
                proof {
                    assert(temp_points@.map_values(|p: TempPoint| temp_point_view(p)) =~= before.map_values(
                        |p: TempPoint| temp_point_view(p),
                    ).push(temp_point_view(temp_points@.last())));
                }
            },
            None => {},
        }
        j = j + 1;
    }

    WeatherSnapshot {
        air_temp_f: resp.current.temperature_2m,
        sky,
        wind_mph: resp.current.wind_speed_10m,
        wind_direction_deg: resp.current.wind_direction_10m,
        pressure_mb: resp.current.pressure_msl,
        precip_recent,
        pressure_points,
        temp_points,
    }
}

} // verus!
