use fishcast::conditions::{PrecipRecent, Sky};
use fishcast::weather::{
    build_snapshot, classify_precip, sky_from_weather_code, CurrentBlock, DailyBlock, HourlyBlock,
    OpenMeteoResponse,
};

fn h(x: f64) -> i32 {
    (x * 100.0).round() as i32
}

fn strings(v: &[&str]) -> Vec<String> {
    v.iter().map(|s| s.to_string()).collect()
}

fn fixture() -> OpenMeteoResponse {
    OpenMeteoResponse {
        current: CurrentBlock {
            temperature_2m: h(101.8),
            wind_speed_10m: h(13.7),
            wind_direction_10m: h(178.0),
            weather_code: 0,
            pressure_msl: h(1011.7),
        },
        hourly: HourlyBlock {
            time: strings(&["2026-08-09T20:00", "2026-08-09T21:00", "2026-08-10T20:00", "2026-08-10T21:00"]),
            pressure_msl: vec![h(1013.0), h(1012.5), h(1011.9), h(1011.7)],
            precipitation: vec![h(0.0), h(0.0), h(2.0), h(0.0)],
        },
        daily: DailyBlock {
            time: strings(&[
                "2026-08-04", "2026-08-05", "2026-08-06", "2026-08-07", "2026-08-08", "2026-08-09", "2026-08-10",
            ]),
            temperature_2m_mean: vec![h(86.8), h(89.7), h(89.7), h(84.5), h(82.9), h(89.8), h(90.3)],
        },
    }
}

#[test]
fn parses_fixture_into_snapshot() {
    let snapshot = build_snapshot(fixture());

    assert_eq!(snapshot.air_temp_f, h(101.8));
    assert_eq!(snapshot.sky, Sky::Clear);
    assert_eq!(snapshot.wind_mph, h(13.7));
    assert_eq!(snapshot.wind_direction_deg, h(178.0));
    assert_eq!(snapshot.pressure_mb, h(1011.7));
    assert_eq!(snapshot.pressure_points.len(), 4);
    assert_eq!(snapshot.temp_points.len(), 7);
    assert_eq!(snapshot.temp_points[0].mean_temp_f, h(86.8));
}

#[test]
fn snapshot_skips_unparsable_stamps_and_reads_the_last_day_of_rain() {
    let mut resp = fixture();
    resp.hourly.time[1] = "not a time".to_string();
    resp.daily.time[0] = "2026-02-30".to_string();
    // 30 hours of 0.5mm: only the last 24 count, 12mm is heavy
    resp.hourly.precipitation = vec![h(0.5); 30];
    let snapshot = build_snapshot(resp);
    assert_eq!(snapshot.pressure_points.len(), 3);
    assert_eq!(snapshot.pressure_points[1].pressure_mb, h(1011.9));
    assert_eq!(
        snapshot.pressure_points[0].time,
        chrono::NaiveDate::from_ymd_opt(2026, 8, 9).unwrap().and_hms_opt(20, 0, 0).unwrap().and_utc().timestamp_millis()
    );
    assert_eq!(snapshot.temp_points.len(), 6);
    assert_eq!(snapshot.temp_points[0].mean_temp_f, h(89.7));
    assert_eq!(snapshot.precip_recent, PrecipRecent::Heavy);
}

#[test]
fn precip_recent_thresholds() {
    assert_eq!(classify_precip(h(0.0) as i64), PrecipRecent::Dry);
    assert_eq!(classify_precip(h(2.0) as i64), PrecipRecent::Light);
    assert_eq!(classify_precip(h(15.0) as i64), PrecipRecent::Heavy);
    assert_eq!(classify_precip(h(0.5) as i64), PrecipRecent::Dry);
    assert_eq!(classify_precip(h(10.0) as i64), PrecipRecent::Heavy);
}

#[test]
fn weather_code_mapping() {
    assert_eq!(sky_from_weather_code(0), Sky::Clear);
    assert_eq!(sky_from_weather_code(1), Sky::Clear);
    assert_eq!(sky_from_weather_code(2), Sky::PartlyCloudy);
    assert_eq!(sky_from_weather_code(3), Sky::Overcast);
    assert_eq!(sky_from_weather_code(61), Sky::Overcast);
}
