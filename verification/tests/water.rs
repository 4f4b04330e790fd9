use fishcast::conditions::WaterLevelTrend;
use fishcast::calendar::CalendarDate;
use fishcast::water::{
    celsius_to_fahrenheit, classify_level_trend, current_water, fresh_value, nearest_candidates, sort_daily_series,
    water_temp_points, CandidateSite, Reading,
};

fn h(x: f64) -> i32 {
    (x * 100.0).round() as i32
}

#[test]
fn celsius_conversion() {
    assert_eq!(celsius_to_fahrenheit(h(0.0)), h(32.0) as i64);
    assert_eq!(celsius_to_fahrenheit(h(31.2)), h(88.16) as i64);
    assert_eq!(celsius_to_fahrenheit(h(-40.0)), h(-40.0) as i64);
    // 0.01C is 0.018F: rounds to 0.02F
    assert_eq!(celsius_to_fahrenheit(1), 3202);
}

#[test]
fn level_trend_rising_falling_stable() {
    assert_eq!(classify_level_trend(&[h(10.0), h(10.0), h(12.0), h(12.0)]), Some(WaterLevelTrend::Rising));
    assert_eq!(classify_level_trend(&[h(12.0), h(12.0), h(10.0), h(10.0)]), Some(WaterLevelTrend::Falling));
    assert_eq!(classify_level_trend(&[h(10.0), h(10.1), h(10.0), h(9.95)]), Some(WaterLevelTrend::Stable));
    assert_eq!(classify_level_trend(&[h(10.0), h(10.0)]), None);
}

#[test]
fn level_trend_edges() {
    // exactly 5% up is rising, exactly 5% down is falling
    assert_eq!(classify_level_trend(&[h(100.0), h(100.0), h(105.0), h(105.0)]), Some(WaterLevelTrend::Rising));
    assert_eq!(classify_level_trend(&[h(100.0), h(100.0), h(95.0), h(95.0)]), Some(WaterLevelTrend::Falling));
    // a zero early mean gives no trend
    assert_eq!(classify_level_trend(&[h(1.0), h(-1.0), h(5.0), h(5.0)]), None);
    // odd length: the later half takes the extra value
    assert_eq!(classify_level_trend(&[h(10.0), h(10.0), h(10.0), h(10.0), h(13.0)]), Some(WaterLevelTrend::Rising));
    // relative to a negative early mean: rising toward zero is a fall in relative terms
    assert_eq!(classify_level_trend(&[h(-10.0), h(-10.0), h(-8.0), h(-8.0)]), Some(WaterLevelTrend::Falling));
}

fn reading(code: &str, time: i64, value: Option<f64>) -> Reading {
    Reading { parameter_code: code.to_string(), time, value: value.map(h) }
}

const HOUR: i64 = 3_600_000;

#[test]
fn freshest_reading_per_parameter() {
    let now = 1_786_320_000_000;
    let readings = vec![
        reading("00010", now - 5 * HOUR, Some(20.0)),
        reading("00010", now - HOUR, Some(21.0)),
        reading("00010", now - HOUR, Some(22.0)),
        reading("00010", now, None),
        reading("00060", now - 80 * HOUR, Some(500.0)),
        reading("00065", now - 2 * HOUR, Some(3.5)),
    ];
    // latest time wins, the first of equal times is kept, unparsable values are skipped
    assert_eq!(fresh_value(&readings, "00010", now), Some(h(21.0)));
    // older than 72 hours is not fresh
    assert_eq!(fresh_value(&readings, "00060", now), None);
    assert_eq!(fresh_value(&readings, "99999", now), None);
    assert_eq!(current_water(&readings, now), Some((Some(h(69.8)), None)));
    let only_stale = vec![reading("00060", now - 80 * HOUR, Some(500.0))];
    assert_eq!(current_water(&only_stale, now), None);
    let only_height = vec![reading("00065", now, Some(3.5))];
    assert_eq!(current_water(&only_height, now), Some((None, None)));
}

fn site(id: &str, distance_mi: f64) -> CandidateSite {
    CandidateSite { id: id.into(), name: id.into(), distance_mi: h(distance_mi) }
}

#[test]
fn nearest_candidate_sorting() {
    let candidates = vec![site("far", 20.0), site("near", 2.0), site("mid", 10.0)];
    let sorted = nearest_candidates(candidates, h(25.0));
    let ids: Vec<&str> = sorted.iter().map(|c| c.id.as_str()).collect();
    assert_eq!(ids, vec!["near", "mid", "far"]);
}

#[test]
fn candidates_outside_the_radius_are_dropped_and_ties_keep_their_order() {
    let candidates = vec![
        site("a", 5.0),
        site("too_far", 25.01),
        site("b", 5.0),
        site("edge", 25.0),
        site("c", 1.0),
    ];
    let sorted = nearest_candidates(candidates, h(25.0));
    let ids: Vec<&str> = sorted.iter().map(|c| c.id.as_str()).collect();
    assert_eq!(ids, vec!["c", "a", "b", "edge"]);
    assert!(nearest_candidates(vec![site("x", 30.0)], h(25.0)).is_empty());
}

fn day(y: i32, m: u32, d: u32) -> CalendarDate {
    CalendarDate::from_ymd_opt(y, m, d).unwrap()
}

#[test]
fn daily_series_sorts_by_date_stably() {
    let points = vec![
        (day(2026, 8, 3), 30),
        (day(2026, 7, 31), 10),
        (day(2026, 8, 3), 31),
        (day(2025, 12, 31), 5),
    ];
    let sorted = sort_daily_series(&points);
    assert_eq!(
        sorted,
        vec![(day(2025, 12, 31), 5), (day(2026, 7, 31), 10), (day(2026, 8, 3), 30), (day(2026, 8, 3), 31)]
    );
}

#[test]
fn water_temp_points_convert_to_fahrenheit() {
    let pts = water_temp_points(&[(day(2026, 8, 1), h(20.0)), (day(2026, 8, 2), h(31.2))]);
    assert_eq!(pts.len(), 2);
    assert_eq!(pts[0].date, day(2026, 8, 1));
    assert_eq!(pts[0].mean_temp_f, h(68.0));
    assert_eq!(pts[1].mean_temp_f, h(88.16));
}

#[test]
fn level_trend_is_the_same_in_any_unit() {
    let feet = [h(10.0), h(10.0), h(12.0), h(12.0)];
    let scaled: Vec<i32> = feet.iter().map(|v| v * 7).collect();
    assert_eq!(classify_level_trend(&feet), classify_level_trend(&scaled));
    let stable = [h(10.0), h(10.1), h(10.0), h(9.95)];
    let scaled: Vec<i32> = stable.iter().map(|v| v * 3).collect();
    assert_eq!(classify_level_trend(&scaled), Some(WaterLevelTrend::Stable));
}
