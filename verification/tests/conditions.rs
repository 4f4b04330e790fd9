use chrono::{Datelike, Duration, NaiveDate, Utc};
use fishcast::calendar::CalendarDate;
use fishcast::conditions::{
    classify_pressure_trend, classify_season_phase, classify_temp_trend, classify_time_of_day,
    PressurePoint, PressureTrend, SeasonPhase, TempPoint, TempTrend, TimeOfDay,
};

/// Hundredths of the unit.
fn h(x: f64) -> i32 {
    (x * 100.0).round() as i32
}

fn pp(hours_ago: i64, pressure_mb: f64) -> PressurePoint {
    PressurePoint {
        time: (Utc::now() - Duration::hours(hours_ago)).timestamp_millis(),
        pressure_mb: h(pressure_mb),
    }
}

#[test]
fn pressure_trend_falling() {
    let points = vec![pp(0, 1008.0), pp(3, 1009.0), pp(6, 1010.0), pp(30, 1013.0), pp(36, 1012.5)];
    assert_eq!(classify_pressure_trend(&points), Some(PressureTrend::Falling));
}

#[test]
fn pressure_trend_rising_after_low() {
    // low point sits before the recent 6h window; recent is >=2mb above the prior window
    let points = vec![
        pp(0, 1015.0),
        pp(3, 1014.0),
        pp(6, 1013.5),
        pp(20, 1005.0), // the low
        pp(30, 1008.0),
        pp(36, 1009.0),
    ];
    assert_eq!(classify_pressure_trend(&points), Some(PressureTrend::Rising));
}

#[test]
fn pressure_trend_stable() {
    let points = vec![pp(0, 1013.0), pp(3, 1013.2), pp(30, 1013.1), pp(36, 1012.9)];
    assert_eq!(classify_pressure_trend(&points), Some(PressureTrend::Stable));
}

#[test]
fn pressure_trend_none_without_data() {
    assert_eq!(classify_pressure_trend(&[]), None);
}

#[test]
fn pressure_trend_none_without_prior_window() {
    // only readings in the last 6 hours: nothing to compare against
    let points = vec![pp(0, 1008.0), pp(3, 1012.0)];
    assert_eq!(classify_pressure_trend(&points), None);
}

#[test]
fn pressure_trend_exact_two_mb_drop_is_falling() {
    let points = vec![pp(0, 1011.0), pp(30, 1013.0)];
    assert_eq!(classify_pressure_trend(&points), Some(PressureTrend::Falling));
}

#[test]
fn pressure_trend_rise_without_earlier_low_is_stable() {
    // recent mean is 3mb above the prior window, but the lowest reading is
    // inside the recent window, so it is not a post-frontal rise
    let points = vec![pp(0, 1016.0), pp(5, 1010.0), pp(30, 1011.0)];
    assert_eq!(classify_pressure_trend(&points), Some(PressureTrend::Stable));
}

fn date(y: i32, m: u32, d: u32) -> CalendarDate {
    CalendarDate::from_ymd_opt(y, m, d).unwrap()
}

fn tp(days_ago: i64, temp: f64) -> TempPoint {
    let d = Utc::now().date_naive() - Duration::days(days_ago);
    TempPoint { date: date(d.year(), d.month(), d.day()), mean_temp_f: h(temp) }
}

fn ordered_points(early: [f64; 3], recent: [f64; 3]) -> Vec<TempPoint> {
    vec![
        tp(6, early[0]),
        tp(5, early[1]),
        tp(4, early[2]),
        tp(3, recent[0]),
        tp(2, recent[1]),
        tp(1, recent[2]),
    ]
}

#[test]
fn temp_trend_stable_under_4f() {
    let points = ordered_points([70.0, 70.0, 70.0], [72.0, 71.0, 71.0]);
    assert_eq!(classify_temp_trend(&points), Some(TempTrend::Stable));
}

#[test]
fn temp_trend_mild_warming() {
    let points = ordered_points([60.0, 60.0, 60.0], [65.0, 65.0, 66.0]);
    assert_eq!(classify_temp_trend(&points), Some(TempTrend::Warming));
}

#[test]
fn temp_trend_mild_cooling() {
    let points = ordered_points([70.0, 70.0, 70.0], [65.0, 65.0, 64.0]);
    assert_eq!(classify_temp_trend(&points), Some(TempTrend::Cooling));
}

#[test]
fn temp_trend_cold_front_recent() {
    // strong drop, still sitting near the bottom
    let points = ordered_points([75.0, 75.0, 75.0], [66.0, 65.0, 65.5]);
    assert_eq!(classify_temp_trend(&points), Some(TempTrend::ColdFrontRecent));
}

#[test]
fn temp_trend_recovering_from_front() {
    // strong drop overall, but the last two days are climbing back off the low
    let points = ordered_points([75.0, 75.0, 75.0], [64.0, 66.5, 67.5]);
    assert_eq!(classify_temp_trend(&points), Some(TempTrend::RecoveringFromFront));
}

#[test]
fn temp_trend_rapid_warmup_tags_as_warming() {
    let points = ordered_points([55.0, 55.0, 55.0], [65.0, 66.0, 66.0]);
    assert_eq!(classify_temp_trend(&points), Some(TempTrend::Warming));
}

#[test]
fn temp_trend_none_with_insufficient_data() {
    assert_eq!(classify_temp_trend(&[tp(1, 60.0), tp(2, 61.0)]), None);
}

#[test]
fn temp_trend_boundaries() {
    // exactly 4F up is warming, exactly 4F down is cooling, exactly 8F down is a strong drop
    assert_eq!(
        classify_temp_trend(&ordered_points([60.0, 60.0, 60.0], [64.0, 64.0, 64.0])),
        Some(TempTrend::Warming)
    );
    assert_eq!(
        classify_temp_trend(&ordered_points([64.0, 64.0, 64.0], [60.0, 60.0, 60.0])),
        Some(TempTrend::Cooling)
    );
    assert_eq!(
        classify_temp_trend(&ordered_points([68.0, 68.0, 68.0], [60.0, 60.0, 60.0])),
        Some(TempTrend::ColdFrontRecent)
    );
    assert_eq!(
        classify_temp_trend(&ordered_points([78.0, 78.0, 78.0], [70.0, 70.0, 70.0])),
        Some(TempTrend::ColdFrontRecent)
    );
    // just under 8F down is still cooling
    assert_eq!(
        classify_temp_trend(&ordered_points([68.0, 68.0, 68.0], [60.0, 60.01, 60.0])),
        Some(TempTrend::Cooling)
    );
    // only the last six readings count
    let mut points = vec![tp(9, 20.0), tp(8, 90.0), tp(7, 40.0)];
    points.extend(ordered_points([70.0, 70.0, 70.0], [70.0, 70.0, 70.0]));
    assert_eq!(classify_temp_trend(&points), Some(TempTrend::Stable));
}

fn spawn() -> (i32, i32) {
    (h(60.0), h(75.0))
}

#[test]
fn season_within_spawn_range_is_spawn() {
    let now = date(2026, 4, 15);
    assert_eq!(
        classify_season_phase(h(65.0), spawn(), Some(TempTrend::Stable), now),
        SeasonPhase::Spawn
    );
}

#[test]
fn season_below_range_warming_is_pre_spawn() {
    let now = date(2026, 3, 1);
    assert_eq!(
        classify_season_phase(h(52.0), spawn(), Some(TempTrend::Warming), now),
        SeasonPhase::PreSpawn
    );
}

#[test]
fn season_below_range_cooling_is_winter() {
    let now = date(2026, 11, 15);
    assert_eq!(
        classify_season_phase(h(45.0), spawn(), Some(TempTrend::Cooling), now),
        SeasonPhase::Winter
    );
}

#[test]
fn season_above_range_cooling_is_fall() {
    let now = date(2026, 10, 1);
    assert_eq!(
        classify_season_phase(h(80.0), spawn(), Some(TempTrend::Cooling), now),
        SeasonPhase::Fall
    );
}

#[test]
fn season_above_range_warming_is_post_spawn() {
    let now = date(2026, 6, 1);
    assert_eq!(
        classify_season_phase(h(80.0), spawn(), Some(TempTrend::Warming), now),
        SeasonPhase::PostSpawn
    );
}

#[test]
fn season_above_range_stable_second_half_is_summer() {
    let now = date(2026, 8, 1);
    assert_eq!(
        classify_season_phase(h(85.0), spawn(), Some(TempTrend::Stable), now),
        SeasonPhase::Summer
    );
}

#[test]
fn season_below_range_unknown_trend_falls_back_to_calendar() {
    let winter_side = date(2026, 12, 1);
    assert_eq!(classify_season_phase(h(40.0), spawn(), None, winter_side), SeasonPhase::Winter);
    let spring_side = date(2026, 2, 1);
    assert_eq!(classify_season_phase(h(40.0), spawn(), None, spring_side), SeasonPhase::PreSpawn);
}

#[test]
fn season_range_edges_are_spawn() {
    let now = date(2026, 8, 1);
    assert_eq!(classify_season_phase(h(60.0), spawn(), None, now), SeasonPhase::Spawn);
    assert_eq!(classify_season_phase(h(75.0), spawn(), None, now), SeasonPhase::Spawn);
    // day 181 is the last spring-side day, 182 the first autumn-side one
    let june_30 = date(2026, 6, 30);
    assert_eq!(june_30.ordinal(), 181);
    assert_eq!(classify_season_phase(h(80.0), spawn(), None, june_30), SeasonPhase::PostSpawn);
    let july_1 = date(2026, 7, 1);
    assert_eq!(classify_season_phase(h(80.0), spawn(), None, july_1), SeasonPhase::Summer);
}

fn sun_dt(h: u32, m: u32) -> i64 {
    NaiveDate::from_ymd_opt(2026, 8, 10)
        .unwrap()
        .and_hms_opt(h, m, 0)
        .unwrap()
        .and_utc()
        .timestamp_millis()
}

#[test]
fn time_of_day_windows() {
    let sunrise = sun_dt(6, 30);
    let sunset = sun_dt(20, 0);
    assert_eq!(classify_time_of_day(sunrise, sunset, sun_dt(6, 0)), TimeOfDay::Dawn);
    assert_eq!(classify_time_of_day(sunrise, sunset, sun_dt(12, 0)), TimeOfDay::Day);
    assert_eq!(classify_time_of_day(sunrise, sunset, sun_dt(19, 45)), TimeOfDay::Dusk);
    assert_eq!(classify_time_of_day(sunrise, sunset, sun_dt(2, 0)), TimeOfDay::Night);
}

#[test]
fn time_of_day_window_edges() {
    let sunrise = sun_dt(6, 30);
    let sunset = sun_dt(20, 0);
    assert_eq!(classify_time_of_day(sunrise, sunset, sun_dt(5, 45)), TimeOfDay::Dawn);
    assert_eq!(classify_time_of_day(sunrise, sunset, sun_dt(5, 44)), TimeOfDay::Night);
    assert_eq!(classify_time_of_day(sunrise, sunset, sun_dt(7, 0)), TimeOfDay::Dawn);
    assert_eq!(classify_time_of_day(sunrise, sunset, sun_dt(7, 1)), TimeOfDay::Day);
    assert_eq!(classify_time_of_day(sunrise, sunset, sun_dt(20, 45)), TimeOfDay::Dusk);
    assert_eq!(classify_time_of_day(sunrise, sunset, sun_dt(20, 46)), TimeOfDay::Night);
}

#[test]
fn calendar_dates_validate_and_count_days() {
    assert!(CalendarDate::from_ymd_opt(2026, 2, 29).is_none());
    assert_eq!(CalendarDate::from_ymd_opt(2024, 2, 29).unwrap().ordinal(), 60);
    assert_eq!(CalendarDate::from_ymd_opt(2026, 12, 31).unwrap().ordinal(), 365);
    assert!(CalendarDate::from_ymd_opt(2026, 13, 1).is_none());
    let parsed = CalendarDate::parse("2026-08-10").unwrap();
    assert_eq!(parsed.year(), 2026);
    assert_eq!(parsed.ordinal(), 222);
    assert!(CalendarDate::parse("2026-02-30").is_none());
}
